//! The scan orchestrator: one task per target and scanner, started under a
//! bound on the number of tasks that run at once. The failure of a task
//! becomes a finding and leaves the other tasks alone.

use crate::config::RuntimeConfig;
use crate::config::ScanMode;
use crate::config::ScannerContext;
use crate::config::ScannerKind;
use crate::config_scan::is_config_file;
use crate::lockfile::detect_format;
use crate::lockfile::format_of;
use crate::model::clone_issues;
use crate::model::Issue;
use crate::model::IssueView;
use crate::model::Location;
use crate::model::LocationView;
use crate::sequences::lemma_filter_step;
use crate::sequences::lemma_flat_map_step;
use crate::severity::Severity;
use vstd::prelude::*;

verus! {

/// Where a task stands. A task starts as `Pending`, is `Running` once
/// started, and ends as `Done` or `Failed`; it never leaves an end state.
#[derive(Debug, Clone, Copy, PartialEq, Eq, Structural)]
pub enum TaskState {
    Pending,
    Running,
    Done,
    Failed,
}

/// Whether a task may go from one state to another in one step, or stay.
pub open spec fn step_allowed(from: TaskState, to: TaskState) -> bool {
    ||| from == to
    ||| from == TaskState::Pending && to == TaskState::Running
    ||| from == TaskState::Running && (to == TaskState::Done || to == TaskState::Failed)
}

/// Something to scan with one scanner: a lockfile, a directory to search
/// for secrets, an image, a configuration file.
#[derive(Debug, PartialEq, Eq)]
pub struct TargetItem {
    pub target: String,
    pub scanner: ScannerKind,
}

/// What a `TargetItem` holds, with its texts as sequences of characters.
pub struct TargetItemView {
    pub target: Seq<char>,
    pub scanner: ScannerKind,
}

impl View for TargetItem {
    type V = TargetItemView;

    open spec fn view(&self) -> TargetItemView {
        TargetItemView { target: self.target@, scanner: self.scanner }
    }
}

impl DeepView for TargetItem {
    type V = TargetItemView;

    open spec fn deep_view(&self) -> TargetItemView {
        self@
    }
}

/// One unit of work: a target, the scanner for it, and where it stands.
#[derive(Debug, PartialEq, Eq)]
pub struct ScanTask {
    pub target: String,
    pub scanner: ScannerKind,
    pub state: TaskState,
}

/// What a `ScanTask` holds, with its texts as sequences of characters.
pub struct ScanTaskView {
    pub target: Seq<char>,
    pub scanner: ScannerKind,
    pub state: TaskState,
}

impl View for ScanTask {
    type V = ScanTaskView;

    open spec fn view(&self) -> ScanTaskView {
        ScanTaskView { target: self.target@, scanner: self.scanner, state: self.state }
    }
}

impl DeepView for ScanTask {
    type V = ScanTaskView;

    open spec fn deep_view(&self) -> ScanTaskView {
        self@
    }
}

impl Clone for ScanTask {
    fn clone(&self) -> (r: ScanTask)
        ensures
            r@ == self@,
    {
        ScanTask { target: self.target.clone(), scanner: self.scanner, state: self.state }
    }
}

/// What the driver of a run is to do next.
#[derive(Debug, Clone, Copy, PartialEq, Eq, Structural)]
pub enum Action {
    /// Start the task at this position.
    Start(usize),
    /// Wait for a running task to end.
    Wait,
    /// Every task has ended.
    Finished,
}

/// How a task ended.
#[derive(Debug, PartialEq, Eq)]
pub enum TaskOutcome {
    /// The scan was made; these are its findings.
    Succeeded(Vec<Issue>),
    /// The scan failed; this is why.
    Failed(String),
}

/// Why a run cannot start at all.
#[derive(Debug, PartialEq, Eq)]
pub enum SetupError {
    /// The configuration asks for no job at all.
    NoJobs,
    /// The target of the run is empty.
    NoTarget,
}

impl SetupError {
    /// The message of this error.
    pub fn message(&self) -> (m: String)
        ensures
            m@ == match self {
                SetupError::NoJobs => "Invalid configuration: at least one job is needed"@,
                SetupError::NoTarget => "Invalid configuration: no target to scan"@,
            },
    {
        match self {
            SetupError::NoJobs => "Invalid configuration: at least one job is needed".to_owned(),
            SetupError::NoTarget => "Invalid configuration: no target to scan".to_owned(),
        }
    }
}

/// What stands in the way of a run, if anything: a configuration that
/// allows no job, or one without target.
pub open spec fn setup_error(config: RuntimeConfig) -> Option<SetupError> {
    if config.parallel_jobs == 0 {
        Some(SetupError::NoJobs)
    } else if config.target_path@.len() == 0 {
        Some(SetupError::NoTarget)
    } else {
        None
    }
}

/// Checks, before anything is scanned, that a configuration can be run.
pub fn check_setup(config: &RuntimeConfig) -> (r: Result<(), SetupError>)
    ensures
        match setup_error(*config) {
            Some(e) => r == Err::<(), SetupError>(e),
            None => r is Ok,
        },
{
    if config.parallel_jobs == 0 {
        Err(SetupError::NoJobs)
    } else if config.target_path.as_str().is_empty() {
        Err(SetupError::NoTarget)
    } else {
        Ok(())
    }
}

/// The test whether a run in a mode uses the scanner of an item.
pub open spec fn used_by(mode: ScanMode) -> spec_fn(TargetItemView) -> bool {
    |item: TargetItemView| mode.includes(item.scanner)
}

/// The pending task for an item.
pub open spec fn task_for() -> spec_fn(TargetItemView) -> ScanTaskView {
    |item: TargetItemView|
        ScanTaskView { target: item.target, scanner: item.scanner, state: TaskState::Pending }
}

/// The tasks of a run: one pending task for each item whose scanner the
/// mode uses, in the order of the items.
pub open spec fn planned(items: Seq<TargetItemView>, mode: ScanMode) -> Seq<ScanTaskView> {
    items.filter(used_by(mode)).map_values(task_for())
}

/// Every planned task is pending, and its scanner is one that the mode
/// uses.
pub proof fn lemma_planned_pending(items: Seq<TargetItemView>, mode: ScanMode, i: int)
    requires
        0 <= i < planned(items, mode).len(),
    ensures
        planned(items, mode)[i].state == TaskState::Pending,
        mode.includes(planned(items, mode)[i].scanner),
{
    items.lemma_filter_pred(used_by(mode), i);
}

/// Builds the tasks of a run.
pub fn plan_tasks(items: &Vec<TargetItem>, mode: ScanMode) -> (tasks: Vec<ScanTask>)
    ensures
        tasks.deep_view() == planned(items.deep_view(), mode),
{
    let ghost all = items.deep_view();
    let ghost used = used_by(mode);
    let mut tasks: Vec<ScanTask> = Vec::new();
    let mut k: usize = 0;
    proof {
        reveal(Seq::filter);
        assert(all.take(0).filter(used) =~= Seq::<TargetItemView>::empty());
        assert(tasks.deep_view() =~= all.take(0).filter(used).map_values(task_for()));
    }
    while k < items.len()
        invariant
            k <= items.len(),
            all == items.deep_view(),
            used == used_by(mode),
            tasks.deep_view() == all.take(k as int).filter(used).map_values(task_for()),
        decreases items.len() - k,
    {
        let item = &items[k];
        proof {
            assert(all[k as int] == item@);
            lemma_filter_step(all, used, k as int);
        }
        if mode.uses(item.scanner) {
            let task = ScanTask {
                target: item.target.clone(),
                scanner: item.scanner,
                state: TaskState::Pending,
            };
            let ghost before = tasks.deep_view();
            tasks.push(task);
            assert(tasks.deep_view() =~= before.push(task@));
            assert(tasks.deep_view() =~= all.take(k + 1).filter(used).map_values(task_for()));
        }
        k += 1;
    }
    assert(all.take(k as int) =~= all);
    tasks
}

/// The test whether a task is running.
pub open spec fn is_running() -> spec_fn(ScanTaskView) -> bool {
    |t: ScanTaskView| t.state == TaskState::Running
}

/// The number of tasks that are running.
pub open spec fn count_running(tasks: Seq<ScanTaskView>) -> nat {
    tasks.filter(is_running()).len()
}

/// The position of the first pending task; -1 where none is pending.
pub open spec fn first_pending(tasks: Seq<ScanTaskView>) -> int
    decreases tasks.len(),
{
    if tasks.len() == 0 {
        -1
    } else {
        let before = first_pending(tasks.drop_last());
        if before >= 0 {
            before
        } else if tasks.last().state == TaskState::Pending {
            tasks.len() - 1
        } else {
            -1
        }
    }
}

/// Whether every task has ended.
pub open spec fn settled(tasks: Seq<ScanTaskView>) -> bool {
    forall|i: int|
        0 <= i < tasks.len() ==> (#[trigger] tasks[i]).state == TaskState::Done || tasks[i].state
            == TaskState::Failed
}

/// A task with another state.
pub open spec fn with_state(task: ScanTaskView, state: TaskState) -> ScanTaskView {
    ScanTaskView { target: task.target, scanner: task.scanner, state }
}

/// Changing the state of one task changes the number of running tasks by
/// that task alone.
pub proof fn lemma_count_running_update(tasks: Seq<ScanTaskView>, i: int, state: TaskState)
    requires
        0 <= i < tasks.len(),
    ensures
        count_running(tasks.update(i, with_state(tasks[i], state))) + (if tasks[i].state
            == TaskState::Running {
            1nat
        } else {
            0nat
        }) == count_running(tasks) + (if state == TaskState::Running {
            1nat
        } else {
            0nat
        }),
    decreases tasks.len(),
{
    let changed = tasks.update(i, with_state(tasks[i], state));
    let front = tasks.drop_last();
    let last = tasks.last();
    assert(tasks =~= front.push(last));
    front.lemma_filter_push(last, is_running());
    if i == tasks.len() - 1 {
        let new_last = with_state(tasks[i], state);
        assert(changed =~= front.push(new_last));
        front.lemma_filter_push(new_last, is_running());
    } else {
        let new_front = front.update(i, with_state(front[i], state));
        assert(changed =~= new_front.push(last));
        new_front.lemma_filter_push(last, is_running());
        lemma_count_running_update(front, i, state);
    }
}

/// `first_pending` is the position of a pending task before which none is
/// pending, or -1 where no task is pending.
pub proof fn lemma_first_pending(tasks: Seq<ScanTaskView>)
    ensures
        -1 <= first_pending(tasks) < tasks.len(),
        first_pending(tasks) >= 0 ==> tasks[first_pending(tasks)].state == TaskState::Pending,
        forall|j: int|
            0 <= j < tasks.len() && (first_pending(tasks) < 0 || j < first_pending(tasks)) ==> (
            #[trigger] tasks[j]).state != TaskState::Pending,
    decreases tasks.len(),
{
    if tasks.len() > 0 {
        let front = tasks.drop_last();
        lemma_first_pending(front);
        assert forall|j: int|
            0 <= j < tasks.len() && (first_pending(tasks) < 0 || j < first_pending(
                tasks,
            )) implies (#[trigger] tasks[j]).state != TaskState::Pending by {
            if j < front.len() {
                assert(front[j] == tasks[j]);
            }
        }
    }
}

/// Where no task is running, none is in the state `Running`.
pub proof fn lemma_none_running(tasks: Seq<ScanTaskView>, i: int)
    requires
        count_running(tasks) == 0,
        0 <= i < tasks.len(),
    ensures
        tasks[i].state != TaskState::Running,
{
    if tasks[i].state == TaskState::Running {
        tasks.lemma_filter_contains(is_running(), i);
    }
}

/// The name under which a scanner reports.
pub open spec fn scanner_name(kind: ScannerKind) -> Seq<char> {
    match kind {
        ScannerKind::Dependencies => "dependencies"@,
        ScannerKind::Image => "image"@,
        ScannerKind::Secrets => "secrets"@,
        ScannerKind::Config => "config"@,
    }
}

/// The name under which a scanner reports.
pub fn name_of(kind: ScannerKind) -> (s: &'static str)
    ensures
        s@ == scanner_name(kind),
{
    match kind {
        ScannerKind::Dependencies => "dependencies",
        ScannerKind::Image => "image",
        ScannerKind::Secrets => "secrets",
        ScannerKind::Config => "config",
    }
}

/// The finding that stands for a failed task: of severity `Info`, under the
/// scanner of the task, at the target of the task, with the reason of the
/// failure as description.
pub open spec fn failure_issue(task: ScanTaskView, reason: Seq<char>) -> IssueView {
    IssueView {
        id: "scan-failure"@,
        scanner: scanner_name(task.scanner),
        category: "scan-error"@,
        severity: Severity::Info,
        description: reason,
        location: if task.target.len() > 0 {
            Some(LocationView { path: task.target, line: None, column: None })
        } else {
            None
        },
        fix: None,
        references: Seq::empty(),
    }
}

fn make_failure_issue(task: &ScanTask, reason: String) -> (issue: Issue)
    ensures
        issue@ == failure_issue(task@, reason@),
        issue@.well_formed(),
{
    let issue = Issue {
        id: "scan-failure".to_owned(),
        scanner: name_of(task.scanner).to_owned(),
        category: "scan-error".to_owned(),
        severity: Severity::Info,
        description: reason,
        location: Location::new(task.target.as_str(), None, None),
        fix: None,
        references: Vec::new(),
    };
    assert(issue.references.deep_view() =~= Seq::<Seq<char>>::empty());
    issue
}

/// The step that the driver is told to take: start the first pending task
/// if fewer tasks run than jobs are allowed; else wait if a task runs; else
/// the run is finished.
pub open spec fn next_step(tasks: Seq<ScanTaskView>, running: nat, jobs: nat) -> Action {
    if running < jobs && first_pending(tasks) >= 0 {
        Action::Start(first_pending(tasks) as usize)
    } else if running > 0 {
        Action::Wait
    } else {
        Action::Finished
    }
}

/// The findings that the end of a task adds to those of the run.
pub open spec fn outcome_issues(task: ScanTaskView, outcome: TaskOutcome) -> Seq<IssueView> {
    match outcome {
        TaskOutcome::Succeeded(found) => found.deep_view(),
        TaskOutcome::Failed(reason) => seq![failure_issue(task, reason@)],
    }
}

/// The state in which a task ends.
pub open spec fn end_state(outcome: TaskOutcome) -> TaskState {
    match outcome {
        TaskOutcome::Succeeded(_) => TaskState::Done,
        TaskOutcome::Failed(_) => TaskState::Failed,
    }
}

/// The state of a run: its tasks, how many of them run, and the findings
/// of the tasks that have ended.
pub struct Orchestrator {
    tasks: Vec<ScanTask>,
    parallel_jobs: usize,
    running: usize,
    issues: Vec<Issue>,
}

impl Orchestrator {
    /// The tasks of the run.
    pub closed spec fn tasks(self) -> Seq<ScanTaskView> {
        self.tasks.deep_view()
    }

    /// The number of tasks that may run at once.
    pub closed spec fn jobs(self) -> nat {
        self.parallel_jobs as nat
    }

    /// The number of tasks that the orchestrator counts as running.
    pub closed spec fn running(self) -> nat {
        self.running as nat
    }

    /// The findings of the tasks that have ended.
    pub closed spec fn issues(self) -> Seq<IssueView> {
        self.issues.deep_view()
    }

    /// The invariant of a run: the count of running tasks is right, and no
    /// more tasks run than jobs are allowed.
    #[verifier::type_invariant]
    pub open spec fn wf(self) -> bool {
        &&& self.jobs() >= 1
        &&& self.running() == count_running(self.tasks())
        &&& self.running() <= self.jobs()
    }

    /// Sets up a run: one pending task for each item whose scanner the mode
    /// uses. A run with no job allowed cannot start.
    pub fn dispatch(items: &Vec<TargetItem>, mode: ScanMode, parallel_jobs: usize) -> (r: Result<
        Orchestrator,
        SetupError,
    >)
        ensures
            parallel_jobs == 0 ==> r == Err::<Orchestrator, SetupError>(SetupError::NoJobs),
            parallel_jobs >= 1 ==> (r matches Ok(o) && o.wf() && o.tasks() == planned(
                items.deep_view(),
                mode,
            ) && o.jobs() == parallel_jobs && o.running() == 0 && o.issues() == Seq::<
                IssueView,
            >::empty()),
    {
        if parallel_jobs == 0 {
            return Err(SetupError::NoJobs);
        }
        let tasks = plan_tasks(items, mode);
        proof {
            lemma_no_pending_running(items.deep_view(), mode);
        }
        let o = Orchestrator { tasks, parallel_jobs, running: 0, issues: Vec::new() };
        assert(o.issues.deep_view() =~= Seq::<IssueView>::empty());
        Ok(o)
    }

    fn idle() -> (o: Orchestrator)
        ensures
            o.tasks() == Seq::<ScanTaskView>::empty(),
    {
        let o = Orchestrator { tasks: Vec::new(), parallel_jobs: 1, running: 0, issues: Vec::new() };
        assert(o.tasks.deep_view() =~= Seq::<ScanTaskView>::empty());
        o
    }

    /// Sets up a run of a configuration: as `dispatch` does, with the mode
    /// and the number of jobs of the configuration, unless the
    /// configuration cannot be run.
    pub fn start(items: &Vec<TargetItem>, config: &RuntimeConfig) -> (r: Result<
        Orchestrator,
        SetupError,
    >)
        ensures
            match setup_error(*config) {
                Some(e) => r == Err::<Orchestrator, SetupError>(e),
                None => r matches Ok(o) && o.wf() && o.tasks() == planned(
                    items.deep_view(),
                    config.scan_mode,
                ) && o.jobs() == config.parallel_jobs && o.running() == 0 && o.issues() == Seq::<
                    IssueView,
                >::empty(),
            },
    {
        match check_setup(config) {
            Ok(()) => Orchestrator::dispatch(items, config.scan_mode, config.parallel_jobs),
            Err(e) => Err(e),
        }
    }

    /// Sets up a run in a scanning context: as `dispatch` does, with the
    /// number of jobs of the context.
    pub fn for_context(context: &ScannerContext, items: &Vec<TargetItem>, mode: ScanMode) -> (r:
        Result<Orchestrator, SetupError>)
        ensures
            context.config.parallel_jobs == 0 ==> r == Err::<Orchestrator, SetupError>(
                SetupError::NoJobs,
            ),
            context.config.parallel_jobs >= 1 ==> (r matches Ok(o) && o.wf() && o.tasks()
                == planned(items.deep_view(), mode) && o.jobs() == context.config.parallel_jobs
                && o.running() == 0 && o.issues() == Seq::<IssueView>::empty()),
    {
        Orchestrator::dispatch(items, mode, context.parallel_jobs())
    }

    /// The number of tasks.
    pub fn task_count(&self) -> (n: usize)
        ensures
            n == self.tasks().len(),
    {
        self.tasks.len()
    }

    /// The task at a position.
    pub fn task(&self, i: usize) -> (t: Option<ScanTask>)
        ensures
            i < self.tasks().len() ==> t is Some && t->0@ == self.tasks()[i as int],
            i >= self.tasks().len() ==> t is None,
    {
        if i < self.tasks.len() {
            Some(self.tasks[i].clone())
        } else {
            None
        }
    }

    /// The number of tasks that run.
    pub fn running_count(&self) -> (n: usize)
        ensures
            n == self.running(),
    {
        self.running
    }

    /// The number of tasks that may run at once.
    pub fn parallel_jobs(&self) -> (n: usize)
        ensures
            n == self.jobs(),
    {
        self.parallel_jobs
    }

    fn find_pending(&self) -> (r: Option<usize>)
        ensures
            match r {
                Some(i) => i == first_pending(self.tasks()) && i < self.tasks.len(),
                None => first_pending(self.tasks()) == -1,
            },
    {
        let ghost all = self.tasks.deep_view();
        let mut i: usize = 0;
        assert(all.take(0) =~= Seq::<ScanTaskView>::empty());
        while i < self.tasks.len()
            invariant
                i <= self.tasks.len(),
                all == self.tasks.deep_view(),
                first_pending(all.take(i as int)) == -1,
            decreases self.tasks.len() - i,
        {
            assert(all.take(i + 1).drop_last() =~= all.take(i as int));
            assert(all.take(i + 1).last() == self.tasks@[i as int]@);
            if self.tasks[i].state == TaskState::Pending {
                proof {
                    lemma_first_pending_prefix(all, i + 1);
                }
                return Some(i);
            }
            i += 1;
        }
        assert(all.take(i as int) =~= all);
        None
    }

    /// Tells the driver what to do next, and marks the task that it is told
    /// to start as running.
    ///
    /// A task is started only while fewer tasks run than jobs are allowed.
    /// The run is finished only when every task has ended.
    pub fn next_action(&mut self) -> (a: Action)
        ensures
            final(self).wf(),
            a == next_step(old(self).tasks(), old(self).running(), old(self).jobs()),
            final(self).jobs() == old(self).jobs(),
            final(self).issues() == old(self).issues(),
            a matches Action::Start(i) ==> ({
                &&& i < old(self).tasks().len()
                &&& old(self).tasks()[i as int].state == TaskState::Pending
                &&& old(self).running() < old(self).jobs()
                &&& final(self).tasks() == old(self).tasks().update(
                    i as int,
                    with_state(old(self).tasks()[i as int], TaskState::Running),
                )
                &&& final(self).running() == old(self).running() + 1
            }),
            !(a is Start) ==> final(self).tasks() == old(self).tasks() && final(self).running()
                == old(self).running(),
            a is Finished ==> settled(final(self).tasks()),
            final(self).tasks().len() == old(self).tasks().len(),
            forall|j: int|
                0 <= j < old(self).tasks().len() ==> step_allowed(
                    (#[trigger] old(self).tasks()[j]).state,
                    final(self).tasks()[j].state,
                ),
    {
        proof {
            use_type_invariant(&*self);
        }
        let ghost before = self.tasks.deep_view();
        if self.running < self.parallel_jobs {
            match self.find_pending() {
                Some(i) => {
                    let mut taken = Orchestrator::idle();
                    std::mem::swap(self, &mut taken);
                    let Orchestrator { tasks, parallel_jobs, running, issues } = taken;
                    let mut tasks = tasks;
                    let started = ScanTask {
                        target: tasks[i].target.clone(),
                        scanner: tasks[i].scanner,
                        state: TaskState::Running,
                    };
                    proof {
                        lemma_first_pending(before);
                        lemma_count_running_update(before, i as int, TaskState::Running);
                    }
                    tasks.set(i, started);
                    assert(tasks.deep_view() =~= before.update(
                        i as int,
                        with_state(before[i as int], TaskState::Running),
                    ));
                    *self = Orchestrator { tasks, parallel_jobs, running: running + 1, issues };
                    return Action::Start(i);
                },
                None => {},
            }
        }
        if self.running > 0 {
            Action::Wait
        } else {
            proof {
                lemma_first_pending(before);
                assert forall|i: int| 0 <= i < before.len() implies (#[trigger] before[i]).state
                    == TaskState::Done || before[i].state == TaskState::Failed by {
                    lemma_none_running(before, i);
                }
            }
            Action::Finished
        }
    }

    /// Records how a running task ended: the task becomes `Done` or
    /// `Failed`, its findings are added to those of the run, and a failure
    /// becomes a finding of its own. Any other task stays as it is.
    ///
    /// What is said of a task that does not run is refused: nothing
    /// changes and the result is `false`.
    pub fn complete(&mut self, task: usize, outcome: TaskOutcome) -> (accepted: bool)
        ensures
            final(self).wf(),
            final(self).jobs() == old(self).jobs(),
            accepted == (task < old(self).tasks().len() && old(self).tasks()[task as int].state
                == TaskState::Running),
            accepted ==> ({
                &&& final(self).tasks() == old(self).tasks().update(
                    task as int,
                    with_state(old(self).tasks()[task as int], end_state(outcome)),
                )
                &&& final(self).running() == old(self).running() - 1
                &&& final(self).issues() == old(self).issues() + outcome_issues(
                    old(self).tasks()[task as int],
                    outcome,
                )
            }),
            !accepted ==> ({
                &&& final(self).tasks() == old(self).tasks()
                &&& final(self).running() == old(self).running()
                &&& final(self).issues() == old(self).issues()
            }),
            final(self).tasks().len() == old(self).tasks().len(),
            forall|j: int|
                0 <= j < old(self).tasks().len() ==> step_allowed(
                    (#[trigger] old(self).tasks()[j]).state,
                    final(self).tasks()[j].state,
                ),
    {
        proof {
            use_type_invariant(&*self);
        }
        if task >= self.tasks.len() {
            return false;
        }
        if self.tasks[task].state != TaskState::Running {
            return false;
        }
        let ghost before = self.tasks.deep_view();
        let ghost issues_before = self.issues.deep_view();
        proof {
            assert(before[task as int] == self.tasks@[task as int]@);
            lemma_count_running_update(before, task as int, end_state(outcome));
        }
        let mut taken = Orchestrator::idle();
        std::mem::swap(self, &mut taken);
        let Orchestrator { tasks, parallel_jobs, running, issues } = taken;
        let mut tasks = tasks;
        let mut issues = issues;
        match outcome {
            TaskOutcome::Succeeded(found) => {
                let mut found = found;
                let ghost added = found.deep_view();
                issues.append(&mut found);
                assert(issues.deep_view() =~= issues_before + added);
                let ended = ScanTask {
                    target: tasks[task].target.clone(),
                    scanner: tasks[task].scanner,
                    state: TaskState::Done,
                };
                tasks.set(task, ended);
            },
            TaskOutcome::Failed(reason) => {
                let issue = make_failure_issue(&tasks[task], reason);
                issues.push(issue);
                assert(issues.deep_view() =~= issues_before + seq![issue@]);
                let ended = ScanTask {
                    target: tasks[task].target.clone(),
                    scanner: tasks[task].scanner,
                    state: TaskState::Failed,
                };
                tasks.set(task, ended);
            },
        }
        assert(tasks.deep_view() =~= before.update(
            task as int,
            with_state(before[task as int], end_state(outcome)),
        ));
        *self = Orchestrator { tasks, parallel_jobs, running: running - 1, issues };
        true
    }

    /// Whether every task has ended.
    pub fn is_settled(&self) -> (b: bool)
        ensures
            b == settled(self.tasks()),
    {
        let ghost all = self.tasks.deep_view();
        let mut i: usize = 0;
        while i < self.tasks.len()
            invariant
                i <= self.tasks.len(),
                all == self.tasks.deep_view(),
                forall|j: int|
                    0 <= j < i ==> (#[trigger] all[j]).state == TaskState::Done || all[j].state
                        == TaskState::Failed,
            decreases self.tasks.len() - i,
        {
            assert(all[i as int] == self.tasks@[i as int]@);
            let s = self.tasks[i].state;
            if s != TaskState::Done && s != TaskState::Failed {
                return false;
            }
            i += 1;
        }
        true
    }

    /// The findings of the tasks that have ended, in the order in which the
    /// tasks ended.
    pub fn collected(&self) -> (issues: Vec<Issue>)
        ensures
            issues.deep_view() == self.issues(),
    {
        clone_issues(&self.issues)
    }
}

proof fn lemma_no_pending_running(items: Seq<TargetItemView>, mode: ScanMode)
    ensures
        count_running(planned(items, mode)) == 0,
{
    let tasks = planned(items, mode);
    let running = tasks.filter(is_running());
    if running.len() > 0 {
        tasks.lemma_filter_pred(is_running(), 0);
        assert(tasks.contains(running[0])) by {
            assert(running.contains(running[0]));
            tasks.lemma_filter_contains_rev(is_running(), running[0]);
        }
        let j = choose|j: int| 0 <= j < tasks.len() && tasks[j] == running[0];
        lemma_planned_pending(items, mode, j);
    }
}

proof fn lemma_first_pending_prefix(tasks: Seq<ScanTaskView>, k: int)
    requires
        0 < k <= tasks.len(),
        first_pending(tasks.take(k - 1)) == -1,
        tasks[k - 1].state == TaskState::Pending,
    ensures
        first_pending(tasks) == k - 1,
    decreases tasks.len() - k,
{
    assert(tasks.take(k).drop_last() =~= tasks.take(k - 1));
    assert(first_pending(tasks.take(k)) == k - 1);
    lemma_first_pending_extend(tasks, k);
}

proof fn lemma_first_pending_extend(tasks: Seq<ScanTaskView>, k: int)
    requires
        0 < k <= tasks.len(),
        first_pending(tasks.take(k)) >= 0,
    ensures
        first_pending(tasks) == first_pending(tasks.take(k)),
    decreases tasks.len() - k,
{
    if k < tasks.len() {
        assert(tasks.take(k + 1).drop_last() =~= tasks.take(k));
        lemma_first_pending_extend(tasks, k + 1);
    } else {
        assert(tasks.take(k) =~= tasks);
    }
}

/// At no point do more tasks run than jobs are allowed: the invariant of a
/// run bounds the number of tasks in the state `Running`.
pub proof fn lemma_concurrency_bound(o: Orchestrator)
    requires
        o.wf(),
    ensures
        count_running(o.tasks()) <= o.jobs(),
{
}

/// The items that a file of a target gives: for a lockfile an item for the
/// dependency scanner, for a configuration file one for the configuration
/// scanner; a file that is both gives both, in this order.
pub open spec fn file_items() -> spec_fn(Seq<char>) -> Seq<TargetItemView> {
    |f: Seq<char>|
        {
            let as_lockfile = if format_of(f) is Some {
                seq![TargetItemView { target: f, scanner: ScannerKind::Dependencies }]
            } else {
                Seq::empty()
            };
            if is_config_file(f) {
                as_lockfile.push(TargetItemView { target: f, scanner: ScannerKind::Config })
            } else {
                as_lockfile
            }
        }
}

/// The items that a list of images gives: one for the image scanner each.
pub open spec fn image_items(images: Seq<Seq<char>>) -> Seq<TargetItemView> {
    images.map_values(|i: Seq<char>| TargetItemView { target: i, scanner: ScannerKind::Image })
}

/// Everything there is to scan in a target: the root for the secret
/// scanner, then the lockfiles and configuration files among its files,
/// then the images that its Dockerfiles build on.
pub open spec fn items_of(root: Seq<char>, files: Seq<Seq<char>>, images: Seq<Seq<char>>) -> Seq<
    TargetItemView,
> {
    seq![TargetItemView { target: root, scanner: ScannerKind::Secrets }] + files.flat_map(
        file_items(),
    ) + image_items(images)
}

/// Lists everything there is to scan in a target, given the files found
/// under its root and the images that its Dockerfiles build on.
pub fn discover(root: &str, files: &Vec<String>, images: &Vec<String>) -> (items: Vec<TargetItem>)
    ensures
        items.deep_view() == items_of(root@, files.deep_view(), images.deep_view()),
{
    let ghost fs = files.deep_view();
    let ghost is = images.deep_view();
    let ghost head = seq![TargetItemView { target: root@, scanner: ScannerKind::Secrets }];
    let mut items: Vec<TargetItem> = Vec::new();
    items.push(TargetItem { target: root.to_owned(), scanner: ScannerKind::Secrets });
    proof {
        assert(fs.take(0).map_values(file_items()) =~= Seq::<Seq<TargetItemView>>::empty());
        assert(items.deep_view() =~= head + fs.take(0).flat_map(file_items()));
    }
    let mut k: usize = 0;
    while k < files.len()
        invariant
            k <= files.len(),
            fs == files.deep_view(),
            items.deep_view() == head + fs.take(k as int).flat_map(file_items()),
        decreases files.len() - k,
    {
        let f = &files[k];
        let ghost start = items.deep_view();
        proof {
            assert(fs[k as int] == f@);
            lemma_flat_map_step(fs, file_items(), k as int);
        }
        if detect_format(f.as_str()).is_some() {
            let item = TargetItem { target: f.clone(), scanner: ScannerKind::Dependencies };
            let ghost before = items.deep_view();
            items.push(item);
            assert(items.deep_view() =~= before.push(item@));
        }
        if crate::config_scan::wants_file(f.as_str()) {
            let item = TargetItem { target: f.clone(), scanner: ScannerKind::Config };
            let ghost before = items.deep_view();
            items.push(item);
            assert(items.deep_view() =~= before.push(item@));
        }
        assert(items.deep_view() =~= start + file_items()(fs[k as int]));
        assert(items.deep_view() =~= head + fs.take(k + 1).flat_map(file_items()));
        k += 1;
    }
    assert(fs.take(k as int) =~= fs);
    let ghost mid = items.deep_view();
    let mut j: usize = 0;
    assert(items.deep_view() =~= mid + image_items(is.take(0)));
    while j < images.len()
        invariant
            j <= images.len(),
            is == images.deep_view(),
            items.deep_view() == mid + image_items(is.take(j as int)),
        decreases images.len() - j,
    {
        let item = TargetItem { target: images[j].clone(), scanner: ScannerKind::Image };
        assert(is[j as int] == images@[j as int]@);
        let ghost before = items.deep_view();
        items.push(item);
        assert(items.deep_view() =~= before.push(item@));
        assert(items.deep_view() =~= mid + image_items(is.take(j + 1)));
        j += 1;
    }
    assert(is.take(j as int) =~= is);
    items
}

} // verus!
