use rustguard::config::ConfigBuilder;
use rustguard::config::ScanConfig;
use rustguard::config::ScanMode;
use rustguard::config::ScannerContext;
use rustguard::config::ScannerKind;
use rustguard::model::Issue;
use rustguard::orchestrator::check_setup;
use rustguard::orchestrator::discover;
use rustguard::orchestrator::name_of;
use rustguard::orchestrator::plan_tasks;
use rustguard::orchestrator::Action;
use rustguard::orchestrator::Orchestrator;
use rustguard::orchestrator::SetupError;
use rustguard::orchestrator::TargetItem;
use rustguard::orchestrator::TaskOutcome;
use rustguard::orchestrator::TaskState;
use rustguard::severity::Severity;

fn item(target: &str, scanner: ScannerKind) -> TargetItem {
    TargetItem { target: target.to_string(), scanner }
}

fn items() -> Vec<TargetItem> {
    vec![
        item("repo", ScannerKind::Secrets),
        item("repo/Cargo.lock", ScannerKind::Dependencies),
        item("repo/k8s.yml", ScannerKind::Config),
        item("rust:1.75", ScannerKind::Image),
        item("repo/go.sum", ScannerKind::Dependencies),
    ]
}

fn finding(id: &str) -> Issue {
    Issue {
        id: id.to_string(),
        scanner: "s".to_string(),
        category: "c".to_string(),
        severity: Severity::Low,
        description: String::new(),
        location: None,
        fix: None,
        references: vec![],
    }
}

fn states(o: &Orchestrator) -> Vec<TaskState> {
    (0..o.task_count()).map(|i| o.task(i).unwrap().state).collect()
}

#[test]
fn one_task_per_item_that_the_mode_uses() {
    let all = plan_tasks(&items(), ScanMode::All);
    assert_eq!(all.len(), 5);
    for (t, i) in all.iter().zip(items().iter()) {
        assert_eq!(t.target, i.target);
        assert_eq!(t.scanner, i.scanner);
        assert_eq!(t.state, TaskState::Pending);
    }
    let deps = plan_tasks(&items(), ScanMode::Dependencies);
    let targets: Vec<String> = deps.iter().map(|t| t.target.clone()).collect();
    assert_eq!(targets, vec!["repo/Cargo.lock", "repo/go.sum"]);
    assert_eq!(plan_tasks(&items(), ScanMode::Image).len(), 1);
    assert_eq!(plan_tasks(&items(), ScanMode::Secrets).len(), 1);
    assert_eq!(plan_tasks(&items(), ScanMode::Config).len(), 1);
    assert!(plan_tasks(&vec![], ScanMode::All).is_empty());
}

#[test]
fn a_run_without_jobs_cannot_start() {
    let r = Orchestrator::dispatch(&items(), ScanMode::All, 0);
    assert!(matches!(r, Err(SetupError::NoJobs)));
    assert_eq!(
        SetupError::NoJobs.message(),
        "Invalid configuration: at least one job is needed"
    );
    assert_eq!(SetupError::NoTarget.message(), "Invalid configuration: no target to scan");
}

#[test]
fn never_more_tasks_run_than_jobs() {
    for jobs in 1..=6usize {
        let mut o = Orchestrator::dispatch(&items(), ScanMode::All, jobs).ok().unwrap();
        let mut running: Vec<usize> = Vec::new();
        let mut peak = 0;
        let mut started = Vec::new();
        loop {
            match o.next_action() {
                Action::Start(i) => {
                    running.push(i);
                    started.push(i);
                    assert!(running.len() <= jobs);
                    assert_eq!(o.running_count(), running.len());
                    if running.len() > peak {
                        peak = running.len();
                    }
                }
                Action::Wait => {
                    assert!(!running.is_empty());
                    let i = running.remove(0);
                    assert!(o.complete(i, TaskOutcome::Succeeded(vec![])));
                }
                Action::Finished => break,
            }
        }
        assert!(running.is_empty());
        assert_eq!(started, vec![0, 1, 2, 3, 4]);
        assert_eq!(peak, jobs.min(5));
        assert!(o.is_settled());
        assert_eq!(o.running_count(), 0);
        assert_eq!(o.parallel_jobs(), jobs);
    }
}

#[test]
fn a_failed_task_becomes_a_finding_and_leaves_the_others() {
    let mut o = Orchestrator::dispatch(&items(), ScanMode::All, 2).ok().unwrap();
    assert_eq!(o.next_action(), Action::Start(0));
    assert_eq!(o.next_action(), Action::Start(1));
    assert_eq!(o.next_action(), Action::Wait);
    assert!(o.complete(1, TaskOutcome::Failed("failed to parse repo/Cargo.lock".to_string())));
    assert_eq!(
        states(&o),
        vec![
            TaskState::Running,
            TaskState::Failed,
            TaskState::Pending,
            TaskState::Pending,
            TaskState::Pending
        ]
    );
    assert_eq!(o.next_action(), Action::Start(2));
    assert!(o.complete(0, TaskOutcome::Succeeded(vec![finding("a"), finding("b")])));
    assert!(o.complete(2, TaskOutcome::Succeeded(vec![finding("c")])));
    assert_eq!(o.next_action(), Action::Start(3));
    assert_eq!(o.next_action(), Action::Start(4));
    assert!(o.complete(4, TaskOutcome::Failed("timeout".to_string())));
    assert!(!o.is_settled());
    assert!(o.complete(3, TaskOutcome::Succeeded(vec![])));
    assert_eq!(o.next_action(), Action::Finished);
    assert!(o.is_settled());

    let issues = o.collected();
    let ids: Vec<String> = issues.iter().map(|i| i.id.clone()).collect();
    assert_eq!(ids, vec!["scan-failure", "a", "b", "c", "scan-failure"]);
    let failure = &issues[0];
    assert_eq!(failure.scanner, "dependencies");
    assert_eq!(failure.category, "scan-error");
    assert_eq!(failure.severity, Severity::Info);
    assert_eq!(failure.description, "failed to parse repo/Cargo.lock");
    assert_eq!(failure.location.as_ref().unwrap().path, "repo/Cargo.lock");
    assert_eq!(failure.location.as_ref().unwrap().line, None);
    assert!(failure.is_well_formed());
    assert_eq!(issues[4].description, "timeout");
    assert_eq!(issues[4].location.as_ref().unwrap().path, "repo/go.sum");
}

#[test]
fn a_task_ends_only_once() {
    let mut o = Orchestrator::dispatch(&items(), ScanMode::Image, 3).ok().unwrap();
    assert!(!o.complete(0, TaskOutcome::Succeeded(vec![finding("early")])));
    assert!(!o.complete(9, TaskOutcome::Failed("no such task".to_string())));
    assert_eq!(o.next_action(), Action::Start(0));
    assert_eq!(o.next_action(), Action::Wait);
    assert!(o.complete(0, TaskOutcome::Failed("pull failed".to_string())));
    assert!(!o.complete(0, TaskOutcome::Succeeded(vec![finding("late")])));
    assert!(!o.complete(0, TaskOutcome::Failed("again".to_string())));
    assert_eq!(states(&o), vec![TaskState::Failed]);
    assert_eq!(o.next_action(), Action::Finished);
    assert_eq!(o.next_action(), Action::Finished);
    assert_eq!(o.collected().len(), 1);
    assert_eq!(o.task(1), None);
}

#[test]
fn a_run_of_nothing_is_finished_at_once() {
    let mut o = Orchestrator::dispatch(&vec![], ScanMode::All, 4).ok().unwrap();
    assert_eq!(o.task_count(), 0);
    assert!(o.is_settled());
    assert_eq!(o.next_action(), Action::Finished);
    assert!(o.collected().is_empty());
}

#[test]
fn a_failure_without_target_has_no_location() {
    let mut o = Orchestrator::dispatch(&vec![item("", ScannerKind::Secrets)], ScanMode::All, 1)
        .ok()
        .unwrap();
    assert_eq!(o.next_action(), Action::Start(0));
    assert!(o.complete(0, TaskOutcome::Failed("unreadable".to_string())));
    let issues = o.collected();
    assert_eq!(issues[0].location, None);
    assert_eq!(issues[0].scanner, "secrets");
}

#[test]
fn discover_lists_what_there_is_to_scan() {
    let files: Vec<String> = ["repo/Cargo.lock", "repo/src/main.rs", "repo/k8s.yml", "repo/go.sum", "repo/x.json"]
        .iter()
        .map(|s| s.to_string())
        .collect();
    let images = vec!["rust:1.75".to_string(), "debian:12".to_string()];
    let found = discover("repo", &files, &images);
    let summary: Vec<(String, ScannerKind)> =
        found.iter().map(|i| (i.target.clone(), i.scanner)).collect();
    assert_eq!(
        summary,
        vec![
            ("repo".to_string(), ScannerKind::Secrets),
            ("repo/Cargo.lock".to_string(), ScannerKind::Dependencies),
            ("repo/k8s.yml".to_string(), ScannerKind::Config),
            ("repo/go.sum".to_string(), ScannerKind::Dependencies),
            ("repo/x.json".to_string(), ScannerKind::Config),
            ("rust:1.75".to_string(), ScannerKind::Image),
            ("debian:12".to_string(), ScannerKind::Image),
        ]
    );
    assert_eq!(discover("r", &vec![], &vec![]).len(), 1);
}

#[test]
fn scanner_names() {
    assert_eq!(name_of(ScannerKind::Dependencies), "dependencies");
    assert_eq!(name_of(ScannerKind::Image), "image");
    assert_eq!(name_of(ScannerKind::Secrets), "secrets");
    assert_eq!(name_of(ScannerKind::Config), "config");
}

#[test]
fn setup_is_checked_before_dispatch() {
    let no_jobs = ConfigBuilder::with_jobs(0).build();
    assert_eq!(check_setup(&no_jobs), Err(SetupError::NoJobs));
    assert!(matches!(Orchestrator::start(&items(), &no_jobs), Err(SetupError::NoJobs)));
    let no_target = ConfigBuilder::with_jobs(2).target_path(String::new()).build();
    assert_eq!(check_setup(&no_target), Err(SetupError::NoTarget));
    assert!(matches!(Orchestrator::start(&items(), &no_target), Err(SetupError::NoTarget)));
    let neither = ConfigBuilder::with_jobs(0).target_path(String::new()).build();
    assert_eq!(check_setup(&neither), Err(SetupError::NoJobs));
    let fine = ConfigBuilder::with_jobs(2).scan_mode(ScanMode::Dependencies).build();
    assert_eq!(check_setup(&fine), Ok(()));
    let o = Orchestrator::start(&items(), &fine).ok().unwrap();
    assert_eq!(o.task_count(), 2);
    assert_eq!(o.parallel_jobs(), 2);
    assert_eq!(o.running_count(), 0);
}

#[test]
fn dispatch_in_a_context() {
    let ctx = ScannerContext::new(ScanConfig::with_jobs(3));
    let o = Orchestrator::for_context(&ctx, &items(), ScanMode::All).ok().unwrap();
    assert_eq!(o.parallel_jobs(), 3);
    assert_eq!(o.task_count(), 5);
    let none = ScannerContext::new(ScanConfig::with_jobs(0));
    assert!(matches!(
        Orchestrator::for_context(&none, &items(), ScanMode::All),
        Err(SetupError::NoJobs)
    ));
}
