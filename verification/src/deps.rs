//! The dependency scanner: the cache of answers of the vulnerability
//! source, which packages are still to be asked about, and what is reported
//! of each dependency.

use crate::lockfile::detect_format;
use crate::lockfile::format_of;
use crate::lockfile::lockfile_of;
use crate::lockfile::parse_lockfile;
use crate::lockfile::LockfileView;
use crate::model::clone_vulnerabilities;
use crate::model::Dependency;
use crate::model::DependencyView;
use crate::model::Issue;
use crate::model::IssueView;
use crate::model::Location;
use crate::model::SourceFile;
use crate::model::SourceFileView;
use crate::normalize::location_in;
use crate::sequences::lemma_filter_map_step;
use crate::sequences::lemma_flat_map_of_permutation;
use crate::sequences::lemma_flat_map_step;
use crate::sequences::lemma_fold_step;
use crate::model::Vulnerability;
use crate::model::VulnerabilityView;
use crate::severity::severity_named;
use crate::severity::Severity;
use crate::text::fold_case;
use vstd::prelude::*;

verus! {

/// The settings of the dependency scanner.
#[derive(Debug, PartialEq, Eq)]
pub struct DepScannerConfig {
    pub osv_api_url: String,
    /// Seconds after which a query is given up.
    pub timeout: u64,
    pub cache_dir: Option<String>,
    pub ignore_dev_dependencies: bool,
    pub ignore_patterns: Vec<String>,
    /// The number of queries that may be under way at once.
    pub max_concurrent_requests: usize,
    /// Without network: only the cache is consulted.
    pub offline_mode: bool,
}

impl Default for DepScannerConfig {
    /// The public OSV endpoint, a timeout of 10 seconds, the cache in
    /// `.rustguard_cache`, 5 queries at once, online, nothing ignored.
    fn default() -> (c: DepScannerConfig)
        ensures
            c.osv_api_url@ == "https://api.osv.dev/v1/query"@,
            c.timeout == 10,
            c.cache_dir.deep_view() == Some(".rustguard_cache"@),
            !c.ignore_dev_dependencies,
            c.ignore_patterns@.len() == 0,
            c.max_concurrent_requests == 5,
            !c.offline_mode,
    {
        DepScannerConfig {
            osv_api_url: "https://api.osv.dev/v1/query".to_owned(),
            timeout: 10,
            cache_dir: Some(".rustguard_cache".to_owned()),
            ignore_dev_dependencies: false,
            ignore_patterns: Vec::new(),
            max_concurrent_requests: 5,
            offline_mode: false,
        }
    }
}

/// Why the scan of dependencies failed.
#[derive(Debug, PartialEq, Eq)]
pub enum DepScanError {
    ParseError(String),
    FetchError(String),
    InvalidPackage(String),
    Timeout,
    CacheError(String),
}

impl DepScanError {
    /// The message of an error.
    pub open spec fn message_text(self) -> Seq<char> {
        match self {
            DepScanError::ParseError(d) => "Failed to parse lockfile: "@ + d@,
            DepScanError::FetchError(d) => "Failed to fetch vulnerability data: "@ + d@,
            DepScanError::InvalidPackage(d) => "Invalid package format: "@ + d@,
            DepScanError::Timeout => "Timeout while scanning dependencies"@,
            DepScanError::CacheError(d) => "Cache error: "@ + d@,
        }
    }

    /// The message of this error.
    pub fn message(&self) -> (m: String)
        ensures
            m@ == self.message_text(),
    {
        match self {
            DepScanError::ParseError(d) => "Failed to parse lockfile: ".to_owned().concat(
                d.as_str(),
            ),
            DepScanError::FetchError(d) => "Failed to fetch vulnerability data: ".to_owned().concat(
                d.as_str(),
            ),
            DepScanError::InvalidPackage(d) => "Invalid package format: ".to_owned().concat(
                d.as_str(),
            ),
            DepScanError::Timeout => "Timeout while scanning dependencies".to_owned(),
            DepScanError::CacheError(d) => "Cache error: ".to_owned().concat(d.as_str()),
        }
    }
}

/// A dependency with what is known of its vulnerabilities.
#[derive(Debug, PartialEq, Eq)]
pub struct DepScanResult {
    pub package: String,
    pub version: String,
    pub vulnerabilities: Vec<Vulnerability>,
}

/// What a `DepScanResult` holds, with its texts as sequences of characters.
pub struct DepScanResultView {
    pub package: Seq<char>,
    pub version: Seq<char>,
    pub vulnerabilities: Seq<VulnerabilityView>,
}

impl View for DepScanResult {
    type V = DepScanResultView;

    open spec fn view(&self) -> DepScanResultView {
        DepScanResultView {
            package: self.package@,
            version: self.version@,
            vulnerabilities: self.vulnerabilities.deep_view(),
        }
    }
}

impl DeepView for DepScanResult {
    type V = DepScanResultView;

    open spec fn deep_view(&self) -> DepScanResultView {
        self@
    }
}

/// The answer of the vulnerability source for one package at one version.
#[derive(Debug, PartialEq, Eq)]
pub struct CacheEntry {
    pub name: String,
    pub version: String,
    pub vulnerabilities: Vec<Vulnerability>,
}

/// What a `CacheEntry` holds, with its texts as sequences of characters.
pub struct CacheEntryView {
    pub name: Seq<char>,
    pub version: Seq<char>,
    pub vulnerabilities: Seq<VulnerabilityView>,
}

impl View for CacheEntry {
    type V = CacheEntryView;

    open spec fn view(&self) -> CacheEntryView {
        CacheEntryView {
            name: self.name@,
            version: self.version@,
            vulnerabilities: self.vulnerabilities.deep_view(),
        }
    }
}

impl DeepView for CacheEntry {
    type V = CacheEntryView;

    open spec fn deep_view(&self) -> CacheEntryView {
        self@
    }
}

impl Clone for CacheEntry {
    fn clone(&self) -> (r: CacheEntry)
        ensures
            r@ == self@,
    {
        CacheEntry {
            name: self.name.clone(),
            version: self.version.clone(),
            vulnerabilities: clone_vulnerabilities(&self.vulnerabilities),
        }
    }
}

/// The answer that a list of entries holds for a package at a version: that
/// of the first entry for it.
pub open spec fn answer_in(entries: Seq<CacheEntryView>, name: Seq<char>, version: Seq<char>) -> Option<
    Seq<VulnerabilityView>,
>
    decreases entries.len(),
{
    if entries.len() == 0 {
        None
    } else if entries[0].name == name && entries[0].version == version {
        Some(entries[0].vulnerabilities)
    } else {
        answer_in(entries.skip(1), name, version)
    }
}

/// The entries of a cache after one more answer was offered to it: an
/// answer for a package that has one already is left out.
pub open spec fn take_answer() -> spec_fn(Seq<CacheEntryView>, CacheEntryView) -> Seq<CacheEntryView> {
    |entries: Seq<CacheEntryView>, e: CacheEntryView|
        if answer_in(entries, e.name, e.version) is Some {
            entries
        } else {
            entries.push(e)
        }
}

/// Whether no entry of a list is for the given package and version.
pub open spec fn no_entry_for(entries: Seq<CacheEntryView>, name: Seq<char>, version: Seq<char>) -> bool {
    forall|j: int|
        0 <= j < entries.len() ==> !((#[trigger] entries[j]).name == name && entries[j].version
            == version)
}

/// A list without an entry for a package holds no answer for it, and one
/// with such an entry holds one.
pub proof fn lemma_answer_in(entries: Seq<CacheEntryView>, name: Seq<char>, version: Seq<char>)
    ensures
        answer_in(entries, name, version) is None <==> no_entry_for(entries, name, version),
    decreases entries.len(),
{
    if entries.len() > 0 {
        let rest = entries.skip(1);
        lemma_answer_in(rest, name, version);
        if entries[0].name == name && entries[0].version == version {
        } else {
            if no_entry_for(rest, name, version) {
                assert forall|j: int| 0 <= j < entries.len() implies !((
                #[trigger] entries[j]).name == name && entries[j].version == version) by {
                    if j > 0 {
                        assert(rest[j - 1] == entries[j]);
                    }
                }
            }
            if no_entry_for(entries, name, version) {
                assert forall|j: int| 0 <= j < rest.len() implies !((#[trigger] rest[j]).name
                    == name && rest[j].version == version) by {
                    assert(rest[j] == entries[j + 1]);
                }
            }
        }
    }
}

proof fn lemma_answer_after_push(
    entries: Seq<CacheEntryView>,
    e: CacheEntryView,
    name: Seq<char>,
    version: Seq<char>,
)
    ensures
        answer_in(entries.push(e), name, version) == if answer_in(entries, name, version) is Some {
            answer_in(entries, name, version)
        } else if e.name == name && e.version == version {
            Some(e.vulnerabilities)
        } else {
            None
        },
    decreases entries.len(),
{
    let longer = entries.push(e);
    if entries.len() > 0 {
        assert(longer.skip(1) =~= entries.skip(1).push(e));
        assert(longer[0] == entries[0]);
        lemma_answer_after_push(entries.skip(1), e, name, version);
    } else {
        assert(longer.skip(1) =~= Seq::<CacheEntryView>::empty());
        assert(longer[0] == e);
        assert(answer_in(longer.skip(1), name, version) is None);
    }
}

/// Whether a list holds at most one entry for a package at a version.
pub open spec fn single_answers(entries: Seq<CacheEntryView>) -> bool {
    forall|i: int, j: int|
        0 <= i < j < entries.len() ==> !((#[trigger] entries[i]).name == (#[trigger] entries[j]).name
            && entries[i].version == entries[j].version)
}

/// The answers of the vulnerability source that a run has got so far, and
/// the queries that failed in this run. An answer, once recorded, is never
/// replaced.
pub struct VulnCache {
    entries: Vec<CacheEntry>,
    failed: Vec<Dependency>,
}

impl VulnCache {
    /// The entries of the cache, in the order in which they were recorded.
    pub closed spec fn entries(self) -> Seq<CacheEntryView> {
        self.entries.deep_view()
    }

    /// The queries of this run that failed, in the order in which they were
    /// recorded.
    pub closed spec fn failed(self) -> Seq<DependencyView> {
        self.failed.deep_view()
    }

    /// The answer that the cache holds for a package at a version.
    pub open spec fn answer(self, name: Seq<char>, version: Seq<char>) -> Option<
        Seq<VulnerabilityView>,
    > {
        answer_in(self.entries(), name, version)
    }

    /// The invariant of the cache: it holds at most one answer for a
    /// package at a version.
    #[verifier::type_invariant]
    pub open spec fn wf(self) -> bool {
        single_answers(self.entries())
    }

    /// A cache without answers and without failed queries.
    pub fn new() -> (c: VulnCache)
        ensures
            c.entries() == Seq::<CacheEntryView>::empty(),
            c.failed() == Seq::<DependencyView>::empty(),
    {
        let c = VulnCache { entries: Vec::new(), failed: Vec::new() };
        assert(c.entries.deep_view() =~= Seq::<CacheEntryView>::empty());
        assert(c.failed.deep_view() =~= Seq::<DependencyView>::empty());
        c
    }

    /// A cache with the answers of an earlier run, recorded one after the
    /// other. Of two answers for the same package at the same version, the
    /// first stays.
    pub fn restore(answers: Vec<CacheEntry>) -> (c: VulnCache)
        ensures
            c.entries() == answers.deep_view().fold_left(
                Seq::<CacheEntryView>::empty(),
                take_answer(),
            ),
            c.failed() == Seq::<DependencyView>::empty(),
    {
        let ghost all = answers.deep_view();
        let ghost none = Seq::<CacheEntryView>::empty();
        let mut c = VulnCache::new();
        let mut k: usize = 0;
        while k < answers.len()
            invariant
                k <= answers.len(),
                all == answers.deep_view(),
                none == Seq::<CacheEntryView>::empty(),
                c.entries() == all.take(k as int).fold_left(none, take_answer()),
                c.failed() == Seq::<DependencyView>::empty(),
            decreases answers.len() - k,
        {
            let e = &answers[k];
            proof {
                assert(all[k as int] == e@);
                lemma_fold_step(all, none, take_answer(), k as int);
            }
            c.record(&e.name, &e.version, clone_vulnerabilities(&e.vulnerabilities));
            k += 1;
        }
        assert(all.take(k as int) =~= all);
        c
    }

    /// A copy of the answers in the cache, in the order in which they were
    /// recorded.
    pub fn snapshot(&self) -> (answers: Vec<CacheEntry>)
        ensures
            answers.deep_view() == self.entries(),
    {
        let mut answers: Vec<CacheEntry> = Vec::new();
        let mut k: usize = 0;
        while k < self.entries.len()
            invariant
                k <= self.entries.len(),
                answers.len() == k,
                forall|j: int| 0 <= j < k ==> answers@[j]@ == self.entries@[j]@,
            decreases self.entries.len() - k,
        {
            answers.push(self.entries[k].clone());
            k += 1;
        }
        assert(answers.deep_view() =~= self.entries.deep_view());
        answers
    }

    /// The number of answers in the cache.
    pub fn len(&self) -> (n: usize)
        ensures
            n == self.entries().len(),
    {
        self.entries.len()
    }

    fn position(&self, name: &String, version: &String) -> (r: Option<usize>)
        ensures
            match r {
                Some(i) => i < self.entries.len() && self.answer(name@, version@) == Some(
                    self.entries@[i as int]@.vulnerabilities,
                ),
                None => self.answer(name@, version@) is None,
            },
    {
        let ghost all = self.entries.deep_view();
        let mut i: usize = 0;
        assert(all.skip(0) =~= all);
        while i < self.entries.len()
            invariant
                i <= self.entries.len(),
                all == self.entries.deep_view(),
                answer_in(all, name@, version@) == answer_in(all.skip(i as int), name@, version@),
            decreases self.entries.len() - i,
        {
            let e = &self.entries[i];
            assert(all.skip(i as int)[0] == e@);
            if e.name == *name && e.version == *version {
                return Some(i);
            }
            assert(all.skip(i as int).skip(1) =~= all.skip(i + 1));
            i += 1;
        }
        None
    }

    /// Whether the cache holds an answer for a package at a version.
    pub fn contains(&self, name: &String, version: &String) -> (b: bool)
        ensures
            b == self.answer(name@, version@) is Some,
    {
        self.position(name, version).is_some()
    }

    /// The answer that the cache holds for a package at a version.
    pub fn lookup(&self, name: &String, version: &String) -> (r: Option<Vec<Vulnerability>>)
        ensures
            r.deep_view() == self.answer(name@, version@),
    {
        match self.position(name, version) {
            Some(i) => Some(clone_vulnerabilities(&self.entries[i].vulnerabilities)),
            None => None,
        }
    }

    /// Records the answer for a package at a version, unless the cache
    /// holds one already: then the cache stays as it is. Returns whether the
    /// answer was recorded.
    pub fn record(
        &mut self,
        name: &String,
        version: &String,
        vulnerabilities: Vec<Vulnerability>,
    ) -> (recorded: bool)
        ensures
            final(self).wf(),
            final(self).failed() == old(self).failed(),
            recorded == old(self).answer(name@, version@) is None,
            !recorded ==> final(self).entries() == old(self).entries(),
            recorded ==> final(self).entries() == old(self).entries().push(
                CacheEntryView {
                    name: name@,
                    version: version@,
                    vulnerabilities: vulnerabilities.deep_view(),
                },
            ),
    {
        proof {
            use_type_invariant(&*self);
        }
        if self.contains(name, version) {
            false
        } else {
            let ghost before = self.entries.deep_view();
            let e = CacheEntry { name: name.clone(), version: version.clone(), vulnerabilities };
            let mut taken = VulnCache::new();
            std::mem::swap(self, &mut taken);
            let VulnCache { entries, failed } = taken;
            let mut entries = entries;
            entries.push(e);
            proof {
                lemma_answer_in(before, name@, version@);
                let after = entries.deep_view();
                assert(after =~= before.push(e@));
                assert forall|i: int, j: int| 0 <= i < j < after.len() implies !((
                #[trigger] after[i]).name == (#[trigger] after[j]).name && after[i].version
                    == after[j].version) by {
                    if j < before.len() {
                        assert(after[i] == before[i] && after[j] == before[j]);
                    } else {
                        assert(after[i] == before[i]);
                    }
                }
            }
            *self = VulnCache { entries, failed };
            true
        }
    }

    /// Whether a query about a package at a version failed in this run.
    pub fn has_failed(&self, name: &String, version: &String) -> (b: bool)
        ensures
            b == names_package(self.failed(), name@, version@),
    {
        let mut j: usize = 0;
        while j < self.failed.len()
            invariant
                j <= self.failed.len(),
                forall|m: int|
                    0 <= m < j ==> !((#[trigger] self.failed.deep_view()[m]).name == name@
                        && self.failed.deep_view()[m].version == version@),
            decreases self.failed.len() - j,
        {
            assert(self.failed.deep_view()[j as int] == self.failed@[j as int]@);
            if self.failed[j].name == *name && self.failed[j].version == *version {
                return true;
            }
            j += 1;
        }
        false
    }

    /// Records that the query about a dependency failed in this run, so
    /// that it is not made again. The answers stay as they are. Returns
    /// whether the failure was new.
    pub fn record_failure(&mut self, query: &Dependency) -> (recorded: bool)
        ensures
            final(self).wf(),
            final(self).entries() == old(self).entries(),
            recorded == !names_package(old(self).failed(), query@.name, query@.version),
            recorded ==> final(self).failed() == old(self).failed().push(query@),
            !recorded ==> final(self).failed() == old(self).failed(),
    {
        proof {
            use_type_invariant(&*self);
        }
        if self.has_failed(&query.name, &query.version) {
            false
        } else {
            let ghost before = self.failed.deep_view();
            let mut taken = VulnCache::new();
            std::mem::swap(self, &mut taken);
            let VulnCache { entries, failed } = taken;
            let mut failed = failed;
            failed.push(query.clone());
            assert(failed.deep_view() =~= before.push(query@));
            *self = VulnCache { entries, failed };
            true
        }
    }
}

/// Recording never changes an answer that the cache holds: after `record`
/// for any package, what the cache answered before it still answers, and
/// the package recorded has an answer.
pub proof fn lemma_record_keeps_answers(
    before: Seq<CacheEntryView>,
    e: CacheEntryView,
    name: Seq<char>,
    version: Seq<char>,
)
    ensures
        answer_in(before, name, version) is Some ==> answer_in(before.push(e), name, version)
            == answer_in(before, name, version),
        answer_in(before.push(e), e.name, e.version) is Some,
{
    lemma_answer_after_push(before, e, name, version);
    lemma_answer_after_push(before, e, e.name, e.version);
}

/// Whether a list of dependencies holds one with the given name and version.
pub open spec fn names_package(list: Seq<DependencyView>, name: Seq<char>, version: Seq<char>) -> bool {
    exists|j: int| 0 <= j < list.len() && (#[trigger] list[j]).name == name && list[j].version
        == version
}

/// Whether nothing is to be asked about a package at a version: the cache
/// holds the answer, or the query failed in this run already.
pub open spec fn settled(
    entries: Seq<CacheEntryView>,
    failed: Seq<DependencyView>,
    name: Seq<char>,
    version: Seq<char>,
) -> bool {
    answer_in(entries, name, version) is Some || names_package(failed, name, version)
}

/// The queries after one more dependency was looked at: the dependency is
/// one more query, unless it is settled or the package at the version is
/// asked about already.
pub open spec fn ask_once(entries: Seq<CacheEntryView>, failed: Seq<DependencyView>) -> spec_fn(
    Seq<DependencyView>,
    DependencyView,
) -> Seq<DependencyView> {
    |asked: Seq<DependencyView>, d: DependencyView|
        if settled(entries, failed, d.name, d.version) || names_package(asked, d.name, d.version) {
            asked
        } else {
            asked.push(d)
        }
}

/// The queries that a scan has to make: none in offline mode; otherwise one
/// for each package at a version that the cache has no answer for and that
/// was not asked about in vain in this run, in the order in which the
/// packages first occur.
pub open spec fn pending(
    deps: Seq<DependencyView>,
    entries: Seq<CacheEntryView>,
    failed: Seq<DependencyView>,
    offline: bool,
) -> Seq<DependencyView> {
    if offline {
        Seq::empty()
    } else {
        deps.fold_left(Seq::empty(), ask_once(entries, failed))
    }
}

spec fn pending_upto(
    deps: Seq<DependencyView>,
    entries: Seq<CacheEntryView>,
    failed: Seq<DependencyView>,
    k: nat,
) -> Seq<DependencyView>
    decreases k,
{
    if k == 0 {
        Seq::empty()
    } else {
        let before = pending_upto(deps, entries, failed, (k - 1) as nat);
        let d = deps[k - 1];
        if settled(entries, failed, d.name, d.version) || names_package(before, d.name, d.version) {
            before
        } else {
            before.push(d)
        }
    }
}

proof fn lemma_pending_upto_fold(
    deps: Seq<DependencyView>,
    entries: Seq<CacheEntryView>,
    failed: Seq<DependencyView>,
    k: nat,
)
    requires
        k <= deps.len(),
    ensures
        pending_upto(deps, entries, failed, k) == deps.take(k as int).fold_left(
            Seq::empty(),
            ask_once(entries, failed),
        ),
        k == deps.len() ==> pending_upto(deps, entries, failed, k) == pending(
            deps,
            entries,
            failed,
            false,
        ),
    decreases k,
{
    if k > 0 {
        lemma_pending_upto_fold(deps, entries, failed, (k - 1) as nat);
        lemma_fold_step(deps, Seq::empty(), ask_once(entries, failed), k - 1);
    }
    if k == deps.len() {
        assert(deps.take(k as int) =~= deps);
    }
}

fn names(list: &Vec<Dependency>, d: &Dependency) -> (b: bool)
    ensures
        b == names_package(list.deep_view(), d@.name, d@.version),
{
    let mut j: usize = 0;
    while j < list.len()
        invariant
            j <= list.len(),
            forall|m: int|
                0 <= m < j ==> !((#[trigger] list.deep_view()[m]).name == d@.name
                    && list.deep_view()[m].version == d@.version),
        decreases list.len() - j,
    {
        assert(list.deep_view()[j as int] == list@[j as int]@);
        if list[j].name == d.name && list[j].version == d.version {
            return true;
        }
        j += 1;
    }
    false
}

/// The dependencies that the vulnerability source is to be asked about.
pub fn pending_queries(deps: &Vec<Dependency>, cache: &VulnCache, config: &DepScannerConfig) -> (r: Vec<
    Dependency,
>)
    ensures
        r.deep_view() == pending(
            deps.deep_view(),
            cache.entries(),
            cache.failed(),
            config.offline_mode,
        ),
{
    let mut r: Vec<Dependency> = Vec::new();
    assert(r.deep_view() =~= Seq::<DependencyView>::empty());
    if config.offline_mode {
        return r;
    }
    let ghost all = deps.deep_view();
    let mut i: usize = 0;
    while i < deps.len()
        invariant
            i <= deps.len(),
            all == deps.deep_view(),
            r.deep_view() == pending_upto(all, cache.entries(), cache.failed(), i as nat),
        decreases deps.len() - i,
    {
        let d = &deps[i];
        assert(all[i as int] == d@);
        if !cache.contains(&d.name, &d.version) && !cache.has_failed(&d.name, &d.version) && !names(
            &r,
            d,
        ) {
            let ghost before = r.deep_view();
            r.push(d.clone());
            assert(r.deep_view() =~= before.push(d@));
        }
        i += 1;
    }
    proof {
        lemma_pending_upto_fold(all, cache.entries(), cache.failed(), all.len());
    }
    r
}

proof fn lemma_pending_upto_distinct(
    deps: Seq<DependencyView>,
    entries: Seq<CacheEntryView>,
    failed: Seq<DependencyView>,
    k: nat,
    a: int,
    b: int,
)
    requires
        0 <= a < b < pending_upto(deps, entries, failed, k).len(),
    ensures
        !(pending_upto(deps, entries, failed, k)[a].name == pending_upto(
            deps,
            entries,
            failed,
            k,
        )[b].name && pending_upto(deps, entries, failed, k)[a].version == pending_upto(
            deps,
            entries,
            failed,
            k,
        )[b].version),
    decreases k,
{
    if k > 0 {
        let before = pending_upto(deps, entries, failed, (k - 1) as nat);
        if b < before.len() {
            lemma_pending_upto_distinct(deps, entries, failed, (k - 1) as nat, a, b);
        }
    }
}

proof fn lemma_pending_upto_unsettled(
    deps: Seq<DependencyView>,
    entries: Seq<CacheEntryView>,
    failed: Seq<DependencyView>,
    k: nat,
    a: int,
)
    requires
        0 <= a < pending_upto(deps, entries, failed, k).len(),
    ensures
        !settled(
            entries,
            failed,
            pending_upto(deps, entries, failed, k)[a].name,
            pending_upto(deps, entries, failed, k)[a].version,
        ),
    decreases k,
{
    if k > 0 {
        let before = pending_upto(deps, entries, failed, (k - 1) as nat);
        if a < before.len() {
            lemma_pending_upto_unsettled(deps, entries, failed, (k - 1) as nat, a);
        }
    }
}

proof fn lemma_pending_upto_covers(
    deps: Seq<DependencyView>,
    entries: Seq<CacheEntryView>,
    failed: Seq<DependencyView>,
    k: nat,
    i: int,
)
    requires
        0 <= i < k <= deps.len(),
    ensures
        settled(entries, failed, deps[i].name, deps[i].version) || names_package(
            pending_upto(deps, entries, failed, k),
            deps[i].name,
            deps[i].version,
        ),
    decreases k,
{
    let before = pending_upto(deps, entries, failed, (k - 1) as nat);
    let now = pending_upto(deps, entries, failed, k);
    if i < k - 1 {
        lemma_pending_upto_covers(deps, entries, failed, (k - 1) as nat, i);
        if names_package(before, deps[i].name, deps[i].version) {
            let j = choose|j: int|
                0 <= j < before.len() && (#[trigger] before[j]).name == deps[i].name
                    && before[j].version == deps[i].version;
            assert(now[j] == before[j]);
        }
    } else {
        let d = deps[k - 1];
        if settled(entries, failed, d.name, d.version) {
        } else if names_package(before, d.name, d.version) {
        } else {
            assert(now[before.len() as int] == d);
        }
    }
}

proof fn lemma_pending_upto_none(
    deps: Seq<DependencyView>,
    entries: Seq<CacheEntryView>,
    failed: Seq<DependencyView>,
    k: nat,
)
    requires
        k <= deps.len(),
        forall|i: int|
            0 <= i < deps.len() ==> settled(
                entries,
                failed,
                (#[trigger] deps[i]).name,
                deps[i].version,
            ),
    ensures
        pending_upto(deps, entries, failed, k).len() == 0,
    decreases k,
{
    if k > 0 {
        lemma_pending_upto_none(deps, entries, failed, (k - 1) as nat);
        assert(settled(entries, failed, deps[k - 1].name, deps[k - 1].version));
    }
}

/// No package at a version is asked about twice: the pending queries are
/// pairwise different.
pub proof fn lemma_pending_distinct(
    deps: Seq<DependencyView>,
    entries: Seq<CacheEntryView>,
    failed: Seq<DependencyView>,
    a: int,
    b: int,
)
    requires
        0 <= a < b < pending(deps, entries, failed, false).len(),
    ensures
        !(pending(deps, entries, failed, false)[a].name == pending(
            deps,
            entries,
            failed,
            false,
        )[b].name && pending(deps, entries, failed, false)[a].version == pending(
            deps,
            entries,
            failed,
            false,
        )[b].version),
{
    lemma_pending_upto_fold(deps, entries, failed, deps.len());
    lemma_pending_upto_distinct(deps, entries, failed, deps.len(), a, b);
}

/// Nothing that the cache can answer, and nothing that was asked about in
/// vain in this run, is asked about.
pub proof fn lemma_pending_unsettled(
    deps: Seq<DependencyView>,
    entries: Seq<CacheEntryView>,
    failed: Seq<DependencyView>,
    a: int,
)
    requires
        0 <= a < pending(deps, entries, failed, false).len(),
    ensures
        !settled(
            entries,
            failed,
            pending(deps, entries, failed, false)[a].name,
            pending(deps, entries, failed, false)[a].version,
        ),
{
    lemma_pending_upto_fold(deps, entries, failed, deps.len());
    lemma_pending_upto_unsettled(deps, entries, failed, deps.len(), a);
}

/// Every dependency is settled or asked about.
pub proof fn lemma_pending_covers(
    deps: Seq<DependencyView>,
    entries: Seq<CacheEntryView>,
    failed: Seq<DependencyView>,
    i: int,
)
    requires
        0 <= i < deps.len(),
    ensures
        settled(entries, failed, deps[i].name, deps[i].version) || names_package(
            pending(deps, entries, failed, false),
            deps[i].name,
            deps[i].version,
        ),
{
    lemma_pending_upto_fold(deps, entries, failed, deps.len());
    lemma_pending_upto_covers(deps, entries, failed, deps.len(), i);
}

/// Once every dependency is settled, by an answer or by a failure that was
/// recorded, nothing is left to ask: within a run no package at a version
/// is asked about a second time.
pub proof fn lemma_nothing_pending_when_settled(
    deps: Seq<DependencyView>,
    entries: Seq<CacheEntryView>,
    failed: Seq<DependencyView>,
    offline: bool,
)
    requires
        forall|i: int|
            0 <= i < deps.len() ==> settled(
                entries,
                failed,
                (#[trigger] deps[i]).name,
                deps[i].version,
            ),
    ensures
        pending(deps, entries, failed, offline).len() == 0,
{
    lemma_pending_upto_fold(deps, entries, failed, deps.len());
    lemma_pending_upto_none(deps, entries, failed, deps.len());
}

/// The identifier under which a dependency without answer is reported.
pub open spec fn unknown_id() -> Seq<char> {
    "UNKNOWN"@
}

/// The description of the finding for a dependency without answer.
pub open spec fn unknown_description() -> Seq<char> {
    "No vulnerability data could be obtained for this package"@
}

/// The finding that stands for a dependency of which nothing is known.
pub open spec fn unknown_finding(d: DependencyView) -> VulnerabilityView {
    VulnerabilityView {
        id: unknown_id(),
        package: d.name,
        version: d.version,
        severity: Severity::Info,
        description: unknown_description(),
        fixed_in: None,
        references: Seq::empty(),
    }
}

/// What is reported of a dependency: for one with known vulnerabilities,
/// those; for one known to have none, nothing; for one without answer, a
/// single finding of severity `Info` that says so.
pub open spec fn result_of(entries: Seq<CacheEntryView>) -> spec_fn(DependencyView) -> Option<
    DepScanResultView,
> {
    |d: DependencyView|
        match answer_in(entries, d.name, d.version) {
            Some(found) => if found.len() > 0 {
                Some(
                    DepScanResultView { package: d.name, version: d.version, vulnerabilities: found },
                )
            } else {
                None
            },
            None => Some(
                DepScanResultView {
                    package: d.name,
                    version: d.version,
                    vulnerabilities: seq![unknown_finding(d)],
                },
            ),
        }
}

/// What is reported of a list of dependencies, dependency by dependency.
pub open spec fn results_of(deps: Seq<DependencyView>, entries: Seq<CacheEntryView>) -> Seq<
    DepScanResultView,
> {
    deps.filter_map(result_of(entries))
}

fn unknown_result(d: &Dependency) -> (r: DepScanResult)
    ensures
        r@ == (DepScanResultView {
            package: d@.name,
            version: d@.version,
            vulnerabilities: seq![unknown_finding(d@)],
        }),
{
    let v = Vulnerability {
        id: "UNKNOWN".to_owned(),
        package: d.name.clone(),
        version: d.version.clone(),
        severity: Severity::Info,
        description: "No vulnerability data could be obtained for this package".to_owned(),
        fixed_in: None,
        references: Vec::new(),
    };
    assert(v.references.deep_view() =~= Seq::<Seq<char>>::empty());
    assert(v@ == unknown_finding(d@));
    let mut found: Vec<Vulnerability> = Vec::new();
    found.push(v);
    assert(found.deep_view() =~= seq![unknown_finding(d@)]);
    DepScanResult { package: d.name.clone(), version: d.version.clone(), vulnerabilities: found }
}

/// Reports on each dependency from the answers in the cache, in the order
/// of the dependencies. A dependency whose query failed or was not made has
/// no answer in the cache; it is not dropped but reported as unknown.
pub fn check_vulnerabilities(deps: &Vec<Dependency>, cache: &VulnCache) -> (r: Vec<DepScanResult>)
    ensures
        r.deep_view() == results_of(deps.deep_view(), cache.entries()),
{
    let ghost all = deps.deep_view();
    let ghost of_dep = result_of(cache.entries());
    let mut r: Vec<DepScanResult> = Vec::new();
    let mut i: usize = 0;
    proof {
        assert(r.deep_view() =~= Seq::<DepScanResultView>::empty());
        assert(all.take(0).filter_map(of_dep) =~= Seq::<DepScanResultView>::empty());
    }
    while i < deps.len()
        invariant
            i <= deps.len(),
            all == deps.deep_view(),
            of_dep == result_of(cache.entries()),
            r.deep_view() == all.take(i as int).filter_map(of_dep),
        decreases deps.len() - i,
    {
        let d = &deps[i];
        proof {
            assert(all[i as int] == d@);
            lemma_filter_map_step(all, of_dep, i as int);
        }
        let ghost before = r.deep_view();
        match cache.lookup(&d.name, &d.version) {
            Some(found) => {
                if found.len() > 0 {
                    let result = DepScanResult {
                        package: d.name.clone(),
                        version: d.version.clone(),
                        vulnerabilities: found,
                    };
                    r.push(result);
                    assert(r.deep_view() =~= before.push(result@));
                }
            },
            None => {
                let result = unknown_result(d);
                r.push(result);
                assert(r.deep_view() =~= before.push(result@));
            },
        }
        i += 1;
    }
    assert(all.take(i as int) =~= all);
    r
}

/// The finding that stands for a lockfile that could not be read: of
/// severity `Medium`, at the file, with the reason as description.
pub open spec fn parse_failure(path: Seq<char>, reason: Seq<char>) -> IssueView {
    IssueView {
        id: "parse-error"@,
        scanner: "dependencies"@,
        category: "scan-error"@,
        severity: Severity::Medium,
        description: "Failed to parse lockfile: "@ + reason,
        location: location_in(path, None),
        fix: None,
        references: Seq::empty(),
    }
}

/// The dependencies of a file: those of a lockfile that can be read, none
/// of any other file.
pub open spec fn file_dependencies() -> spec_fn(SourceFileView) -> Seq<DependencyView> {
    |f: SourceFileView|
        match lockfile_of(f.path, f.content) {
            LockfileView::Read(deps) => deps,
            LockfileView::Refused(_) => Seq::empty(),
        }
}

/// What the scan of one file reports: of a lockfile that can be read, what
/// is reported of its dependencies; of any other file, nothing.
pub open spec fn file_results(entries: Seq<CacheEntryView>) -> spec_fn(SourceFileView) -> Seq<
    DepScanResultView,
> {
    |f: SourceFileView|
        match lockfile_of(f.path, f.content) {
            LockfileView::Read(deps) => results_of(deps, entries),
            LockfileView::Refused(_) => Seq::empty(),
        }
}

/// The finding for a file that is a lockfile by its name and cannot be
/// read; none for any other file.
pub open spec fn file_failure() -> spec_fn(SourceFileView) -> Option<IssueView> {
    |f: SourceFileView|
        match lockfile_of(f.path, f.content) {
            LockfileView::Refused(reason) => if format_of(f.path) is Some {
                Some(parse_failure(f.path, reason))
            } else {
                None
            },
            LockfileView::Read(_) => None,
        }
}

/// The dependencies of the lockfiles of a directory, file by file.
pub open spec fn directory_dependencies(files: Seq<SourceFileView>) -> Seq<DependencyView> {
    files.flat_map(file_dependencies())
}

/// What is reported of the dependencies of the lockfiles of a directory,
/// file by file.
pub open spec fn directory_results(files: Seq<SourceFileView>, entries: Seq<CacheEntryView>) -> Seq<
    DepScanResultView,
> {
    files.flat_map(file_results(entries))
}

/// The findings for the lockfiles of a directory that cannot be read.
pub open spec fn directory_failures(files: Seq<SourceFileView>) -> Seq<IssueView> {
    files.filter_map(file_failure())
}

/// Reads the lockfiles among the files of a directory and gives all their
/// dependencies, file by file. Files that are no lockfiles, and lockfiles
/// that cannot be read, give none.
pub fn read_directory(files: &Vec<SourceFile>) -> (deps: Vec<Dependency>)
    ensures
        deps.deep_view() == directory_dependencies(files.deep_view()),
{
    let ghost fs = files.deep_view();
    let mut deps: Vec<Dependency> = Vec::new();
    let mut k: usize = 0;
    proof {
        assert(fs.take(0).map_values(file_dependencies()) =~= Seq::<Seq<DependencyView>>::empty());
        assert(deps.deep_view() =~= fs.take(0).flat_map(file_dependencies()));
    }
    while k < files.len()
        invariant
            k <= files.len(),
            fs == files.deep_view(),
            deps.deep_view() == fs.take(k as int).flat_map(file_dependencies()),
        decreases files.len() - k,
    {
        let f = &files[k];
        proof {
            assert(fs[k as int] == f@);
            lemma_flat_map_step(fs, file_dependencies(), k as int);
        }
        let ghost before = deps.deep_view();
        match parse_lockfile(f.path.as_str(), f.content.as_str()) {
            Ok(mut found) => {
                let ghost added = found.deep_view();
                deps.append(&mut found);
                assert(deps.deep_view() =~= before + added);
            },
            Err(_) => {
                assert(before + Seq::<DependencyView>::empty() =~= before);
            },
        }
        k += 1;
    }
    assert(fs.take(k as int) =~= fs);
    deps
}

/// The outcome of the scan of a directory for dependencies.
#[derive(Debug, PartialEq, Eq)]
pub struct DirectoryScan {
    /// What is reported of the dependencies of the lockfiles.
    pub results: Vec<DepScanResult>,
    /// One finding for each lockfile that could not be read.
    pub failures: Vec<Issue>,
}

/// Scans the lockfiles among the files of a directory, in the order given,
/// against the answers in the cache. A lockfile that cannot be read does
/// not end the scan: it becomes a finding of its own, and the scan goes on
/// with the next file. Files that are no lockfiles are passed over.
pub fn scan_directory(files: &Vec<SourceFile>, cache: &VulnCache) -> (scan: DirectoryScan)
    ensures
        scan.results.deep_view() == directory_results(files.deep_view(), cache.entries()),
        scan.failures.deep_view() == directory_failures(files.deep_view()),
{
    let ghost fs = files.deep_view();
    let ghost of_file = file_results(cache.entries());
    let mut results: Vec<DepScanResult> = Vec::new();
    let mut failures: Vec<Issue> = Vec::new();
    let mut k: usize = 0;
    proof {
        assert(fs.take(0).map_values(of_file) =~= Seq::<Seq<DepScanResultView>>::empty());
        assert(results.deep_view() =~= fs.take(0).flat_map(of_file));
        assert(failures.deep_view() =~= Seq::<IssueView>::empty());
        assert(fs.take(0).filter_map(file_failure()) =~= Seq::<IssueView>::empty());
    }
    while k < files.len()
        invariant
            k <= files.len(),
            fs == files.deep_view(),
            of_file == file_results(cache.entries()),
            results.deep_view() == fs.take(k as int).flat_map(of_file),
            failures.deep_view() == fs.take(k as int).filter_map(file_failure()),
        decreases files.len() - k,
    {
        let f = &files[k];
        proof {
            assert(fs[k as int] == f@);
            lemma_flat_map_step(fs, of_file, k as int);
            lemma_filter_map_step(fs, file_failure(), k as int);
        }
        let known = detect_format(f.path.as_str()).is_some();
        let ghost before = results.deep_view();
        match parse_lockfile(f.path.as_str(), f.content.as_str()) {
            Ok(deps) => {
                let mut found = check_vulnerabilities(&deps, cache);
                let ghost added = found.deep_view();
                results.append(&mut found);
                assert(results.deep_view() =~= before + added);
            },
            Err(e) => {
                assert(before + Seq::<DepScanResultView>::empty() =~= before);
                if known {
                    let issue = Issue {
                        id: "parse-error".to_owned(),
                        scanner: "dependencies".to_owned(),
                        category: "scan-error".to_owned(),
                        severity: Severity::Medium,
                        description: e.message(),
                        location: Location::new(f.path.as_str(), None, None),
                        fix: None,
                        references: Vec::new(),
                    };
                    assert(issue.references.deep_view() =~= Seq::<Seq<char>>::empty());
                    let ghost failed_before = failures.deep_view();
                    failures.push(issue);
                    assert(failures.deep_view() =~= failed_before.push(issue@));
                }
            },
        }
        k += 1;
    }
    assert(fs.take(k as int) =~= fs);
    DirectoryScan { results, failures }
}

/// A list of queries cut into batches of at most `width` queries, in
/// order; every batch but the last has exactly `width`.
pub open spec fn batches_of(queries: Seq<DependencyView>, width: nat) -> Seq<Seq<DependencyView>>
    decreases queries.len(),
{
    if queries.len() == 0 || width == 0 {
        Seq::empty()
    } else if queries.len() <= width {
        seq![queries]
    } else {
        seq![queries.take(width as int)] + batches_of(queries.skip(width as int), width)
    }
}

/// The greatest number of queries that are under way at once: the number
/// configured, and one where none is configured.
pub open spec fn batch_width(max_concurrent_requests: usize) -> nat {
    if max_concurrent_requests == 0 {
        1
    } else {
        max_concurrent_requests as nat
    }
}

/// No batch is empty, none holds more than `width` queries, and the
/// batches, one after the other, are the queries.
pub proof fn lemma_batches(queries: Seq<DependencyView>, width: nat)
    requires
        width >= 1,
    ensures
        forall|i: int|
            0 <= i < batches_of(queries, width).len() ==> 1 <= (#[trigger] batches_of(
                queries,
                width,
            )[i]).len() <= width,
        batches_of(queries, width).flatten() == queries,
    decreases queries.len(),
{
    let b = batches_of(queries, width);
    if queries.len() == 0 {
        assert(b.flatten() =~= queries);
    } else if queries.len() <= width {
        assert(b.drop_first() =~= Seq::<Seq<DependencyView>>::empty());
        assert(b.drop_first().flatten() =~= Seq::<DependencyView>::empty());
        assert(b.flatten() =~= queries);
    } else {
        let rest = batches_of(queries.skip(width as int), width);
        lemma_batches(queries.skip(width as int), width);
        assert(b.drop_first() =~= rest);
        assert(b.first() == queries.take(width as int));
        assert(b.flatten() =~= queries.take(width as int) + queries.skip(width as int));
        assert(queries.take(width as int) + queries.skip(width as int) =~= queries);
        assert forall|i: int| 0 <= i < b.len() implies 1 <= (#[trigger] b[i]).len() <= width by {
            if i > 0 {
                assert(b[i] == rest[i - 1]);
            }
        }
    }
}

/// Cuts the pending queries into the batches in which they are made: the
/// queries of one batch are under way at once, and a batch holds no more
/// queries than the configuration allows.
pub fn query_batches(pending: &Vec<Dependency>, config: &DepScannerConfig) -> (batches: Vec<
    Vec<Dependency>,
>)
    ensures
        batches.deep_view() == batches_of(
            pending.deep_view(),
            batch_width(config.max_concurrent_requests),
        ),
{
    let width: usize = if config.max_concurrent_requests == 0 {
        1
    } else {
        config.max_concurrent_requests
    };
    let ghost all = pending.deep_view();
    let ghost w = width as nat;
    let mut batches: Vec<Vec<Dependency>> = Vec::new();
    let mut start: usize = 0;
    assert(all.skip(0) =~= all);
    assert(batches.deep_view() =~= Seq::<Seq<DependencyView>>::empty());
    while start < pending.len()
        invariant
            start <= pending.len(),
            width >= 1,
            w == width as nat,
            all == pending.deep_view(),
            batches_of(all, w) == batches.deep_view() + batches_of(all.skip(start as int), w),
        decreases pending.len() - start,
    {
        let end: usize = if pending.len() - start <= width {
            pending.len()
        } else {
            start + width
        };
        let mut batch: Vec<Dependency> = Vec::new();
        let mut i: usize = start;
        while i < end
            invariant
                start <= i <= end <= pending.len(),
                all == pending.deep_view(),
                batch.len() == i - start,
                forall|j: int| 0 <= j < batch.len() ==> batch@[j]@ == all[start + j],
            decreases end - i,
        {
            assert(all[i as int] == pending@[i as int]@);
            batch.push(pending[i].clone());
            i += 1;
        }
        proof {
            let rest = all.skip(start as int);
            assert(batch.deep_view() =~= rest.take(end - start));
            if end == pending.len() {
                assert(rest.take(end - start) =~= rest);
                assert(batches_of(rest, w) =~= seq![rest]);
                assert(all.skip(end as int).len() == 0);
            } else {
                assert(rest.skip(w as int) =~= all.skip(end as int));
            }
        }
        let ghost before = batches.deep_view();
        batches.push(batch);
        assert(batches.deep_view() =~= before.push(batch.deep_view()));
        start = end;
    }
    batches
}

/// Scanning the same lockfiles again, against the same answers, reports
/// the same, whatever the order in which the files are listed.
pub proof fn lemma_scan_order_free(
    a: Seq<SourceFileView>,
    b: Seq<SourceFileView>,
    entries: Seq<CacheEntryView>,
)
    requires
        a.to_multiset() == b.to_multiset(),
    ensures
        directory_results(a, entries).to_multiset() == directory_results(b, entries).to_multiset(),
{
    lemma_flat_map_of_permutation(a, b, file_results(entries));
}

/// The vulnerability that an advisory of the vulnerability source
/// describes. Its severity is the one that the label of the advisory names,
/// and `Info` where it names none. Its description is the summary of the
/// advisory, or the details where there is no summary. It is fixed in the
/// first of the fixed versions that the advisory lists.
pub open spec fn advisory(
    id: Seq<char>,
    package: Seq<char>,
    version: Seq<char>,
    label: Seq<char>,
    summary: Seq<char>,
    details: Seq<char>,
    fixed: Seq<Seq<char>>,
    references: Seq<Seq<char>>,
) -> VulnerabilityView {
    VulnerabilityView {
        id,
        package,
        version,
        severity: match severity_named(fold_case(label)) {
            Some(s) => s,
            None => Severity::Info,
        },
        description: if summary.len() > 0 {
            summary
        } else {
            details
        },
        fixed_in: if fixed.len() > 0 {
            Some(fixed[0])
        } else {
            None
        },
        references,
    }
}

/// Makes a vulnerability of the parts of an advisory of the vulnerability
/// source.
pub fn vulnerability_from_advisory(
    id: &str,
    package: &str,
    version: &str,
    label: &str,
    summary: &str,
    details: &str,
    fixed: &Vec<String>,
    references: Vec<String>,
) -> (v: Vulnerability)
    ensures
        v@ == advisory(
            id@,
            package@,
            version@,
            label@,
            summary@,
            details@,
            fixed.deep_view(),
            references.deep_view(),
        ),
{
    let severity = match Severity::parse(label) {
        Some(s) => s,
        None => Severity::Info,
    };
    let description = if summary.is_empty() {
        details.to_owned()
    } else {
        summary.to_owned()
    };
    let fixed_in = if fixed.len() > 0 {
        assert(fixed.deep_view()[0] == fixed@[0]@);
        Some(fixed[0].clone())
    } else {
        None
    };
    Vulnerability {
        id: id.to_owned(),
        package: package.to_owned(),
        version: version.to_owned(),
        severity,
        description,
        fixed_in,
        references,
    }
}

} // verus!
