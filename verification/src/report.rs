//! The report aggregator: the findings of all scanners are filtered,
//! grouped, sorted and capped, in that order, and counted.

use crate::arrange::at_level;
use crate::arrange::group_issues;
use crate::arrange::grouped;
use crate::arrange::in_order;
use crate::arrange::lemma_at_level_push;
use crate::arrange::lemma_grouped_is_permutation;
use crate::arrange::lemma_sorted_is_ordered;
use crate::arrange::lemma_sorted_is_permutation;
use crate::arrange::sort_issues;
use crate::arrange::sorted;
use crate::config::OutputFormat;
use crate::model::clone_issues;
use crate::model::Issue;
use crate::model::IssueView;
use crate::outside::compile_pattern;
use crate::outside::first_match;
use crate::outside::first_match_of;
use crate::outside::pattern_compiles;
use crate::outside::regex_source;
use crate::sequences::lemma_flat_map_step;
use crate::severity::Severity;
use crate::tally::count_names;
use crate::tally::presence;
use crate::tally::tally;
use crate::tally::NamedCount;
use crate::tally::NamedCountView;
use vstd::prelude::*;

verus! {

/// The key by which the findings of a report are put together.
#[derive(Debug, Clone, Copy, PartialEq, Eq, Structural)]
pub enum GroupBy {
    Scanner,
    Severity,
    Category,
    File,
}

/// The key by which the findings of a report are ordered.
#[derive(Debug, Clone, Copy, PartialEq, Eq, Structural)]
pub enum SortBy {
    Severity,
    Category,
    File,
    Time,
}

/// Which findings a report keeps. A part that is `None` keeps all.
#[derive(Debug, PartialEq, Eq)]
pub struct FilterConfig {
    /// The severities that are kept.
    pub severity: Option<Vec<Severity>>,
    /// The categories that are kept.
    pub category: Option<Vec<String>>,
    /// The scanners whose findings are kept.
    pub scanner: Option<Vec<String>>,
    /// A regex that the path of a finding's file must match.
    pub file_pattern: Option<String>,
    /// The least severity that is kept.
    pub min_severity: Option<Severity>,
    /// The number of findings after which the report is cut off.
    pub max_issues: Option<usize>,
}

/// What a `FilterConfig` holds, with its texts as sequences of characters.
pub struct FilterView {
    pub severity: Option<Seq<Severity>>,
    pub category: Option<Seq<Seq<char>>>,
    pub scanner: Option<Seq<Seq<char>>>,
    pub file_pattern: Option<Seq<char>>,
    pub min_severity: Option<Severity>,
    pub max_issues: Option<usize>,
}

impl View for FilterConfig {
    type V = FilterView;

    open spec fn view(&self) -> FilterView {
        FilterView {
            severity: match self.severity {
                Some(v) => Some(v@),
                None => None,
            },
            category: self.category.deep_view(),
            scanner: self.scanner.deep_view(),
            file_pattern: self.file_pattern.deep_view(),
            min_severity: self.min_severity,
            max_issues: self.max_issues,
        }
    }
}

impl FilterConfig {
    /// A filter that keeps every finding.
    pub fn keep_all() -> (f: FilterConfig)
        ensures
            f@ == (FilterView {
                severity: None,
                category: None,
                scanner: None,
                file_pattern: None,
                min_severity: None,
                max_issues: None,
            }),
    {
        FilterConfig {
            severity: None,
            category: None,
            scanner: None,
            file_pattern: None,
            min_severity: None,
            max_issues: None,
        }
    }
}

/// How a report is made.
#[derive(Debug, PartialEq, Eq)]
pub struct ReportConfig {
    pub output_format: OutputFormat,
    pub include_details: bool,
    pub include_statistics: bool,
    pub include_metadata: bool,
    pub show_severity: bool,
    pub show_location: bool,
    pub show_fixes: bool,
    pub group_by: Option<GroupBy>,
    pub sort_by: Option<SortBy>,
    pub filter: Option<FilterConfig>,
}

impl ReportConfig {
    /// A configuration for the given format that shows everything and
    /// neither filters, groups nor sorts.
    pub fn plain(output_format: OutputFormat) -> (c: ReportConfig)
        ensures
            c.output_format == output_format,
            c.group_by is None,
            c.sort_by is None,
            c.filter is None,
            c.include_details && c.include_statistics && c.include_metadata,
            c.show_severity && c.show_location && c.show_fixes,
    {
        ReportConfig {
            output_format,
            include_details: true,
            include_statistics: true,
            include_metadata: true,
            show_severity: true,
            show_location: true,
            show_fixes: true,
            group_by: None,
            sort_by: None,
            filter: None,
        }
    }
}

/// Why a report could not be made.
#[derive(Debug, PartialEq, Eq)]
pub enum ReportError {
    FormatError(String),
    InvalidFormat(String),
    WriteError(String),
    FilterError(String),
    GroupError(String),
    SortError(String),
}

impl ReportError {
    /// What precedes the detail in the message of an error.
    pub open spec fn prefix(self) -> Seq<char> {
        match self {
            ReportError::FormatError(_) => "Failed to format report: "@,
            ReportError::InvalidFormat(_) => "Invalid output format: "@,
            ReportError::WriteError(_) => "Failed to write report: "@,
            ReportError::FilterError(_) => "Invalid filter configuration: "@,
            ReportError::GroupError(_) => "Invalid grouping configuration: "@,
            ReportError::SortError(_) => "Invalid sorting configuration: "@,
        }
    }

    /// The detail an error carries.
    pub open spec fn detail(self) -> Seq<char> {
        match self {
            ReportError::FormatError(d) => d@,
            ReportError::InvalidFormat(d) => d@,
            ReportError::WriteError(d) => d@,
            ReportError::FilterError(d) => d@,
            ReportError::GroupError(d) => d@,
            ReportError::SortError(d) => d@,
        }
    }

    /// The message of this error.
    pub fn message(&self) -> (m: String)
        ensures
            m@ == self.prefix() + self.detail(),
    {
        match self {
            ReportError::FormatError(d) => "Failed to format report: ".to_owned().concat(
                d.as_str(),
            ),
            ReportError::InvalidFormat(d) => "Invalid output format: ".to_owned().concat(
                d.as_str(),
            ),
            ReportError::WriteError(d) => "Failed to write report: ".to_owned().concat(d.as_str()),
            ReportError::FilterError(d) => "Invalid filter configuration: ".to_owned().concat(
                d.as_str(),
            ),
            ReportError::GroupError(d) => "Invalid grouping configuration: ".to_owned().concat(
                d.as_str(),
            ),
            ReportError::SortError(d) => "Invalid sorting configuration: ".to_owned().concat(
                d.as_str(),
            ),
        }
    }
}

/// Whether a filter keeps a finding: each part of the filter that is set
/// must allow it. The file pattern is searched in the path of the finding's
/// file, which is empty for a finding without location.
pub open spec fn passes(issue: IssueView, filter: FilterView) -> bool {
    &&& (filter.severity matches Some(allowed) ==> allowed.contains(issue.severity))
    &&& (filter.category matches Some(allowed) ==> allowed.contains(issue.category))
    &&& (filter.scanner matches Some(allowed) ==> allowed.contains(issue.scanner))
    &&& (filter.file_pattern matches Some(pattern) ==> first_match_of(pattern, issue.file())
        is Some)
    &&& (filter.min_severity matches Some(floor) ==> issue.severity.meets(floor))
}

/// The findings that a filter keeps, in their order.
pub open spec fn filtered(issues: Seq<IssueView>, filter: FilterView) -> Seq<IssueView> {
    issues.filter(|i: IssueView| passes(i, filter))
}

/// Whether the file pattern of a filter, if it has one, compiles.
pub open spec fn filter_valid(filter: FilterView) -> bool {
    filter.file_pattern matches Some(pattern) ==> pattern_compiles(pattern)
}

fn contains_severity(list: &Vec<Severity>, s: Severity) -> (b: bool)
    ensures
        b == list@.contains(s),
{
    let mut i: usize = 0;
    while i < list.len()
        invariant
            i <= list.len(),
            forall|j: int| 0 <= j < i ==> list@[j] != s,
        decreases list.len() - i,
    {
        if list[i] == s {
            return true;
        }
        i += 1;
    }
    false
}

pub(crate) fn contains_text(list: &Vec<String>, s: &String) -> (b: bool)
    ensures
        b == list.deep_view().contains(s@),
{
    let mut i: usize = 0;
    while i < list.len()
        invariant
            i <= list.len(),
            forall|j: int| 0 <= j < i ==> list.deep_view()[j] != s@,
        decreases list.len() - i,
    {
        if list[i] == *s {
            assert(list.deep_view()[i as int] == s@);
            return true;
        }
        i += 1;
    }
    false
}

fn file_matches(issue: &Issue, re: &regex::Regex) -> (b: bool)
    ensures
        b == (first_match_of(regex_source(*re), issue@.file()) is Some),
{
    match &issue.location {
        Some(l) => first_match(re, l.path.as_str()).is_some(),
        None => {
            proof {
                reveal_strlit("");
            }
            assert(""@ =~= Seq::<char>::empty());
            first_match(re, "").is_some()
        },
    }
}

fn keeps(issue: &Issue, filter: &FilterConfig, file_re: &Option<regex::Regex>) -> (b: bool)
    requires
        filter.file_pattern is Some <==> file_re is Some,
        file_re is Some ==> regex_source(file_re->0) == filter.file_pattern->0@,
    ensures
        b == passes(issue@, filter@),
{
    if let Some(allowed) = &filter.severity {
        if !contains_severity(allowed, issue.severity) {
            return false;
        }
    }
    if let Some(allowed) = &filter.category {
        if !contains_text(allowed, &issue.category) {
            return false;
        }
    }
    if let Some(allowed) = &filter.scanner {
        if !contains_text(allowed, &issue.scanner) {
            return false;
        }
    }
    if let Some(re) = file_re {
        if !file_matches(issue, re) {
            return false;
        }
    }
    if let Some(floor) = filter.min_severity {
        if !issue.severity.at_least(floor) {
            return false;
        }
    }
    true
}

/// Drops the findings that a filter does not keep; the others stay in
/// their order.
///
/// The result is an error exactly when the filter has a file pattern that
/// does not compile; the error carries the pattern.
pub fn apply_filter(issues: &Vec<Issue>, filter: &FilterConfig) -> (r: Result<
    Vec<Issue>,
    ReportError,
>)
    ensures
        filter_valid(filter@) ==> (r matches Ok(kept) && kept.deep_view() == filtered(
            issues.deep_view(),
            filter@,
        )),
        !filter_valid(filter@) ==> (r matches Err(ReportError::FilterError(p)) && Some(p@)
            == filter@.file_pattern),
{
    let file_re: Option<regex::Regex> = match &filter.file_pattern {
        Some(pattern) => match compile_pattern(pattern.as_str()) {
            Ok(re) => Some(re),
            Err(_) => {
                return Err(ReportError::FilterError(pattern.clone()));
            },
        },
        None => None,
    };
    let ghost s = issues.deep_view();
    let ghost pred = |i: IssueView| passes(i, filter@);
    let mut kept: Vec<Issue> = Vec::new();
    let mut k: usize = 0;
    proof {
        reveal(Seq::filter);
        assert(s.take(0).filter(pred) =~= Seq::<IssueView>::empty());
        assert(kept.deep_view() =~= Seq::<IssueView>::empty());
    }
    while k < issues.len()
        invariant
            k <= issues.len(),
            s == issues.deep_view(),
            pred == (|i: IssueView| passes(i, filter@)),
            filter.file_pattern is Some <==> file_re is Some,
            file_re is Some ==> regex_source(file_re->0) == filter.file_pattern->0@,
            kept.deep_view() == s.take(k as int).filter(pred),
        decreases issues.len() - k,
    {
        let issue = &issues[k];
        proof {
            assert(s[k as int] == issue@);
            assert(s.take(k + 1) =~= s.take(k as int).push(issue@));
            s.take(k as int).lemma_filter_push(issue@, pred);
        }
        if keeps(issue, filter, &file_re) {
            let ghost before = kept.deep_view();
            kept.push(issue.clone());
            assert(kept.deep_view() =~= before.push(issue@));
        }
        k += 1;
    }
    assert(s.take(k as int) =~= s);
    Ok(kept)
}

/// One entry of the metadata of a scan: a key and a value, both as text.
#[derive(Debug, PartialEq, Eq)]
pub struct MetadataEntry {
    pub key: String,
    pub value: String,
}

/// What a `MetadataEntry` holds, with its texts as sequences of characters.
pub struct MetadataEntryView {
    pub key: Seq<char>,
    pub value: Seq<char>,
}

impl View for MetadataEntry {
    type V = MetadataEntryView;

    open spec fn view(&self) -> MetadataEntryView {
        MetadataEntryView { key: self.key@, value: self.value@ }
    }
}

impl DeepView for MetadataEntry {
    type V = MetadataEntryView;

    open spec fn deep_view(&self) -> MetadataEntryView {
        self@
    }
}

/// What one scanner found on one target.
#[derive(Debug, PartialEq, Eq)]
pub struct ScanResult {
    pub scanner: String,
    pub target: String,
    pub issues: Vec<Issue>,
    pub metadata: Vec<MetadataEntry>,
    pub scan_time: String,
}

/// What a `ScanResult` holds, with its texts as sequences of characters.
pub struct ScanResultView {
    pub scanner: Seq<char>,
    pub target: Seq<char>,
    pub issues: Seq<IssueView>,
    pub metadata: Seq<MetadataEntryView>,
    pub scan_time: Seq<char>,
}

impl View for ScanResult {
    type V = ScanResultView;

    open spec fn view(&self) -> ScanResultView {
        ScanResultView {
            scanner: self.scanner@,
            target: self.target@,
            issues: self.issues.deep_view(),
            metadata: self.metadata.deep_view(),
            scan_time: self.scan_time@,
        }
    }
}

impl DeepView for ScanResult {
    type V = ScanResultView;

    open spec fn deep_view(&self) -> ScanResultView {
        self@
    }
}

/// The number of findings of each severity.
#[derive(Debug, Clone, Copy, PartialEq, Eq, Structural)]
pub struct SeverityCounts {
    pub critical: usize,
    pub high: usize,
    pub medium: usize,
    pub low: usize,
    pub info: usize,
}

/// What a `SeverityCounts` holds, as natural numbers.
pub struct SeverityCountsView {
    pub critical: nat,
    pub high: nat,
    pub medium: nat,
    pub low: nat,
    pub info: nat,
}

impl View for SeverityCounts {
    type V = SeverityCountsView;

    open spec fn view(&self) -> SeverityCountsView {
        SeverityCountsView {
            critical: self.critical as nat,
            high: self.high as nat,
            medium: self.medium as nat,
            low: self.low as nat,
            info: self.info as nat,
        }
    }
}

impl SeverityCounts {
    /// The number of findings of one severity.
    pub fn get(&self, severity: Severity) -> (n: usize)
        ensures
            n == match severity {
                Severity::Critical => self.critical,
                Severity::High => self.high,
                Severity::Medium => self.medium,
                Severity::Low => self.low,
                Severity::Info => self.info,
            },
    {
        match severity {
            Severity::Critical => self.critical,
            Severity::High => self.high,
            Severity::Medium => self.medium,
            Severity::Low => self.low,
            Severity::Info => self.info,
        }
    }
}

/// The counts of a report.
#[derive(Debug, PartialEq, Eq)]
pub struct Statistics {
    pub total_scans: usize,
    pub total_issues: usize,
    /// Each scanner that ran, once, with the number 1.
    pub scanners: Vec<NamedCount>,
    pub issues_by_severity: SeverityCounts,
    /// Each category that occurs, with the number of its findings.
    pub issues_by_category: Vec<NamedCount>,
}

/// What a `Statistics` holds, with its texts as sequences of characters.
pub struct StatisticsView {
    pub total_scans: nat,
    pub total_issues: nat,
    pub scanners: Seq<NamedCountView>,
    pub issues_by_severity: SeverityCountsView,
    pub issues_by_category: Seq<NamedCountView>,
}

impl View for Statistics {
    type V = StatisticsView;

    open spec fn view(&self) -> StatisticsView {
        StatisticsView {
            total_scans: self.total_scans as nat,
            total_issues: self.total_issues as nat,
            scanners: self.scanners.deep_view(),
            issues_by_severity: self.issues_by_severity@,
            issues_by_category: self.issues_by_category.deep_view(),
        }
    }
}

impl Statistics {
    /// The statistics of nothing.
    pub fn new() -> (s: Statistics)
        ensures
            s@ == (StatisticsView {
                total_scans: 0,
                total_issues: 0,
                scanners: Seq::empty(),
                issues_by_severity: SeverityCountsView {
                    critical: 0,
                    high: 0,
                    medium: 0,
                    low: 0,
                    info: 0,
                },
                issues_by_category: Seq::empty(),
            }),
    {
        let s = Statistics {
            total_scans: 0,
            total_issues: 0,
            scanners: Vec::new(),
            issues_by_severity: SeverityCounts { critical: 0, high: 0, medium: 0, low: 0, info: 0 },
            issues_by_category: Vec::new(),
        };
        assert(s.scanners.deep_view() =~= Seq::<NamedCountView>::empty());
        assert(s.issues_by_category.deep_view() =~= Seq::<NamedCountView>::empty());
        s
    }
}

/// The categories of a list of findings, finding by finding.
pub open spec fn categories_of(issues: Seq<IssueView>) -> Seq<Seq<char>> {
    issues.map_values(|i: IssueView| i.category)
}

/// The number of findings of each severity in a list.
pub open spec fn severity_counts_of(issues: Seq<IssueView>) -> SeverityCountsView {
    SeverityCountsView {
        critical: at_level(issues, 4).len(),
        high: at_level(issues, 3).len(),
        medium: at_level(issues, 2).len(),
        low: at_level(issues, 1).len(),
        info: at_level(issues, 0).len(),
    }
}

/// The statistics of a list of findings that came out of the scans of the
/// scanners named: the number of scans and of findings, each scanner once,
/// and the findings counted by severity and by category.
pub open spec fn statistics_of(scanners: Seq<Seq<char>>, issues: Seq<IssueView>) -> StatisticsView {
    StatisticsView {
        total_scans: scanners.len(),
        total_issues: issues.len(),
        scanners: presence(scanners),
        issues_by_severity: severity_counts_of(issues),
        issues_by_category: tally(categories_of(issues)),
    }
}

fn count_severities(issues: &Vec<Issue>) -> (c: SeverityCounts)
    ensures
        c@ == severity_counts_of(issues.deep_view()),
{
    let ghost s = issues.deep_view();
    let mut c = SeverityCounts { critical: 0, high: 0, medium: 0, low: 0, info: 0 };
    let mut k: usize = 0;
    proof {
        reveal(Seq::filter);
        assert(s.take(0) =~= Seq::<IssueView>::empty());
    }
    while k < issues.len()
        invariant
            k <= issues.len(),
            s == issues.deep_view(),
            c@ == severity_counts_of(s.take(k as int)),
            c.critical + c.high + c.medium + c.low + c.info == k,
        decreases issues.len() - k,
    {
        let issue = &issues[k];
        proof {
            assert(s[k as int] == issue@);
            assert(s.take(k + 1) =~= s.take(k as int).push(issue@));
            lemma_at_level_push(s.take(k as int), issue@, 4);
            lemma_at_level_push(s.take(k as int), issue@, 3);
            lemma_at_level_push(s.take(k as int), issue@, 2);
            lemma_at_level_push(s.take(k as int), issue@, 1);
            lemma_at_level_push(s.take(k as int), issue@, 0);
        }
        match issue.severity {
            Severity::Critical => {
                c.critical = c.critical + 1;
            },
            Severity::High => {
                c.high = c.high + 1;
            },
            Severity::Medium => {
                c.medium = c.medium + 1;
            },
            Severity::Low => {
                c.low = c.low + 1;
            },
            Severity::Info => {
                c.info = c.info + 1;
            },
        }
        k += 1;
    }
    assert(s.take(k as int) =~= s);
    c
}

fn category_names(issues: &Vec<Issue>) -> (names: Vec<String>)
    ensures
        names.deep_view() == categories_of(issues.deep_view()),
{
    let mut names: Vec<String> = Vec::new();
    let mut k: usize = 0;
    while k < issues.len()
        invariant
            k <= issues.len(),
            names.len() == k,
            forall|j: int| 0 <= j < k ==> names@[j]@ == issues@[j]@.category,
        decreases issues.len() - k,
    {
        names.push(issues[k].category.clone());
        k += 1;
    }
    assert(names.deep_view() =~= categories_of(issues.deep_view()));
    names
}

/// Counts a list of findings that came out of the scans of the scanners
/// named.
pub fn compute_statistics(scanners: &Vec<String>, issues: &Vec<Issue>) -> (stats: Statistics)
    ensures
        stats@ == statistics_of(scanners.deep_view(), issues.deep_view()),
{
    let categories = category_names(issues);
    Statistics {
        total_scans: scanners.len(),
        total_issues: issues.len(),
        scanners: count_names(scanners, false),
        issues_by_severity: count_severities(issues),
        issues_by_category: count_names(&categories, true),
    }
}

/// The findings of a scan.
pub open spec fn issues_in() -> spec_fn(ScanResultView) -> Seq<IssueView> {
    |r: ScanResultView| r.issues
}

/// The findings of all scans, scan by scan.
pub open spec fn all_issues(results: Seq<ScanResultView>) -> Seq<IssueView> {
    results.flat_map(issues_in())
}

/// The scanner of each scan.
pub open spec fn scanners_of(results: Seq<ScanResultView>) -> Seq<Seq<char>> {
    results.map_values(|r: ScanResultView| r.scanner)
}

/// Copies out the findings of all scans, scan by scan.
pub fn collect_issues(results: &Vec<ScanResult>) -> (issues: Vec<Issue>)
    ensures
        issues.deep_view() == all_issues(results.deep_view()),
{
    let ghost all = results.deep_view();
    let mut issues: Vec<Issue> = Vec::new();
    let mut k: usize = 0;
    proof {
        assert(all.take(0).map_values(issues_in()) =~= Seq::<Seq<IssueView>>::empty());
        assert(issues.deep_view() =~= all.take(0).flat_map(issues_in()));
    }
    while k < results.len()
        invariant
            k <= results.len(),
            all == results.deep_view(),
            issues.deep_view() == all.take(k as int).flat_map(issues_in()),
        decreases results.len() - k,
    {
        let mut found = clone_issues(&results[k].issues);
        proof {
            assert(all[k as int] == results@[k as int]@);
            lemma_flat_map_step(all, issues_in(), k as int);
        }
        let ghost before = issues.deep_view();
        let ghost added = found.deep_view();
        issues.append(&mut found);
        assert(issues.deep_view() =~= before + added);
        k += 1;
    }
    assert(all.take(k as int) =~= all);
    issues
}

fn scanner_names(results: &Vec<ScanResult>) -> (names: Vec<String>)
    ensures
        names.deep_view() == scanners_of(results.deep_view()),
{
    let mut names: Vec<String> = Vec::new();
    let mut k: usize = 0;
    while k < results.len()
        invariant
            k <= results.len(),
            names.len() == k,
            forall|j: int| 0 <= j < k ==> names@[j]@ == results@[j]@.scanner,
        decreases results.len() - k,
    {
        names.push(results[k].scanner.clone());
        k += 1;
    }
    assert(names.deep_view() =~= scanners_of(results.deep_view()));
    names
}

/// Counts the scans and their findings: the number of scans, each scanner
/// once, and all findings counted by severity and by category.
pub fn generate_statistics(results: &Vec<ScanResult>) -> (stats: Statistics)
    ensures
        stats@ == statistics_of(
            scanners_of(results.deep_view()),
            all_issues(results.deep_view()),
        ),
{
    let issues = collect_issues(results);
    let names = scanner_names(results);
    compute_statistics(&names, &issues)
}

/// The view of an optional filter.
pub open spec fn filter_view(filter: Option<FilterConfig>) -> Option<FilterView> {
    match filter {
        Some(f) => Some(f@),
        None => None,
    }
}

/// The first `limit` findings, or all where there are no more.
pub open spec fn capped(issues: Seq<IssueView>, limit: Option<usize>) -> Seq<IssueView> {
    match limit {
        Some(m) => if m < issues.len() {
            issues.take(m as int)
        } else {
            issues
        },
        None => issues,
    }
}

/// The findings of a report: filtered, then grouped, then sorted, then cut
/// off after the greatest number allowed. A step that the configuration
/// does not ask for leaves the list as it is.
pub open spec fn arranged(
    issues: Seq<IssueView>,
    filter: Option<FilterView>,
    group_by: Option<GroupBy>,
    sort_by: Option<SortBy>,
) -> Seq<IssueView> {
    let kept = match filter {
        Some(f) => filtered(issues, f),
        None => issues,
    };
    let put_together = match group_by {
        Some(g) => grouped(kept, g),
        None => kept,
    };
    let in_order = match sort_by {
        Some(b) => sorted(put_together, b),
        None => put_together,
    };
    match filter {
        Some(f) => capped(in_order, f.max_issues),
        None => in_order,
    }
}

/// Whether a configuration's filter, if it has one, can be applied.
pub open spec fn config_valid(filter: Option<FilterView>) -> bool {
    filter matches Some(f) ==> filter_valid(f)
}

/// A report: the findings in their final order, and their counts.
#[derive(Debug, PartialEq, Eq)]
pub struct Report {
    pub issues: Vec<Issue>,
    pub statistics: Statistics,
}

/// What a `Report` holds, with its texts as sequences of characters.
pub struct ReportView {
    pub issues: Seq<IssueView>,
    pub statistics: StatisticsView,
}

impl View for Report {
    type V = ReportView;

    open spec fn view(&self) -> ReportView {
        ReportView { issues: self.issues.deep_view(), statistics: self.statistics@ }
    }
}

/// Keeps the first `limit` findings.
pub fn cap_issues(issues: Vec<Issue>, limit: Option<usize>) -> (r: Vec<Issue>)
    ensures
        r.deep_view() == capped(issues.deep_view(), limit),
{
    match limit {
        Some(m) => {
            if m < issues.len() {
                let mut r = issues;
                r.truncate(m);
                assert(r.deep_view() =~= issues.deep_view().take(m as int));
                r
            } else {
                issues
            }
        },
        None => issues,
    }
}

/// Makes the report of a list of findings that came out of the scans of
/// the scanners named: the findings are filtered, grouped, sorted and cut
/// off, in that order, and what is left is counted.
///
/// The result is an error exactly when the filter has a file pattern that
/// does not compile; the error carries the pattern.
pub fn aggregate(issues: &Vec<Issue>, scanners: &Vec<String>, config: &ReportConfig) -> (r: Result<
    Report,
    ReportError,
>)
    ensures
        config_valid(filter_view(config.filter)) ==> (r matches Ok(report) && report@.issues
            == arranged(
            issues.deep_view(),
            filter_view(config.filter),
            config.group_by,
            config.sort_by,
        ) && report@.statistics == statistics_of(scanners.deep_view(), report@.issues)),
        !config_valid(filter_view(config.filter)) ==> (r matches Err(ReportError::FilterError(p))
            && Some(p@) == config.filter->0@.file_pattern),
{
    let kept = match &config.filter {
        Some(f) => match apply_filter(issues, f) {
            Ok(kept) => kept,
            Err(e) => {
                return Err(e);
            },
        },
        None => clone_issues(issues),
    };
    let put_together = match config.group_by {
        Some(g) => group_issues(&kept, g),
        None => kept,
    };
    let in_order = match config.sort_by {
        Some(b) => sort_issues(&put_together, b),
        None => put_together,
    };
    let limit = match &config.filter {
        Some(f) => f.max_issues,
        None => None,
    };
    let final_issues = cap_issues(in_order, limit);
    let statistics = compute_statistics(scanners, &final_issues);
    Ok(Report { issues: final_issues, statistics })
}

/// Whether reports in a format can be rendered: pretty, JSON and SARIF can.
pub open spec fn renderable(format: OutputFormat) -> bool {
    format == OutputFormat::Pretty || format == OutputFormat::Json || format == OutputFormat::Sarif
}

/// Makes the report of the results of all scans.
///
/// A format that cannot be rendered is refused with `InvalidFormat` and
/// its name. Otherwise the findings of all scans, scan by scan, are
/// aggregated as `aggregate` does, with one scanner name per scan.
pub fn generate_report(results: &Vec<ScanResult>, config: &ReportConfig) -> (r: Result<
    Report,
    ReportError,
>)
    ensures
        !renderable(config.output_format) ==> (r matches Err(ReportError::InvalidFormat(n)) && n@
            == config.output_format.name_text()),
        renderable(config.output_format) && !config_valid(filter_view(config.filter)) ==> (
        r matches Err(ReportError::FilterError(p)) && Some(p@) == config.filter->0@.file_pattern),
        renderable(config.output_format) && config_valid(filter_view(config.filter)) ==> (
        r matches Ok(report) && report@.issues == arranged(
            all_issues(results.deep_view()),
            filter_view(config.filter),
            config.group_by,
            config.sort_by,
        ) && report@.statistics == statistics_of(
            scanners_of(results.deep_view()),
            report@.issues,
        )),
{
    match config.output_format {
        OutputFormat::Pretty | OutputFormat::Json | OutputFormat::Sarif => {
            let issues = collect_issues(results);
            let names = scanner_names(results);
            aggregate(&issues, &names, config)
        },
        _ => Err(ReportError::InvalidFormat(config.output_format.name().to_owned())),
    }
}

/// A filter keeps only findings that pass it, each of them one of the
/// findings it was given. Under a least severity, every finding that is
/// kept is at least that severe.
pub proof fn lemma_filtered_passes(issues: Seq<IssueView>, filter: FilterView, i: int)
    requires
        0 <= i < filtered(issues, filter).len(),
    ensures
        passes(filtered(issues, filter)[i], filter),
        issues.contains(filtered(issues, filter)[i]),
        filter.min_severity matches Some(floor) ==> filtered(issues, filter)[i].severity.meets(
            floor,
        ),
{
    let pred = |x: IssueView| passes(x, filter);
    issues.lemma_filter_pred(pred, i);
    let kept = issues.filter(pred);
    assert(kept.contains(kept[i]));
    issues.lemma_filter_contains_rev(pred, kept[i]);
}

/// A filter keeps every finding that passes it.
pub proof fn lemma_filtered_complete(issues: Seq<IssueView>, filter: FilterView, j: int)
    requires
        0 <= j < issues.len(),
        passes(issues[j], filter),
    ensures
        filtered(issues, filter).contains(issues[j]),
        filtered(issues, filter).len() <= issues.len(),
{
    let pred = |x: IssueView| passes(x, filter);
    issues.lemma_filter_contains(pred, j);
    issues.lemma_filter_len(pred);
}

/// Every finding of a report is one of the findings that went in, and
/// passes the filter if there is one.
pub proof fn lemma_arranged_from_input(
    issues: Seq<IssueView>,
    filter: Option<FilterView>,
    group_by: Option<GroupBy>,
    sort_by: Option<SortBy>,
    x: IssueView,
)
    requires
        arranged(issues, filter, group_by, sort_by).contains(x),
    ensures
        issues.contains(x),
        filter matches Some(f) ==> passes(x, f),
{
    let kept = match filter {
        Some(f) => filtered(issues, f),
        None => issues,
    };
    let put_together = match group_by {
        Some(g) => grouped(kept, g),
        None => kept,
    };
    let in_order = match sort_by {
        Some(b) => sorted(put_together, b),
        None => put_together,
    };
    let last = arranged(issues, filter, group_by, sort_by);
    let i = choose|i: int| 0 <= i < last.len() && last[i] == x;
    assert(in_order[i] == x);
    assert(in_order.contains(x));
    vstd::seq_lib::to_multiset_contains(in_order, x);
    vstd::seq_lib::to_multiset_contains(put_together, x);
    vstd::seq_lib::to_multiset_contains(kept, x);
    if sort_by is Some {
        lemma_sorted_is_permutation(put_together, sort_by->0);
    }
    if group_by is Some {
        lemma_grouped_is_permutation(kept, group_by->0);
    }
    assert(kept.contains(x));
    if filter is Some {
        let j = choose|j: int| 0 <= j < kept.len() && kept[j] == x;
        lemma_filtered_passes(issues, filter->0, j);
    }
}

/// A report holds no more findings than the filter kept, and no more than
/// the greatest number allowed. Without such a number it holds exactly the
/// findings that the filter kept.
pub proof fn lemma_arranged_len(
    issues: Seq<IssueView>,
    filter: Option<FilterView>,
    group_by: Option<GroupBy>,
    sort_by: Option<SortBy>,
)
    ensures
        arranged(issues, filter, group_by, sort_by).len() <= issues.len(),
        filter matches Some(f) ==> arranged(issues, filter, group_by, sort_by).len() <= filtered(
            issues,
            f,
        ).len(),
        filter matches Some(f) ==> (f.max_issues matches Some(m) ==> arranged(
            issues,
            filter,
            group_by,
            sort_by,
        ).len() <= m),
        filter is None ==> arranged(issues, filter, group_by, sort_by).len() == issues.len(),
        filter matches Some(f) ==> (f.max_issues is None ==> arranged(
            issues,
            filter,
            group_by,
            sort_by,
        ).len() == filtered(issues, f).len()),
{
    let kept = match filter {
        Some(f) => filtered(issues, f),
        None => issues,
    };
    let put_together = match group_by {
        Some(g) => grouped(kept, g),
        None => kept,
    };
    if filter is Some {
        issues.lemma_filter_len(|x: IssueView| passes(x, filter->0));
    }
    if sort_by is Some {
        lemma_sorted_is_permutation(put_together, sort_by->0);
    }
    if group_by is Some {
        lemma_grouped_is_permutation(kept, group_by->0);
    }
}

/// A report that is sorted is in order, also where it was cut off: of any
/// two of its findings, the earlier may stand before the later. Sorted by
/// severity, no finding is followed by a more severe one.
pub proof fn lemma_arranged_in_order(
    issues: Seq<IssueView>,
    filter: Option<FilterView>,
    group_by: Option<GroupBy>,
    by: SortBy,
    a: int,
    b: int,
)
    requires
        0 <= a < b < arranged(issues, filter, group_by, Some(by)).len(),
    ensures
        in_order(
            arranged(issues, filter, group_by, Some(by))[a],
            arranged(issues, filter, group_by, Some(by))[b],
            by,
        ),
{
    let kept = match filter {
        Some(f) => filtered(issues, f),
        None => issues,
    };
    let put_together = match group_by {
        Some(g) => grouped(kept, g),
        None => kept,
    };
    lemma_sorted_is_ordered(put_together, by, a, b);
}

} // verus!
