use rustguard::arrange::group_issues;
use rustguard::arrange::sort_issues;
use rustguard::config::OutputFormat;
use rustguard::model::Issue;
use rustguard::model::Location;
use rustguard::report::aggregate;
use rustguard::report::apply_filter;
use rustguard::report::cap_issues;
use rustguard::report::collect_issues;
use rustguard::report::compute_statistics;
use rustguard::report::generate_report;
use rustguard::report::generate_statistics;
use rustguard::report::FilterConfig;
use rustguard::report::GroupBy;
use rustguard::report::ReportConfig;
use rustguard::report::ReportError;
use rustguard::report::ScanResult;
use rustguard::report::SortBy;
use rustguard::report::Statistics;
use rustguard::severity::Severity;
use rustguard::tally::count_names;
use rustguard::tally::count_of;
use rustguard::tally::NamedCount;

fn issue(id: &str, scanner: &str, category: &str, severity: Severity, path: &str) -> Issue {
    Issue {
        id: id.to_string(),
        scanner: scanner.to_string(),
        category: category.to_string(),
        severity,
        description: format!("finding {}", id),
        location: Location::new(path, Some(1), None),
        fix: None,
        references: vec![],
    }
}

fn ids(issues: &Vec<Issue>) -> Vec<String> {
    issues.iter().map(|i| i.id.clone()).collect()
}

fn five() -> Vec<Issue> {
    vec![
        issue("low", "secrets", "secret", Severity::Low, "a.yml"),
        issue("crit", "deps", "vulnerability", Severity::Critical, "Cargo.lock"),
        issue("info", "config", "misconfig", Severity::Info, "b.tf"),
        issue("high", "image", "vulnerability", Severity::High, ""),
        issue("med", "config", "misconfig", Severity::Medium, "a.yml"),
    ]
}

fn scanners() -> Vec<String> {
    vec!["deps".to_string(), "secrets".to_string()]
}

#[test]
fn min_severity_high_sorted_by_severity() {
    let mut config = ReportConfig::plain(OutputFormat::Json);
    let mut filter = FilterConfig::keep_all();
    filter.min_severity = Some(Severity::High);
    config.filter = Some(filter);
    config.sort_by = Some(SortBy::Severity);
    let report = aggregate(&five(), &scanners(), &config).unwrap();
    assert_eq!(ids(&report.issues), vec!["crit", "high"]);
    assert_eq!(report.issues[0].severity, Severity::Critical);
    assert_eq!(report.issues[1].severity, Severity::High);
    assert_eq!(report.statistics.total_issues, 2);
    assert_eq!(report.statistics.issues_by_severity.critical, 1);
    assert_eq!(report.statistics.issues_by_severity.high, 1);
    assert_eq!(report.statistics.issues_by_severity.medium, 0);
}

#[test]
fn filter_by_severity_list() {
    let mut f = FilterConfig::keep_all();
    f.severity = Some(vec![Severity::Info, Severity::Critical]);
    assert_eq!(ids(&apply_filter(&five(), &f).unwrap()), vec!["crit", "info"]);
    f.severity = Some(vec![]);
    assert_eq!(apply_filter(&five(), &f).unwrap().len(), 0);
}

#[test]
fn filter_by_category_and_scanner() {
    let mut f = FilterConfig::keep_all();
    f.category = Some(vec!["misconfig".to_string()]);
    assert_eq!(ids(&apply_filter(&five(), &f).unwrap()), vec!["info", "med"]);
    f.scanner = Some(vec!["image".to_string(), "config".to_string()]);
    assert_eq!(ids(&apply_filter(&five(), &f).unwrap()), vec!["info", "med"]);
    f.category = None;
    assert_eq!(ids(&apply_filter(&five(), &f).unwrap()), vec!["info", "high", "med"]);
}

#[test]
fn filter_by_file_pattern() {
    let mut f = FilterConfig::keep_all();
    f.file_pattern = Some(r"\.ya?ml$".to_string());
    assert_eq!(ids(&apply_filter(&five(), &f).unwrap()), vec!["low", "med"]);
    f.file_pattern = Some("^$".to_string());
    assert_eq!(ids(&apply_filter(&five(), &f).unwrap()), vec!["high"]);
}

#[test]
fn filter_with_invalid_pattern_is_an_error() {
    let mut f = FilterConfig::keep_all();
    f.file_pattern = Some("(unclosed".to_string());
    let e = apply_filter(&five(), &f).unwrap_err();
    assert_eq!(e, ReportError::FilterError("(unclosed".to_string()));
    assert_eq!(e.message(), "Invalid filter configuration: (unclosed");
    let mut config = ReportConfig::plain(OutputFormat::Pretty);
    config.filter = Some(f);
    assert_eq!(
        aggregate(&five(), &scanners(), &config),
        Err(ReportError::FilterError("(unclosed".to_string()))
    );
}

#[test]
fn filter_keep_all_keeps_all_in_order() {
    let kept = apply_filter(&five(), &FilterConfig::keep_all()).unwrap();
    assert_eq!(kept, five());
}

#[test]
fn filter_parts_combine() {
    let mut f = FilterConfig::keep_all();
    f.min_severity = Some(Severity::Medium);
    f.category = Some(vec!["vulnerability".to_string(), "misconfig".to_string()]);
    f.scanner = Some(vec!["config".to_string(), "deps".to_string()]);
    assert_eq!(ids(&apply_filter(&five(), &f).unwrap()), vec!["crit", "med"]);
}

#[test]
fn sort_by_severity_is_stable() {
    let issues = vec![
        issue("m1", "s", "c", Severity::Medium, "x"),
        issue("h1", "s", "c", Severity::High, "x"),
        issue("m2", "s", "c", Severity::Medium, "x"),
        issue("c1", "s", "c", Severity::Critical, "x"),
        issue("h2", "s", "c", Severity::High, "x"),
        issue("i1", "s", "c", Severity::Info, "x"),
        issue("l1", "s", "c", Severity::Low, "x"),
        issue("m3", "s", "c", Severity::Medium, "x"),
    ];
    let sorted = sort_issues(&issues, SortBy::Severity);
    assert_eq!(
        ids(&sorted),
        vec!["c1", "h1", "h2", "m1", "m2", "m3", "l1", "i1"]
    );
}

#[test]
fn sort_by_category_and_file() {
    let issues = vec![
        issue("1", "s", "pear", Severity::Low, "z/one"),
        issue("2", "s", "apple", Severity::Low, "a/two"),
        issue("3", "s", "pear", Severity::High, ""),
        issue("4", "s", "Apple", Severity::Low, "a/two"),
        issue("5", "s", "apple", Severity::Low, "a/one"),
    ];
    assert_eq!(
        ids(&sort_issues(&issues, SortBy::Category)),
        vec!["4", "2", "5", "1", "3"]
    );
    assert_eq!(
        ids(&sort_issues(&issues, SortBy::File)),
        vec!["3", "5", "2", "4", "1"]
    );
    assert_eq!(ids(&sort_issues(&issues, SortBy::Time)), vec!["1", "2", "3", "4", "5"]);
}

#[test]
fn sort_agrees_with_std_stable_sort() {
    let mut issues = Vec::new();
    let cats = ["b", "a", "c", "a", "b", "", "ab", "a", "c", "b"];
    for (n, c) in cats.iter().enumerate() {
        issues.push(issue(&format!("{}", n), "s", c, Severity::Low, c));
    }
    let mut expected = issues.clone();
    expected.sort_by(|x, y| x.category.cmp(&y.category));
    assert_eq!(sort_issues(&issues, SortBy::Category), expected);
    assert_eq!(sort_issues(&issues, SortBy::File), expected);
}

#[test]
fn sort_of_nothing() {
    let none: Vec<Issue> = vec![];
    assert_eq!(sort_issues(&none, SortBy::Severity).len(), 0);
    assert_eq!(sort_issues(&none, SortBy::Category).len(), 0);
    assert_eq!(group_issues(&none, GroupBy::File).len(), 0);
}

#[test]
fn group_keeps_first_seen_order() {
    let by_scanner = group_issues(&five(), GroupBy::Scanner);
    assert_eq!(ids(&by_scanner), vec!["low", "crit", "info", "med", "high"]);
    let by_category = group_issues(&five(), GroupBy::Category);
    assert_eq!(ids(&by_category), vec!["low", "crit", "high", "info", "med"]);
    let by_file = group_issues(&five(), GroupBy::File);
    assert_eq!(ids(&by_file), vec!["low", "med", "crit", "info", "high"]);
    let by_severity = group_issues(&five(), GroupBy::Severity);
    assert_eq!(ids(&by_severity), vec!["low", "crit", "info", "high", "med"]);
}

#[test]
fn cap_after_filter_and_sort() {
    let mut config = ReportConfig::plain(OutputFormat::Json);
    let mut filter = FilterConfig::keep_all();
    filter.max_issues = Some(3);
    config.filter = Some(filter);
    config.sort_by = Some(SortBy::Severity);
    let report = aggregate(&five(), &scanners(), &config).unwrap();
    assert_eq!(ids(&report.issues), vec!["crit", "high", "med"]);
    assert_eq!(report.statistics.total_issues, 3);
}

#[test]
fn cap_issues_limits() {
    assert_eq!(cap_issues(five(), Some(0)).len(), 0);
    assert_eq!(ids(&cap_issues(five(), Some(2))), vec!["low", "crit"]);
    assert_eq!(cap_issues(five(), Some(5)).len(), 5);
    assert_eq!(cap_issues(five(), Some(50)).len(), 5);
    assert_eq!(cap_issues(five(), None).len(), 5);
}

#[test]
fn group_then_sort_then_cap() {
    let mut config = ReportConfig::plain(OutputFormat::Pretty);
    config.group_by = Some(GroupBy::Category);
    config.sort_by = Some(SortBy::Category);
    let report = aggregate(&five(), &scanners(), &config).unwrap();
    assert_eq!(ids(&report.issues), vec!["info", "med", "low", "crit", "high"]);
}

#[test]
fn statistics_count_by_severity_and_category() {
    let stats = compute_statistics(&scanners(), &five());
    assert_eq!(stats.total_scans, 2);
    assert_eq!(stats.total_issues, 5);
    for s in [
        Severity::Critical,
        Severity::High,
        Severity::Medium,
        Severity::Low,
        Severity::Info,
    ] {
        assert_eq!(stats.issues_by_severity.get(s), 1);
    }
    assert_eq!(
        stats.issues_by_category,
        vec![
            NamedCount { name: "secret".to_string(), count: 1 },
            NamedCount { name: "vulnerability".to_string(), count: 2 },
            NamedCount { name: "misconfig".to_string(), count: 2 },
        ]
    );
    assert_eq!(count_of(&stats.issues_by_category, &"misconfig".to_string()), 2);
    assert_eq!(count_of(&stats.issues_by_category, &"absent".to_string()), 0);
}

#[test]
fn statistics_new_is_empty() {
    let s = Statistics::new();
    assert_eq!(s.total_scans, 0);
    assert_eq!(s.total_issues, 0);
    assert!(s.scanners.is_empty());
    assert!(s.issues_by_category.is_empty());
    assert_eq!(s.issues_by_severity.critical, 0);
    assert_eq!(s.issues_by_severity.info, 0);
}

#[test]
fn count_names_tallies_and_marks() {
    let names: Vec<String> = ["b", "a", "b", "c", "a", "b"].iter().map(|s| s.to_string()).collect();
    assert_eq!(
        count_names(&names, true),
        vec![
            NamedCount { name: "b".to_string(), count: 3 },
            NamedCount { name: "a".to_string(), count: 2 },
            NamedCount { name: "c".to_string(), count: 1 },
        ]
    );
    assert_eq!(
        count_names(&names, false),
        vec![
            NamedCount { name: "b".to_string(), count: 1 },
            NamedCount { name: "a".to_string(), count: 1 },
            NamedCount { name: "c".to_string(), count: 1 },
        ]
    );
    assert!(count_names(&vec![], true).is_empty());
}

fn results() -> Vec<ScanResult> {
    let all = five();
    vec![
        ScanResult {
            scanner: "deps".to_string(),
            target: "repo".to_string(),
            issues: vec![all[1].clone(), all[0].clone()],
            metadata: vec![],
            scan_time: "12ms".to_string(),
        },
        ScanResult {
            scanner: "config".to_string(),
            target: "repo".to_string(),
            issues: vec![],
            metadata: vec![],
            scan_time: "1ms".to_string(),
        },
        ScanResult {
            scanner: "deps".to_string(),
            target: "other".to_string(),
            issues: vec![all[4].clone()],
            metadata: vec![],
            scan_time: "3ms".to_string(),
        },
    ]
}

#[test]
fn generate_statistics_counts_all_scans() {
    let stats = generate_statistics(&results());
    assert_eq!(stats.total_scans, 3);
    assert_eq!(stats.total_issues, 3);
    assert_eq!(
        stats.scanners,
        vec![
            NamedCount { name: "deps".to_string(), count: 1 },
            NamedCount { name: "config".to_string(), count: 1 },
        ]
    );
    assert_eq!(stats.issues_by_severity.critical, 1);
    assert_eq!(stats.issues_by_severity.low, 1);
    assert_eq!(stats.issues_by_severity.medium, 1);
    assert_eq!(stats.issues_by_severity.high, 0);
}

#[test]
fn collect_issues_goes_scan_by_scan() {
    assert_eq!(ids(&collect_issues(&results())), vec!["crit", "low", "med"]);
    assert!(collect_issues(&vec![]).is_empty());
}

#[test]
fn generate_report_refuses_formats_without_renderer() {
    for (format, name) in [
        (OutputFormat::Markdown, "markdown"),
        (OutputFormat::Html, "html"),
        (OutputFormat::Junit, "junit"),
    ] {
        let config = ReportConfig::plain(format);
        let e = generate_report(&results(), &config).unwrap_err();
        assert_eq!(e, ReportError::InvalidFormat(name.to_string()));
        assert_eq!(e.message(), format!("Invalid output format: {}", name));
    }
}

#[test]
fn generate_report_aggregates_all_scans() {
    for format in [OutputFormat::Pretty, OutputFormat::Json, OutputFormat::Sarif] {
        let mut config = ReportConfig::plain(format);
        config.sort_by = Some(SortBy::Severity);
        let report = generate_report(&results(), &config).unwrap();
        assert_eq!(ids(&report.issues), vec!["crit", "med", "low"]);
        assert_eq!(report.statistics.total_scans, 3);
        assert_eq!(report.statistics.total_issues, 3);
    }
}

#[test]
fn aggregate_is_a_function_of_its_input() {
    let mut config = ReportConfig::plain(OutputFormat::Json);
    config.sort_by = Some(SortBy::File);
    config.group_by = Some(GroupBy::Scanner);
    let a = aggregate(&five(), &scanners(), &config).unwrap();
    let b = aggregate(&five(), &scanners(), &config).unwrap();
    assert_eq!(a, b);
}

#[test]
fn report_error_messages() {
    assert_eq!(
        ReportError::FormatError("x".to_string()).message(),
        "Failed to format report: x"
    );
    assert_eq!(
        ReportError::WriteError("disk".to_string()).message(),
        "Failed to write report: disk"
    );
    assert_eq!(
        ReportError::GroupError("g".to_string()).message(),
        "Invalid grouping configuration: g"
    );
    assert_eq!(
        ReportError::SortError("s".to_string()).message(),
        "Invalid sorting configuration: s"
    );
}
