use rustguard::deps::check_vulnerabilities;
use rustguard::deps::pending_queries;
use rustguard::deps::query_batches;
use rustguard::deps::read_directory;
use rustguard::deps::scan_directory;
use rustguard::deps::vulnerability_from_advisory;
use rustguard::deps::DepScanError;
use rustguard::deps::DepScanResult;
use rustguard::deps::DepScannerConfig;
use rustguard::deps::VulnCache;
use rustguard::lockfile::parse_lockfile;
use rustguard::model::Dependency;
use rustguard::model::SourceFile;
use rustguard::model::Vulnerability;
use rustguard::normalize::dependency_issues;
use rustguard::normalize::dependency_scan_result;
use rustguard::report::MetadataEntry;
use rustguard::severity::Severity;

fn dep(name: &str, version: &str) -> Dependency {
    Dependency {
        name: name.to_string(),
        version: version.to_string(),
        ecosystem: "PyPI".to_string(),
    }
}

fn vuln(id: &str, package: &str, version: &str) -> Vulnerability {
    Vulnerability {
        id: id.to_string(),
        package: package.to_string(),
        version: version.to_string(),
        severity: Severity::Critical,
        description: "known to be bad".to_string(),
        fixed_in: Some("1.0.1".to_string()),
        references: vec![],
    }
}

fn unknown(package: &str, version: &str) -> Vulnerability {
    Vulnerability {
        id: "UNKNOWN".to_string(),
        package: package.to_string(),
        version: version.to_string(),
        severity: Severity::Info,
        description: "No vulnerability data could be obtained for this package".to_string(),
        fixed_in: None,
        references: vec![],
    }
}

fn stub_source(name: &str, version: &str) -> Result<Vec<Vulnerability>, DepScanError> {
    if name == "left-pad" && version == "1.0.0" {
        Ok(vec![vuln("OSV-2024-1", name, version)])
    } else if name == "flaky" {
        Err(DepScanError::Timeout)
    } else {
        Ok(vec![])
    }
}

fn run_scan(deps: &Vec<Dependency>, cache: &mut VulnCache, calls: &mut Vec<(String, String)>) -> Vec<DepScanResult> {
    let config = DepScannerConfig::default();
    for q in pending_queries(deps, cache, &config) {
        calls.push((q.name.clone(), q.version.clone()));
        match stub_source(&q.name, &q.version) {
            Ok(found) => assert!(cache.record(&q.name, &q.version, found)),
            Err(_) => assert!(cache.record_failure(&q)),
        }
    }
    check_vulnerabilities(deps, cache)
}

#[test]
fn dep_config_defaults() {
    let c = DepScannerConfig::default();
    assert_eq!(c.osv_api_url, "https://api.osv.dev/v1/query");
    assert_eq!(c.timeout, 10);
    assert_eq!(c.cache_dir, Some(".rustguard_cache".to_string()));
    assert!(!c.ignore_dev_dependencies);
    assert!(c.ignore_patterns.is_empty());
    assert_eq!(c.max_concurrent_requests, 5);
    assert!(!c.offline_mode);
}

#[test]
fn left_pad_with_one_known_vulnerability() {
    let lockfile = r#"{"lockfileVersion": 3, "packages": {"": {"name": "app"}, "node_modules/left-pad": {"version": "1.0.0"}}}"#;
    let deps = parse_lockfile("project/package-lock.json", lockfile).unwrap();
    assert_eq!(
        deps,
        vec![Dependency {
            name: "left-pad".to_string(),
            version: "1.0.0".to_string(),
            ecosystem: "npm".to_string(),
        }]
    );
    let mut cache = VulnCache::new();
    let mut calls = Vec::new();
    let results = run_scan(&deps, &mut cache, &mut calls);
    assert_eq!(
        results,
        vec![DepScanResult {
            package: "left-pad".to_string(),
            version: "1.0.0".to_string(),
            vulnerabilities: vec![vuln("OSV-2024-1", "left-pad", "1.0.0")],
        }]
    );
    assert_eq!(calls, vec![("left-pad".to_string(), "1.0.0".to_string())]);
}

#[test]
fn each_package_and_version_is_asked_once() {
    let deps = vec![
        dep("a", "1"),
        dep("b", "1"),
        dep("a", "1"),
        dep("a", "2"),
        dep("b", "1"),
        dep("left-pad", "1.0.0"),
        dep("left-pad", "1.0.0"),
    ];
    let mut cache = VulnCache::new();
    let mut calls = Vec::new();
    let first = run_scan(&deps, &mut cache, &mut calls);
    assert_eq!(
        calls,
        vec![
            ("a".to_string(), "1".to_string()),
            ("b".to_string(), "1".to_string()),
            ("a".to_string(), "2".to_string()),
            ("left-pad".to_string(), "1.0.0".to_string()),
        ]
    );
    assert_eq!(first.len(), 2);
    let second = run_scan(&deps, &mut cache, &mut calls);
    assert_eq!(calls.len(), 4);
    assert_eq!(first, second);
    assert_eq!(cache.len(), 4);
}

#[test]
fn cache_is_write_once() {
    let mut cache = VulnCache::new();
    let name = "pkg".to_string();
    let v1 = "1".to_string();
    assert!(!cache.contains(&name, &v1));
    assert_eq!(cache.lookup(&name, &v1), None);
    assert!(cache.record(&name, &v1, vec![vuln("A", "pkg", "1")]));
    assert!(!cache.record(&name, &v1, vec![vuln("B", "pkg", "1")]));
    assert!(!cache.record(&name, &v1, vec![]));
    assert_eq!(cache.lookup(&name, &v1), Some(vec![vuln("A", "pkg", "1")]));
    assert_eq!(cache.len(), 1);
    assert!(cache.record(&name, &"2".to_string(), vec![]));
    assert_eq!(cache.lookup(&name, &"2".to_string()), Some(vec![]));
    assert_eq!(cache.lookup(&name, &v1), Some(vec![vuln("A", "pkg", "1")]));
    assert!(cache.contains(&name, &v1));
    assert_eq!(cache.len(), 2);
}

#[test]
fn failed_queries_are_reported_as_unknown() {
    let deps = vec![dep("flaky", "3"), dep("fine", "1"), dep("left-pad", "1.0.0")];
    let mut cache = VulnCache::new();
    let mut calls = Vec::new();
    let results = run_scan(&deps, &mut cache, &mut calls);
    assert_eq!(
        results,
        vec![
            DepScanResult {
                package: "flaky".to_string(),
                version: "3".to_string(),
                vulnerabilities: vec![unknown("flaky", "3")],
            },
            DepScanResult {
                package: "left-pad".to_string(),
                version: "1.0.0".to_string(),
                vulnerabilities: vec![vuln("OSV-2024-1", "left-pad", "1.0.0")],
            },
        ]
    );
    assert_eq!(results[0].vulnerabilities[0].severity, Severity::Info);
}

#[test]
fn offline_mode_makes_no_query() {
    let mut config = DepScannerConfig::default();
    config.offline_mode = true;
    let deps = vec![dep("a", "1"), dep("left-pad", "1.0.0")];
    let mut cache = VulnCache::new();
    assert!(pending_queries(&deps, &cache, &config).is_empty());
    cache.record(&"left-pad".to_string(), &"1.0.0".to_string(), vec![vuln("X", "left-pad", "1.0.0")]);
    assert!(pending_queries(&deps, &cache, &config).is_empty());
    let results = check_vulnerabilities(&deps, &cache);
    assert_eq!(results.len(), 2);
    assert_eq!(results[0].vulnerabilities, vec![unknown("a", "1")]);
    assert_eq!(results[1].vulnerabilities, vec![vuln("X", "left-pad", "1.0.0")]);
}

#[test]
fn pending_queries_skip_what_is_cached() {
    let config = DepScannerConfig::default();
    let deps = vec![dep("a", "1"), dep("b", "2"), dep("c", "3")];
    let mut cache = VulnCache::new();
    cache.record(&"b".to_string(), &"2".to_string(), vec![]);
    assert_eq!(pending_queries(&deps, &cache, &config), vec![dep("a", "1"), dep("c", "3")]);
    assert!(pending_queries(&vec![], &cache, &config).is_empty());
}

#[test]
fn dep_error_messages() {
    assert_eq!(
        DepScanError::ParseError("p".to_string()).message(),
        "Failed to parse lockfile: p"
    );
    assert_eq!(
        DepScanError::FetchError("f".to_string()).message(),
        "Failed to fetch vulnerability data: f"
    );
    assert_eq!(
        DepScanError::InvalidPackage("i".to_string()).message(),
        "Invalid package format: i"
    );
    assert_eq!(DepScanError::Timeout.message(), "Timeout while scanning dependencies");
    assert_eq!(DepScanError::CacheError("c".to_string()).message(), "Cache error: c");
}

fn directory() -> Vec<SourceFile> {
    vec![
        SourceFile {
            path: "a/requirements.txt".to_string(),
            content: "left-pad==1.0.0\nfine==2\n".to_string(),
        },
        SourceFile { path: "README.md".to_string(), content: "left-pad==1.0.0".to_string() },
        SourceFile { path: "b/requirements.txt".to_string(), content: "oops\n".to_string() },
        SourceFile {
            path: "go.sum".to_string(),
            content: "example.org/m v1.2.3 h1:abc=\nexample.org/m v1.2.3/go.mod h1:def=\n"
                .to_string(),
        },
    ]
}

#[test]
fn directory_dependencies_file_by_file() {
    let deps = read_directory(&directory());
    let names: Vec<(String, String, String)> = deps
        .iter()
        .map(|d| (d.name.clone(), d.version.clone(), d.ecosystem.clone()))
        .collect();
    assert_eq!(
        names,
        vec![
            ("left-pad".to_string(), "1.0.0".to_string(), "PyPI".to_string()),
            ("fine".to_string(), "2".to_string(), "PyPI".to_string()),
            ("example.org/m".to_string(), "v1.2.3".to_string(), "Go".to_string()),
        ]
    );
}

#[test]
fn directory_scan_reports_results_and_parse_failures() {
    let files = directory();
    let deps = read_directory(&files);
    let mut cache = VulnCache::new();
    let mut calls = Vec::new();
    run_scan(&deps, &mut cache, &mut calls);
    let scan = scan_directory(&files, &cache);
    assert_eq!(scan.results.len(), 1);
    assert_eq!(scan.results[0].package, "left-pad");
    assert_eq!(scan.failures.len(), 1);
    let f = &scan.failures[0];
    assert_eq!(f.id, "parse-error");
    assert_eq!(f.scanner, "dependencies");
    assert_eq!(f.category, "scan-error");
    assert_eq!(f.severity, Severity::Medium);
    assert_eq!(f.description, "Failed to parse lockfile: oops");
    assert_eq!(f.location.as_ref().unwrap().path, "b/requirements.txt");
    assert!(f.is_well_formed());
}

#[test]
fn dependency_results_as_issues() {
    let results = vec![
        DepScanResult {
            package: "a".to_string(),
            version: "1".to_string(),
            vulnerabilities: vec![vuln("V1", "a", "1"), vuln("V2", "a", "1")],
        },
        DepScanResult {
            package: "b".to_string(),
            version: "1".to_string(),
            vulnerabilities: vec![unknown("b", "1")],
        },
    ];
    let issues = dependency_issues(&results, "req/requirements.txt");
    let ids: Vec<String> = issues.iter().map(|i| i.id.clone()).collect();
    assert_eq!(ids, vec!["V1", "V2", "UNKNOWN"]);
    assert_eq!(issues[0].scanner, "dependencies");
    assert_eq!(issues[0].severity, Severity::Critical);
    assert_eq!(issues[0].fix, Some("1.0.1".to_string()));
    assert_eq!(issues[2].severity, Severity::Info);
    assert_eq!(issues[2].location.as_ref().unwrap().path, "req/requirements.txt");
    let no_target = dependency_issues(&results, "");
    assert_eq!(no_target[0].location, None);
}

#[test]
fn queries_go_out_in_bounded_batches() {
    let pending: Vec<Dependency> = (0..7).map(|n| dep(&format!("p{}", n), "1")).collect();
    let mut config = DepScannerConfig::default();
    config.max_concurrent_requests = 3;
    let batches = query_batches(&pending, &config);
    let sizes: Vec<usize> = batches.iter().map(|b| b.len()).collect();
    assert_eq!(sizes, vec![3, 3, 1]);
    let joined: Vec<Dependency> = batches.into_iter().flatten().collect();
    assert_eq!(joined, pending);

    config.max_concurrent_requests = 0;
    assert_eq!(query_batches(&pending, &config).len(), 7);
    config.max_concurrent_requests = 7;
    assert_eq!(query_batches(&pending, &config).len(), 1);
    config.max_concurrent_requests = 100;
    assert_eq!(query_batches(&pending, &config), vec![pending.clone()]);
    assert!(query_batches(&vec![], &config).is_empty());
}

#[test]
fn dependency_scan_is_flagged_as_offline() {
    let results = vec![DepScanResult {
        package: "a".to_string(),
        version: "1".to_string(),
        vulnerabilities: vec![vuln("V1", "a", "1")],
    }];
    let mut config = DepScannerConfig::default();
    let online = dependency_scan_result("req.txt", &results, &config, "5ms".to_string());
    assert_eq!(online.scanner, "dependencies");
    assert_eq!(online.target, "req.txt");
    assert_eq!(online.scan_time, "5ms");
    assert_eq!(online.issues, dependency_issues(&results, "req.txt"));
    assert_eq!(
        online.metadata,
        vec![MetadataEntry { key: "offline".to_string(), value: "false".to_string() }]
    );
    config.offline_mode = true;
    let offline = dependency_scan_result("req.txt", &results, &config, String::new());
    assert_eq!(
        offline.metadata,
        vec![MetadataEntry { key: "offline".to_string(), value: "true".to_string() }]
    );
}

#[test]
fn directory_scan_does_not_depend_on_the_order_of_the_files() {
    let files = directory();
    let mut reversed = directory();
    reversed.reverse();
    let deps = read_directory(&files);
    let mut cache = VulnCache::new();
    let mut calls = Vec::new();
    run_scan(&deps, &mut cache, &mut calls);
    let a = scan_directory(&files, &cache);
    let b = scan_directory(&reversed, &cache);
    let mut left: Vec<String> = a.results.iter().map(|r| format!("{:?}", r)).collect();
    let mut right: Vec<String> = b.results.iter().map(|r| format!("{:?}", r)).collect();
    left.sort();
    right.sort();
    assert_eq!(left, right);
}

#[test]
fn cache_snapshot_and_restore() {
    let mut cache = VulnCache::new();
    cache.record(&"a".to_string(), &"1".to_string(), vec![vuln("V", "a", "1")]);
    cache.record(&"b".to_string(), &"2".to_string(), vec![]);
    let snapshot = cache.snapshot();
    assert_eq!(snapshot.len(), 2);
    assert_eq!(snapshot[0].name, "a");
    assert_eq!(snapshot[0].vulnerabilities, vec![vuln("V", "a", "1")]);
    assert_eq!(snapshot[1].name, "b");
    let mut with_duplicate = cache.snapshot();
    with_duplicate.push(rustguard::deps::CacheEntry {
        name: "a".to_string(),
        version: "1".to_string(),
        vulnerabilities: vec![],
    });
    let restored = VulnCache::restore(with_duplicate);
    assert_eq!(restored.len(), 2);
    assert_eq!(restored.snapshot(), snapshot);
    assert_eq!(
        restored.lookup(&"a".to_string(), &"1".to_string()),
        Some(vec![vuln("V", "a", "1")])
    );
    assert_eq!(VulnCache::restore(vec![]).len(), 0);
}

#[test]
fn a_failed_query_is_not_made_again_in_the_run() {
    let deps = vec![dep("flaky", "3"), dep("fine", "1"), dep("flaky", "3")];
    let mut cache = VulnCache::new();
    let mut calls = Vec::new();
    let first = run_scan(&deps, &mut cache, &mut calls);
    assert_eq!(
        calls,
        vec![("flaky".to_string(), "3".to_string()), ("fine".to_string(), "1".to_string())]
    );
    let second = run_scan(&deps, &mut cache, &mut calls);
    assert_eq!(calls.len(), 2);
    assert_eq!(first, second);
    assert_eq!(first.len(), 2);
    assert_eq!(first[0].vulnerabilities, vec![unknown("flaky", "3")]);
    assert!(cache.has_failed(&"flaky".to_string(), &"3".to_string()));
    assert!(!cache.has_failed(&"flaky".to_string(), &"4".to_string()));
    assert!(!cache.has_failed(&"fine".to_string(), &"1".to_string()));
    assert!(!cache.record_failure(&dep("flaky", "3")));
    assert_eq!(cache.len(), 1);
    assert_eq!(cache.snapshot().len(), 1);
    let config = DepScannerConfig::default();
    assert_eq!(
        pending_queries(&vec![dep("flaky", "3"), dep("flaky", "4")], &cache, &config),
        vec![dep("flaky", "4")]
    );
}

#[test]
fn advisories_become_vulnerabilities() {
    let fixed = vec!["1.0.1".to_string(), "2.0.0".to_string()];
    let v = vulnerability_from_advisory(
        "OSV-1",
        "left-pad",
        "1.0.0",
        "Moderate",
        "short",
        "long",
        &fixed,
        vec!["https://example.org/a".to_string()],
    );
    assert_eq!(
        v,
        Vulnerability {
            id: "OSV-1".to_string(),
            package: "left-pad".to_string(),
            version: "1.0.0".to_string(),
            severity: Severity::Medium,
            description: "short".to_string(),
            fixed_in: Some("1.0.1".to_string()),
            references: vec!["https://example.org/a".to_string()],
        }
    );
    let bare = vulnerability_from_advisory("OSV-2", "p", "1", "", "", "long", &vec![], vec![]);
    assert_eq!(bare.severity, Severity::Info);
    assert_eq!(bare.description, "long");
    assert_eq!(bare.fixed_in, None);
    let odd = vulnerability_from_advisory("OSV-3", "p", "1", "urgent", "", "", &vec![], vec![]);
    assert_eq!(odd.severity, Severity::Info);
    assert_eq!(odd.description, "");
    let high = vulnerability_from_advisory("OSV-4", "p", "1", "HIGH", "s", "", &vec![], vec![]);
    assert_eq!(high.severity, Severity::High);
}
