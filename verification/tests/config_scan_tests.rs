use rustguard::config_scan::check_rules;
use rustguard::config_scan::detect_file_type;
use rustguard::config_scan::generate_compliance_report;
use rustguard::config_scan::scan_directory;
use rustguard::config_scan::scan_file;
use rustguard::config_scan::wants_file;
use rustguard::config_scan::ComplianceReport;
use rustguard::config_scan::ConfigScanError;
use rustguard::config_scan::ConfigScannerConfig;
use rustguard::config_scan::Profile;
use rustguard::config_scan::Rule;
use rustguard::model::Issue;
use rustguard::model::Location;
use rustguard::model::SourceFile;
use rustguard::severity::Severity;
use rustguard::syntax::check_brackets;
use rustguard::syntax::check_tab_indent;
use rustguard::syntax::is_malformed;

fn rule(id: &str, pattern: &str, severity: Severity, file_types: &[&str]) -> Rule {
    Rule {
        id: id.to_string(),
        category: "misconfiguration".to_string(),
        description: format!("rule {}", id),
        severity,
        file_types: file_types.iter().map(|t| t.to_string()).collect(),
        pattern: pattern.to_string(),
        fix: Some("change it".to_string()),
        references: vec!["https://example.org/rule".to_string()],
    }
}

fn config() -> ConfigScannerConfig {
    let mut c = ConfigScannerConfig::default();
    c.rules = vec![
        rule("R1", "privileged:\\s*true", Severity::High, &["yaml"]),
        rule("R2", "0\\.0\\.0\\.0/0", Severity::Medium, &["terraform", "json"]),
        rule("R3", "password", Severity::Low, &[]),
    ];
    c.profiles = vec![
        Profile {
            name: "CIS".to_string(),
            file_types: vec!["yaml".to_string()],
            rules: vec![
                rule("CIS-1", "hostNetwork:\\s*true", Severity::Critical, &[]),
                rule("CIS-2", "privileged:\\s*true", Severity::High, &["yaml"]),
                rule("CIS-3", "never", Severity::Low, &["json"]),
            ],
        },
        Profile {
            name: "PCI".to_string(),
            file_types: vec![],
            rules: vec![rule("PCI-1", "password", Severity::Medium, &[])],
        },
    ];
    c
}

fn summary(issues: &Vec<Issue>) -> Vec<(String, usize)> {
    issues
        .iter()
        .map(|i| (i.id.clone(), i.location.as_ref().unwrap().line.unwrap()))
        .collect()
}

#[test]
fn config_scanner_defaults() {
    let c = ConfigScannerConfig::default();
    assert!(c.rules.is_empty());
    assert!(c.profiles.is_empty());
    assert_eq!(c.timeout, 10);
    assert!(c.ignore_patterns.is_empty());
    assert_eq!(c.max_file_size, 1048576);
    assert!(c.check_syntax);
    assert!(!c.validate_schema);
    assert_eq!(c.schema_dir, None);
}

#[test]
fn no_rule_matches_but_metadata_is_recorded() {
    let content = "kind: Pod\nspec:\n  containers: []\n";
    let r = scan_file("pod.yaml", content, &config(), "2024-05-01T00:00:00Z".to_string())
        .unwrap();
    assert!(r.issues.is_empty());
    assert_eq!(r.file, "pod.yaml");
    assert_eq!(r.metadata.file_type, "yaml");
    assert_eq!(r.metadata.size, content.len() as u64);
    assert_eq!(r.metadata.modified, "2024-05-01T00:00:00Z");

    let none = scan_file("pod.yaml", content, &ConfigScannerConfig::default(), String::new())
        .unwrap();
    assert!(none.issues.is_empty());
    assert_eq!(none.metadata.file_type, "yaml");
    assert_eq!(none.metadata.size, 33);
}

#[test]
fn file_types() {
    assert_eq!(detect_file_type("a.yaml", ""), "yaml");
    assert_eq!(detect_file_type("a.yml", "{"), "yaml");
    assert_eq!(detect_file_type("a.json", "x"), "json");
    assert_eq!(detect_file_type("main.tf", ""), "terraform");
    assert_eq!(detect_file_type("settings", " \n\t{\"a\": 1}"), "json");
    assert_eq!(detect_file_type("settings.conf", "[1]"), "json");
    assert_eq!(detect_file_type("settings.conf", "a = 1"), "unknown");
    assert_eq!(detect_file_type("settings", ""), "unknown");
    assert_eq!(detect_file_type("a.YAML", "   "), "unknown");
}

#[test]
fn rules_and_profiles_are_added_up() {
    let content = "spec:\n  privileged: true\n  password: x\n  hostNetwork:  true\n";
    let r = scan_file("k8s/pod.yml", content, &config(), String::new()).unwrap();
    assert_eq!(
        summary(&r.issues),
        vec![
            ("R1".to_string(), 2),
            ("R3".to_string(), 3),
            ("CIS-1".to_string(), 4),
            ("CIS-2".to_string(), 2),
            ("PCI-1".to_string(), 3),
        ]
    );
    let first = &r.issues[0];
    assert_eq!(first.scanner, "config");
    assert_eq!(first.category, "misconfiguration");
    assert_eq!(first.severity, Severity::High);
    assert_eq!(first.description, "rule R1");
    assert_eq!(
        first.location,
        Some(Location { path: "k8s/pod.yml".to_string(), line: Some(2), column: None })
    );
    assert_eq!(first.fix, Some("change it".to_string()));
    assert_eq!(first.references, vec!["https://example.org/rule".to_string()]);
}

#[test]
fn rules_apply_by_file_type() {
    let content = "cidr = \"0.0.0.0/0\"\nprivileged: true\npassword\n";
    let r = scan_file("net.tf", content, &config(), String::new()).unwrap();
    assert_eq!(
        summary(&r.issues),
        vec![("R2".to_string(), 1), ("R3".to_string(), 3), ("PCI-1".to_string(), 3)]
    );
    assert_eq!(r.metadata.file_type, "terraform");
}

#[test]
fn too_large_files_are_refused() {
    let mut c = config();
    c.max_file_size = 4;
    assert_eq!(
        scan_file("a.yml", "12345", &c, String::new()),
        Err(ConfigScanError::FileTooLarge(5))
    );
    assert!(scan_file("a.yml", "1234", &c, String::new()).is_ok());
    assert_eq!(
        scan_file("a.yml", "\u{e9}\u{e9}\u{e9}", &c, String::new()),
        Err(ConfigScanError::FileTooLarge(6))
    );
}

#[test]
fn invalid_rule_pattern_is_an_error() {
    let mut c = config();
    c.rules.push(rule("BAD", "(", Severity::Low, &["yaml"]));
    c.rules.push(rule("WORSE", "[", Severity::Low, &[]));
    assert_eq!(
        scan_file("a.yml", "x", &c, String::new()),
        Err(ConfigScanError::PatternError("BAD".to_string()))
    );
    assert_eq!(
        scan_file("a.tf", "x", &c, String::new()),
        Err(ConfigScanError::PatternError("WORSE".to_string()))
    );
}

#[test]
fn check_rules_line_by_line() {
    let lines = vec!["a".to_string(), "b a".to_string(), "c".to_string()];
    let rules = vec![
        rule("A", "a", Severity::Low, &[]),
        rule("C", "c", Severity::High, &[]),
    ];
    let found = check_rules(&rules, "f", &lines).unwrap();
    assert_eq!(
        summary(&found),
        vec![("A".to_string(), 1), ("A".to_string(), 2), ("C".to_string(), 3)]
    );
    let unlocated = check_rules(&rules, "", &lines).unwrap();
    assert_eq!(unlocated.len(), 3);
    assert_eq!(unlocated[0].location, None);
    assert!(check_rules(&vec![], "f", &lines).unwrap().is_empty());
}

#[test]
fn scan_file_keeps_the_stamp_it_is_given() {
    let r = scan_file("a.yml", "password: 1\n", &config(), "stamp".to_string()).unwrap();
    assert_eq!(summary(&r.issues), vec![("R3".to_string(), 1), ("PCI-1".to_string(), 1)]);
    assert_eq!(r.metadata.size, 12);
    assert_eq!(r.metadata.modified, "stamp");
}

#[test]
fn config_files_by_extension() {
    for p in ["a.yaml", "b.yml", "c.json", "d.tf", "x/y/z.tf"] {
        assert!(wants_file(p));
    }
    for p in ["a.toml", "Dockerfile", "tf", ".json", "a.yaml.bak"] {
        assert!(!wants_file(p));
    }
}

#[test]
fn scan_directory_passes_over_failures() {
    let mut c = config();
    c.max_file_size = 20;
    let files = vec![
        SourceFile { path: "a.yml".to_string(), content: "password".to_string() },
        SourceFile { path: "b.txt".to_string(), content: "password".to_string() },
        SourceFile {
            path: "c.json".to_string(),
            content: "this file is much too large to scan".to_string(),
        },
        SourceFile { path: "d.tf".to_string(), content: "0.0.0.0/0".to_string() },
    ];
    let scan = scan_directory(&files, &c, "2024-05-01");
    let results = scan.results;
    assert_eq!(scan.failures.len(), 1);
    assert_eq!(scan.failures[0].id, "scan-failure");
    assert_eq!(scan.failures[0].scanner, "config");
    assert_eq!(scan.failures[0].category, "scan-error");
    assert_eq!(scan.failures[0].severity, Severity::Info);
    assert_eq!(scan.failures[0].description, "File too large: 35 bytes");
    assert_eq!(scan.failures[0].location.as_ref().unwrap().path, "c.json");
    assert_eq!(results.len(), 2);
    assert_eq!(results[0].file, "a.yml");
    assert_eq!(summary(&results[0].issues), vec![("R3".to_string(), 1), ("PCI-1".to_string(), 1)]);
    assert_eq!(results[0].metadata.file_type, "yaml");
    assert_eq!(results[0].metadata.size, 8);
    assert_eq!(results[0].metadata.modified, "2024-05-01");
    assert_eq!(results[1].file, "d.tf");
    assert_eq!(summary(&results[1].issues), vec![("R2".to_string(), 1)]);
}

#[test]
fn compliance_report_counts_by_severity() {
    let content = "spec:\n  privileged: true\n  password: x\n  hostNetwork:  true\n";
    let results = vec![
        scan_file("a.yml", content, &config(), String::new()).unwrap(),
        scan_file("b.yml", "nothing", &config(), String::new()).unwrap(),
        scan_file("c.tf", "0.0.0.0/0", &config(), String::new()).unwrap(),
    ];
    let report = generate_compliance_report(&results, &config());
    assert_eq!(report.issues().len(), 6);
    assert_eq!(report.count(Severity::Critical), 1);
    assert_eq!(report.count(Severity::High), 2);
    assert_eq!(report.count(Severity::Medium), 2);
    assert_eq!(report.count(Severity::Low), 1);
    assert_eq!(report.count(Severity::Info), 0);
    assert!(!report.is_compliant());
    let ids: Vec<String> = report.issues().iter().map(|i| i.id.clone()).collect();
    assert_eq!(ids, vec!["R1", "R3", "CIS-1", "CIS-2", "PCI-1", "R2"]);

    let empty = generate_compliance_report(&vec![], &config());
    assert!(empty.is_compliant());
    assert_eq!(empty, ComplianceReport::new());
}

#[test]
fn compliance_report_add_issue() {
    let mut report = ComplianceReport::new();
    let issue = Issue {
        id: "X".to_string(),
        scanner: "config".to_string(),
        category: "c".to_string(),
        severity: Severity::Info,
        description: String::new(),
        location: None,
        fix: None,
        references: vec![],
    };
    report.add_issue(&issue);
    report.add_issue(&issue);
    assert_eq!(report.count(Severity::Info), 2);
    assert_eq!(report.count(Severity::High), 0);
    assert_eq!(*report.issues(), vec![issue.clone(), issue]);
}

#[test]
fn config_error_messages() {
    assert_eq!(
        ConfigScanError::ParseError("p".to_string()).message(),
        "Failed to parse configuration: p"
    );
    assert_eq!(
        ConfigScanError::SchemaError("s".to_string()).message(),
        "Failed to validate schema: s"
    );
    assert_eq!(ConfigScanError::FileTooLarge(0).message(), "File too large: 0 bytes");
    assert_eq!(
        ConfigScanError::FileTooLarge(1048577).message(),
        "File too large: 1048577 bytes"
    );
    assert_eq!(
        ConfigScanError::FileTooLarge(u64::MAX).message(),
        "File too large: 18446744073709551615 bytes"
    );
    assert_eq!(ConfigScanError::PatternError("R".to_string()).message(), "Pattern error: R");
    assert_eq!(ConfigScanError::RuleError("r".to_string()).message(), "Rule error: r");
    assert_eq!(ConfigScanError::Timeout.message(), "Timeout while scanning configuration");
}

#[test]
fn rules_and_profiles_apply_by_type() {
    let r = rule("R", "x", Severity::Low, &["yaml", "json"]);
    assert!(r.applies_to(&"yaml".to_string()));
    assert!(r.applies_to(&"json".to_string()));
    assert!(!r.applies_to(&"terraform".to_string()));
    let any = rule("A", "x", Severity::Low, &[]);
    assert!(any.applies_to(&"anything".to_string()));
    let p = Profile { name: "P".to_string(), file_types: vec!["tf".to_string()], rules: vec![] };
    assert!(p.applies_to(&"tf".to_string()));
    assert!(!p.applies_to(&"yaml".to_string()));
}

#[test]
fn malformed_configuration_is_refused() {
    let c = config();
    assert_eq!(
        scan_file("a.json", "{\"a\": [1, 2}", &c, String::new()),
        Err(ConfigScanError::ParseError("a.json".to_string()))
    );
    assert_eq!(
        scan_file("main.tf", "resource \"x\" \"y\" {\n  count = max(1, 2\n}\n", &c, String::new()),
        Err(ConfigScanError::ParseError("main.tf".to_string()))
    );
    assert_eq!(
        scan_file("k.yml", "spec:\n\tkey: 1\n", &c, String::new()),
        Err(ConfigScanError::ParseError("k.yml".to_string()))
    );
    assert_eq!(
        ConfigScanError::ParseError("k.yml".to_string()).message(),
        "Failed to parse configuration: k.yml"
    );
    assert!(scan_file("a.json", "{\"a\": [1, 2], \"b\": \"}\"}", &c, String::new()).is_ok());
    assert!(scan_file("k.yml", "spec:\n  key: \"a\tb\"\n", &c, String::new()).is_ok());
    assert!(scan_file("notes.txt", "}{", &c, String::new()).is_ok());
}

#[test]
fn syntax_is_checked_only_when_asked() {
    let mut c = config();
    c.check_syntax = false;
    assert!(scan_file("a.json", "{\"a\": [1, 2}", &c, String::new()).is_ok());
    assert!(scan_file("k.yml", "spec:\n\tkey: 1\n", &c, String::new()).is_ok());
}

#[test]
fn size_is_checked_before_syntax_and_syntax_before_rules() {
    let mut c = config();
    c.rules.push(rule("BAD", "(", Severity::Low, &[]));
    assert_eq!(
        scan_file("a.json", "{", &c, String::new()),
        Err(ConfigScanError::ParseError("a.json".to_string()))
    );
    c.max_file_size = 0;
    assert_eq!(scan_file("a.json", "{", &c, String::new()), Err(ConfigScanError::FileTooLarge(1)));
    c.max_file_size = 10;
    assert_eq!(
        scan_file("a.json", "{}", &c, String::new()),
        Err(ConfigScanError::PatternError("BAD".to_string()))
    );
}

#[test]
fn malformed_files_of_a_directory_become_findings() {
    let files = vec![
        SourceFile { path: "ok.json".to_string(), content: "{}".to_string() },
        SourceFile { path: "bad.json".to_string(), content: "{]".to_string() },
    ];
    let scan = scan_directory(&files, &config(), "now");
    assert_eq!(scan.results.len(), 1);
    assert_eq!(scan.results[0].file, "ok.json");
    assert_eq!(scan.failures.len(), 1);
    assert_eq!(scan.failures[0].description, "Failed to parse configuration: bad.json");
    assert_eq!(scan.failures[0].severity, Severity::Info);
    assert_eq!(scan.failures[0].location.as_ref().unwrap().path, "bad.json");
}

#[test]
fn brackets_and_tabs() {
    for good in ["", "{}", "[{}, {\"a\": \"]\"}]", "a \"\\\"}\" b", "text (", "{ \"k\": \"v\" }\n"] {
        assert!(check_brackets(good, false), "{:?}", good);
    }
    for bad in ["{", "}", "[}", "{]", "\"open", "{\"a\": 1}}", "\"\\\""] {
        assert!(!check_brackets(bad, false), "{:?}", bad);
    }
    assert!(check_brackets("f(a, [b])", true));
    assert!(!check_brackets("f(a, [b)", true));
    assert!(!check_brackets("f(a", true));
    assert!(check_brackets("f(a", false));
    assert!(check_tab_indent("a:\n\tb: 1"));
    assert!(check_tab_indent("a:\n  \tb: 1"));
    assert!(!check_tab_indent("a:\n  b: \"x\ty\"\n"));
    assert!(!check_tab_indent(""));
    assert!(is_malformed(&"json".to_string(), "["));
    assert!(!is_malformed(&"unknown".to_string(), "["));
    assert!(is_malformed(&"terraform".to_string(), "x = (1"));
    assert!(!is_malformed(&"yaml".to_string(), "x: (1"));
}
