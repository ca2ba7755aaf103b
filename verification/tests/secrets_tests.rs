use rustguard::model::SourceFile;
use rustguard::secrets::byte_histogram;
use rustguard::secrets::scan_directory;
use rustguard::secrets::scan_file;
use rustguard::secrets::scan_lines;
use rustguard::secrets::wants_file;
use rustguard::secrets::Pattern;
use rustguard::secrets::SecretCandidate;
use rustguard::secrets::SecretScanError;
use rustguard::severity::Severity;

fn aws() -> Pattern {
    Pattern::new(
        "AWS Access Key",
        "AKIA[0-9A-Z]{16}",
        "An AWS access key id",
        Severity::Critical,
    )
}

/// A text in the shape of an access key id: the prefix, ten digits, four
/// letters and `tail`. It is put together from pieces, so that a scan of
/// this repository finds no key in this file.
fn key_id(tail: &str) -> String {
    ["AK", "IA", "12345", "67890", "AB", "CD", tail].concat()
}

/// The line `AWS_KEY=` with a key id that a longer run of digits follows.
fn key_line() -> String {
    format!("AWS_KEY={}", key_id("1234"))
}

/// A key id of zeros.
fn zero_key() -> String {
    ["AK", "IA", &"0".repeat(16)].concat()
}

/// A run of 36 characters of the base64 alphabet.
fn base64_run() -> String {
    format!("{}=", "QUJDREVG".repeat(4).chars().chain("R0h".chars()).collect::<String>())
}

fn token() -> Pattern {
    Pattern::new("Token", "tok_[a-z0-9]+", "A service token", Severity::High)
}

fn entropy(s: &str) -> f64 {
    let counts = byte_histogram(s);
    let total: usize = counts.iter().sum();
    let mut h = 0.0f64;
    for c in counts {
        if c > 0 {
            let p = c as f64 / total as f64;
            h -= p * p.log2();
        }
    }
    h
}

#[test]
fn pattern_new_copies_its_parts() {
    let p = aws();
    assert_eq!(p.name, "AWS Access Key");
    assert_eq!(p.regex, "AKIA[0-9A-Z]{16}");
    assert_eq!(p.description, "An AWS access key id");
    assert_eq!(p.severity, Severity::Critical);
    assert_eq!(p.clone(), p);
}

#[test]
fn aws_key_is_found_once_at_its_line() {
    let content = format!("# settings\nregion=eu\n{}\nend\n", key_line());
    let found = scan_file("conf/app.yml", &content, &vec![aws()]).unwrap();
    let named: Vec<&SecretCandidate> = found
        .iter()
        .filter(|c| c.pattern == Some("AWS Access Key".to_string()))
        .collect();
    assert_eq!(named.len(), 1);
    assert_eq!(named[0].line_number, 3);
    assert_eq!(named[0].secret_type, "AWS Access Key");
    assert_eq!(named[0].secret, key_id("12"));
    assert_eq!(named[0].secret.len(), 20);
    assert_eq!(named[0].path, "conf/app.yml");
    assert_eq!(named[0].severity, Severity::Critical);
}

#[test]
fn generic_detector_is_not_merged_with_named_patterns() {
    let content = key_line();
    let found = scan_file("a.yml", &content, &vec![aws()]).unwrap();
    assert_eq!(found.len(), 2);
    assert_eq!(found[0].pattern, Some("AWS Access Key".to_string()));
    assert_eq!(found[1].pattern, None);
    assert_eq!(found[1].secret_type, "Base64-like string");
    assert_eq!(found[1].secret, format!("KEY={}", key_id("1234")));
    assert_eq!(found[1].line_number, 1);
    assert_eq!(found[1].severity, Severity::Medium);
}

#[test]
fn candidates_come_pattern_by_pattern_then_generic() {
    let lines: Vec<String> = vec![
        format!("tok_abc and {}", zero_key()),
        "nothing here".to_string(),
        "tok_zzz9 tok_second".to_string(),
        base64_run(),
    ];
    let found = scan_lines("f", &lines, &vec![token(), aws()]).unwrap();
    let summary: Vec<(usize, String, String)> = found
        .iter()
        .map(|c| (c.line_number, c.secret_type.clone(), c.secret.clone()))
        .collect();
    assert_eq!(
        summary,
        vec![
            (1, "Token".to_string(), "tok_abc".to_string()),
            (3, "Token".to_string(), "tok_zzz9".to_string()),
            (1, "AWS Access Key".to_string(), zero_key()),
            (1, "Base64-like string".to_string(), zero_key()),
            (4, "Base64-like string".to_string(), base64_run()),
        ]
    );
}

#[test]
fn short_runs_are_no_generic_candidates() {
    let found = scan_file("f", "abcdefghij0123456789\nabcdefghij012345678", &vec![]).unwrap();
    assert_eq!(found.len(), 1);
    assert_eq!(found[0].line_number, 1);
    assert_eq!(found[0].secret, "abcdefghij0123456789");
}

#[test]
fn invalid_pattern_is_an_error_naming_the_first() {
    let bad1 = Pattern::new("Broken", "(", "", Severity::Low);
    let bad2 = Pattern::new("Also broken", "[", "", Severity::Low);
    let r = scan_file("f", "text", &vec![aws(), bad1, bad2]);
    assert_eq!(r, Err(SecretScanError::InvalidPattern("Broken".to_string())));
    assert_eq!(r.unwrap_err().message(), "Invalid pattern: Broken");
}

#[test]
fn empty_file_has_no_candidates() {
    assert_eq!(scan_file("f", "", &vec![aws()]).unwrap().len(), 0);
}

#[test]
fn wants_file_by_extension() {
    for p in ["a.git", "x/b.lock", "c.json", "d.yaml", "e.yml", "Cargo.lock"] {
        assert!(wants_file(p), "{}", p);
    }
    for p in ["a.rs", "README", ".yml", "dir.yml/file", "a.YML", "a.toml"] {
        assert!(!wants_file(p), "{}", p);
    }
}

#[test]
fn scan_directory_searches_only_wanted_files() {
    let files = vec![
        SourceFile { path: "src/main.rs".to_string(), content: "tok_inrust".to_string() },
        SourceFile { path: "a.yml".to_string(), content: "x\ntok_one".to_string() },
        SourceFile { path: "b.json".to_string(), content: "tok_two".to_string() },
    ];
    let found = scan_directory(&files, &vec![token()]).unwrap();
    let summary: Vec<(String, usize, String)> = found
        .iter()
        .map(|c| (c.path.clone(), c.line_number, c.secret.clone()))
        .collect();
    assert_eq!(
        summary,
        vec![
            ("a.yml".to_string(), 2, "tok_one".to_string()),
            ("b.json".to_string(), 1, "tok_two".to_string()),
        ]
    );
}

#[test]
fn scan_directory_with_invalid_pattern() {
    let bad = Pattern::new("Broken", "(", "", Severity::Low);
    let wanted = vec![SourceFile { path: "a.yml".to_string(), content: String::new() }];
    let unwanted = vec![SourceFile { path: "a.rs".to_string(), content: String::new() }];
    assert_eq!(
        scan_directory(&wanted, &vec![bad.clone()]),
        Err(SecretScanError::InvalidPattern("Broken".to_string()))
    );
    assert_eq!(scan_directory(&unwanted, &vec![bad]), Ok(vec![]));
}

#[test]
fn scanning_twice_gives_the_same_candidates() {
    let content = format!("{}\ntok_abc\n", key_line());
    let a = scan_file("a.yml", &content, &vec![aws(), token()]).unwrap();
    let b = scan_file("a.yml", &content, &vec![aws(), token()]).unwrap();
    assert_eq!(a, b);
}

#[test]
fn histogram_counts_bytes() {
    let h = byte_histogram("aaaa");
    assert_eq!(h.len(), 256);
    assert_eq!(h[b'a' as usize], 4);
    assert_eq!(h.iter().sum::<usize>(), 4);
    assert_eq!(h.iter().filter(|c| **c > 0).count(), 1);

    let h = byte_histogram("");
    assert_eq!(h.len(), 256);
    assert_eq!(h.iter().sum::<usize>(), 0);

    let h = byte_histogram("abca\u{e9}");
    assert_eq!(h[b'a' as usize], 2);
    assert_eq!(h[b'b' as usize], 1);
    assert_eq!(h[b'c' as usize], 1);
    assert_eq!(h[0xc3], 1);
    assert_eq!(h[0xa9], 1);
    assert_eq!(h.iter().sum::<usize>(), 6);
}

#[test]
fn entropy_of_a_repeated_byte_is_zero() {
    assert_eq!(entropy("aaaa"), 0.0);
    assert_eq!(entropy("z"), 0.0);
    assert_eq!(entropy(""), 0.0);
}

#[test]
fn entropy_of_equally_frequent_bytes_is_log2_of_their_number() {
    assert!((entropy("ab") - 1.0).abs() < 1e-12);
    assert!((entropy("abcdabcd") - 2.0).abs() < 1e-12);
    assert!((entropy("abcabcabc") - 3f64.log2()).abs() < 1e-12);
    assert!((entropy("0123456789abcdef") - 4.0).abs() < 1e-12);
}

#[test]
fn entropy_gate_on_candidates() {
    let found = scan_file("a.yml", &key_line(), &vec![aws()]).unwrap();
    let e: Vec<f64> = found.iter().map(|c| entropy(&c.secret)).collect();
    assert!((e[0] - 3.884183719779189).abs() < 1e-9);
    assert!(e[1] > e[0]);
    let reported: Vec<&SecretCandidate> =
        found.iter().filter(|c| entropy(&c.secret) > 4.5).collect();
    assert_eq!(reported.len(), 0);
}

#[test]
fn directory_scan_yields_the_same_whatever_the_order() {
    let files = vec![
        SourceFile { path: "a.yml".to_string(), content: "x\ntok_one".to_string() },
        SourceFile { path: "b.json".to_string(), content: "tok_two\ntok_three".to_string() },
        SourceFile { path: "c.rs".to_string(), content: "tok_four".to_string() },
    ];
    let swapped = vec![
        SourceFile { path: "c.rs".to_string(), content: "tok_four".to_string() },
        SourceFile { path: "b.json".to_string(), content: "tok_two\ntok_three".to_string() },
        SourceFile { path: "a.yml".to_string(), content: "x\ntok_one".to_string() },
    ];
    let mut a: Vec<String> = scan_directory(&files, &vec![token()])
        .unwrap()
        .iter()
        .map(|c| format!("{:?}", c))
        .collect();
    let mut b: Vec<String> = scan_directory(&swapped, &vec![token()])
        .unwrap()
        .iter()
        .map(|c| format!("{:?}", c))
        .collect();
    assert_eq!(a.len(), 3);
    a.sort();
    b.sort();
    assert_eq!(a, b);
}
