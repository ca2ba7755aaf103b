use rustguard::container::merge_findings;
use rustguard::container::scan_directory;
use rustguard::container::scan_dockerfile;
use rustguard::container::scan_image;
use rustguard::container::select_layers;
use rustguard::container::wants_file;
use rustguard::container::ContainerMetadata;
use rustguard::container::ContainerScanError;
use rustguard::container::ContainerScannerConfig;
use rustguard::container::LayerInput;
use rustguard::container::SecurityContext;
use rustguard::model::SourceFile;
use rustguard::model::Vulnerability;
use rustguard::normalize::image_issues;
use rustguard::severity::Severity;

fn vuln(id: &str, package: &str, version: &str) -> Vulnerability {
    Vulnerability {
        id: id.to_string(),
        package: package.to_string(),
        version: version.to_string(),
        severity: Severity::High,
        description: format!("{} in {}", id, package),
        fixed_in: Some("9.9".to_string()),
        references: vec!["https://example.org".to_string()],
    }
}

fn metadata() -> ContainerMetadata {
    ContainerMetadata {
        created: "2024-01-01".to_string(),
        architecture: "amd64".to_string(),
        os: "linux".to_string(),
        size: 1000,
    }
}

fn layer(id: &str, findings: Option<Vec<Vulnerability>>) -> LayerInput {
    LayerInput { id: id.to_string(), size: 10, findings }
}

#[test]
fn container_config_defaults() {
    let c = ContainerScannerConfig::default();
    assert_eq!(c.timeout, 30);
    assert_eq!(c.max_layers, 100);
    assert!(c.skip_layers.is_empty());
    assert_eq!(c.cache_dir, Some(".rustguard_cache".to_string()));
    assert!(!c.offline_mode);
    assert!(c.ignore_patterns.is_empty());
    assert_eq!(c.security_context, SecurityContext::default());
    let s = SecurityContext::default();
    assert!(!s.privileged);
    assert!(s.capabilities.is_empty());
    assert!(s.security_opt.is_empty());
    assert_eq!(s.user, None);
    assert_eq!(s.group, None);
}

#[test]
fn select_layers_respects_limit_and_skips() {
    let mut c = ContainerScannerConfig::default();
    assert_eq!(select_layers(4, &c), vec![0, 1, 2, 3]);
    c.max_layers = 3;
    assert_eq!(select_layers(5, &c), vec![0, 1, 2]);
    c.skip_layers = vec![1, 7, 0];
    assert_eq!(select_layers(5, &c), vec![2]);
    c.max_layers = 0;
    assert_eq!(select_layers(5, &c), Vec::<usize>::new());
    assert_eq!(select_layers(0, &ContainerScannerConfig::default()), Vec::<usize>::new());
}

#[test]
fn merge_keeps_first_of_same_findings() {
    let mut second = vuln("CVE-1", "openssl", "1.0");
    second.description = "the later one".to_string();
    let found = vec![
        vuln("CVE-1", "openssl", "1.0"),
        vuln("CVE-2", "openssl", "1.0"),
        second,
        vuln("CVE-1", "openssl", "1.1"),
        vuln("CVE-1", "zlib", "1.0"),
        vuln("CVE-2", "openssl", "1.0"),
    ];
    let merged = merge_findings(&found);
    assert_eq!(
        merged,
        vec![
            vuln("CVE-1", "openssl", "1.0"),
            vuln("CVE-2", "openssl", "1.0"),
            vuln("CVE-1", "openssl", "1.1"),
            vuln("CVE-1", "zlib", "1.0"),
        ]
    );
    assert!(merge_findings(&vec![]).is_empty());
}

#[test]
fn scan_image_counts_once_per_image_and_keeps_layers() {
    let layers = vec![
        layer("l0", Some(vec![vuln("CVE-1", "openssl", "1.0")])),
        layer("l1", Some(vec![vuln("CVE-1", "openssl", "1.0"), vuln("CVE-2", "zlib", "2")])),
        layer("l2", Some(vec![])),
    ];
    let r = scan_image("app:1", metadata(), &layers, &ContainerScannerConfig::default());
    assert_eq!(r.image, "app:1");
    assert_eq!(r.metadata, metadata());
    assert_eq!(r.layers.len(), 3);
    assert_eq!(r.layers[0].id, "l0");
    assert_eq!(r.layers[0].size, 10);
    assert_eq!(r.layers[0].vulnerabilities, vec![vuln("CVE-1", "openssl", "1.0")]);
    assert_eq!(r.layers[1].vulnerabilities.len(), 2);
    assert_eq!(r.layers[2].vulnerabilities.len(), 0);
    assert_eq!(
        r.vulnerabilities,
        vec![vuln("CVE-1", "openssl", "1.0"), vuln("CVE-2", "zlib", "2")]
    );
}

#[test]
fn scan_image_skips_and_limits_layers() {
    let layers = vec![
        layer("l0", Some(vec![vuln("CVE-0", "a", "1")])),
        layer("l1", Some(vec![vuln("CVE-1", "b", "1")])),
        layer("l2", Some(vec![vuln("CVE-2", "c", "1")])),
        layer("l3", Some(vec![vuln("CVE-3", "d", "1")])),
    ];
    let mut c = ContainerScannerConfig::default();
    c.max_layers = 3;
    c.skip_layers = vec![1];
    let r = scan_image("app:1", metadata(), &layers, &c);
    let ids: Vec<String> = r.layers.iter().map(|l| l.id.clone()).collect();
    assert_eq!(ids, vec!["l0", "l2"]);
    assert_eq!(r.vulnerabilities, vec![vuln("CVE-0", "a", "1"), vuln("CVE-2", "c", "1")]);
}

#[test]
fn a_failed_layer_does_not_end_the_scan() {
    let layers = vec![
        layer("l0", None),
        layer("l1", Some(vec![vuln("CVE-1", "b", "1")])),
        layer("l2", None),
    ];
    let r = scan_image("app:1", metadata(), &layers, &ContainerScannerConfig::default());
    assert_eq!(r.layers.len(), 1);
    assert_eq!(r.layers[0].id, "l1");
    assert_eq!(r.vulnerabilities, vec![vuln("CVE-1", "b", "1")]);
    let none = scan_image("app:1", metadata(), &vec![], &ContainerScannerConfig::default());
    assert!(none.layers.is_empty());
    assert!(none.vulnerabilities.is_empty());
}

#[test]
fn dockerfile_from_images() {
    let content = "FROM rust:1.75 AS build\nRUN cargo build\nFROM   debian:bookworm-slim\nFROM scratch\nCOPY x y\n# FROM alpine:3.19\n";
    assert_eq!(
        scan_dockerfile(content),
        Ok(vec![
            "rust:1.75".to_string(),
            "debian:bookworm-slim".to_string(),
            "scratch".to_string(),
        ])
    );
    assert_eq!(scan_dockerfile(""), Ok(vec![]));
    assert_eq!(scan_dockerfile("RUN echo FROM here"), Ok(vec![]));
}

#[test]
fn every_from_instruction_gives_one_image() {
    let content = "FROM ubuntu\r\nFROM ghcr.io/org/app:1\r\n  from --platform=linux/amd64 node:18 as web\nFROM --platform=$BUILDPLATFORM --other=x golang@sha256:abc\nFROM localhost:5000/team/img\n";
    assert_eq!(
        scan_dockerfile(content),
        Ok(vec![
            "ubuntu".to_string(),
            "ghcr.io/org/app:1".to_string(),
            "node:18".to_string(),
            "golang@sha256:abc".to_string(),
            "localhost:5000/team/img".to_string(),
        ])
    );
}

#[test]
fn dockerfiles_of_a_directory() {
    assert!(wants_file("build/app.Dockerfile"));
    assert!(wants_file("Dockerfile"));
    assert!(wants_file("svc/web/Dockerfile"));
    assert!(!wants_file("app.dockerfile"));
    assert!(!wants_file("Dockerfile.md"));
    assert!(!wants_file("MyDockerfile"));
    let files = vec![
        SourceFile { path: "a.Dockerfile".to_string(), content: "FROM a:1\nFROM b".to_string() },
        SourceFile { path: "notes.txt".to_string(), content: "FROM c:3".to_string() },
        SourceFile { path: "x/Dockerfile".to_string(), content: "FROM d:4".to_string() },
    ];
    assert_eq!(
        scan_directory(&files),
        Ok(vec!["a:1".to_string(), "b".to_string(), "d:4".to_string()])
    );
    assert_eq!(scan_directory(&vec![]), Ok(vec![]));
}

#[test]
fn container_error_messages() {
    assert_eq!(
        ContainerScanError::PullError("x".to_string()).message(),
        "Failed to pull image: x"
    );
    assert_eq!(
        ContainerScanError::LayerError("l".to_string()).message(),
        "Failed to extract layer: l"
    );
    assert_eq!(
        ContainerScanError::VulnerabilityError("v".to_string()).message(),
        "Failed to check vulnerabilities: v"
    );
    assert_eq!(ContainerScanError::CacheError("c".to_string()).message(), "Cache error: c");
    assert_eq!(ContainerScanError::Timeout.message(), "Timeout while scanning container");
    assert_eq!(
        ContainerScanError::InvalidImage("i".to_string()).message(),
        "Invalid image format: i"
    );
}

#[test]
fn image_findings_as_issues() {
    let layers = vec![layer("l0", Some(vec![vuln("CVE-1", "openssl", "1.0")]))];
    let r = scan_image("app:1", metadata(), &layers, &ContainerScannerConfig::default());
    let issues = image_issues(&r);
    assert_eq!(issues.len(), 1);
    assert_eq!(issues[0].id, "CVE-1");
    assert_eq!(issues[0].scanner, "image");
    assert_eq!(issues[0].category, "vulnerability");
    assert_eq!(issues[0].severity, Severity::High);
    assert_eq!(issues[0].description, "CVE-1 in openssl");
    assert_eq!(issues[0].location.as_ref().unwrap().path, "app:1");
    assert_eq!(issues[0].fix, Some("9.9".to_string()));
    assert_eq!(issues[0].references, vec!["https://example.org".to_string()]);
    assert!(issues[0].is_well_formed());
}
