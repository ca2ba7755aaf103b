use rustguard::deps::DepScanError;
use rustguard::lockfile::detect_format;
use rustguard::lockfile::parse_cargo_lock;
use rustguard::lockfile::parse_lines;
use rustguard::lockfile::parse_lockfile;
use rustguard::lockfile::LockfileFormat;
use rustguard::model::Dependency;
use rustguard::npm::parse_package_lock;

fn dep(name: &str, version: &str, ecosystem: &str) -> Dependency {
    Dependency {
        name: name.to_string(),
        version: version.to_string(),
        ecosystem: ecosystem.to_string(),
    }
}

fn lines(text: &[&str]) -> Vec<String> {
    text.iter().map(|l| l.to_string()).collect()
}

#[test]
fn format_by_file_name() {
    assert_eq!(detect_format("Cargo.lock"), Some(LockfileFormat::CargoLock));
    assert_eq!(detect_format("a/b/Cargo.lock"), Some(LockfileFormat::CargoLock));
    assert_eq!(detect_format("x/requirements.txt"), Some(LockfileFormat::Requirements));
    assert_eq!(detect_format("go.sum"), Some(LockfileFormat::GoSum));
    assert_eq!(detect_format("web/package-lock.json"), Some(LockfileFormat::PackageLock));
    assert_eq!(detect_format("package.json"), None);
    assert_eq!(detect_format("cargo.lock"), None);
    assert_eq!(detect_format("Cargo.lock/other"), None);
    assert_eq!(detect_format("my-requirements.txt"), None);
    assert_eq!(detect_format(""), None);
}

#[test]
fn requirements_lines() {
    let l = lines(&[
        "# comment",
        "",
        "requests==2.31.0",
        "  flask == 3.0.0  ",
        "\t",
        "  # indented comment",
        "pkg==1.0==2",
    ]);
    assert_eq!(
        parse_lines(LockfileFormat::Requirements, &l),
        Ok(vec![
            dep("requests", "2.31.0", "PyPI"),
            dep("flask", "3.0.0", "PyPI"),
            dep("pkg", "1.0==2", "PyPI"),
        ])
    );
}

#[test]
fn requirements_malformed_lines() {
    for bad in ["requests", "requests>=2", "==1.0", "name==", "a=b", "name= =1", "=" ] {
        let l = lines(&["ok==1", bad, "also bad"]);
        assert_eq!(
            parse_lines(LockfileFormat::Requirements, &l),
            Err(DepScanError::ParseError(bad.to_string())),
            "line {:?}",
            bad
        );
    }
}

#[test]
fn go_sum_lines() {
    let l = lines(&[
        "github.com/pkg/errors v0.9.1 h1:abc=",
        "github.com/pkg/errors v0.9.1/go.mod h1:def=",
        "",
        "golang.org/x/sys v0.1.0",
    ]);
    assert_eq!(
        parse_lines(LockfileFormat::GoSum, &l),
        Ok(vec![
            dep("github.com/pkg/errors", "v0.9.1", "Go"),
            dep("golang.org/x/sys", "v0.1.0", "Go"),
        ])
    );
    assert_eq!(
        parse_lines(LockfileFormat::GoSum, &lines(&["onlymodule"])),
        Err(DepScanError::ParseError("onlymodule".to_string()))
    );
    assert_eq!(
        parse_lines(LockfileFormat::GoSum, &lines(&["m  h1:x"])),
        Err(DepScanError::ParseError("m  h1:x".to_string()))
    );
}

#[test]
fn cargo_lock_packages() {
    let text = "# This file is automatically @generated by Cargo.\nversion = 3\n\n[[package]]\nname = \"aho-corasick\"\nversion = \"1.1.2\"\nsource = \"registry+https://github.com/rust-lang/crates.io-index\"\ndependencies = [\n \"memchr\",\n]\n\n[[package]]\nname = \"memchr\"\nversion = \"2.7.1\"\n\n[metadata]\nname = \"not a package\"\n";
    assert_eq!(
        parse_lockfile("Cargo.lock", text),
        Ok(vec![
            dep("aho-corasick", "1.1.2", "crates.io"),
            dep("memchr", "2.7.1", "crates.io"),
        ])
    );
    assert_eq!(parse_cargo_lock(&vec![]), Ok(vec![]));
    assert_eq!(parse_cargo_lock(&lines(&["version = 3"])), Ok(vec![]));
}

#[test]
fn cargo_lock_package_without_version() {
    let l = lines(&["[[package]]", "name = \"a\"", "[[package]]", "name = \"b\"", "version = \"1\""]);
    assert_eq!(
        parse_cargo_lock(&l),
        Err(DepScanError::ParseError("package without name or version".to_string()))
    );
    assert_eq!(
        parse_cargo_lock(&lines(&["[[package]]"])),
        Err(DepScanError::ParseError("package without name or version".to_string()))
    );
}

#[test]
fn unknown_lockfile_is_refused() {
    assert_eq!(
        parse_lockfile("package.json", "{}"),
        Err(DepScanError::ParseError("Unsupported lockfile format".to_string()))
    );
}

#[test]
fn parse_lockfile_routes_by_name() {
    assert_eq!(
        parse_lockfile("x/requirements.txt", "a==1\r\nb==2"),
        Ok(vec![dep("a", "1", "PyPI"), dep("b", "2", "PyPI")])
    );
    assert_eq!(
        parse_lockfile("go.sum", "m v1 h1:x=\n"),
        Ok(vec![dep("m", "v1", "Go")])
    );
    assert_eq!(parse_lockfile("requirements.txt", ""), Ok(vec![]));
}

#[test]
fn parsing_is_idempotent() {
    let text = "a==1\nb==2\n";
    assert_eq!(
        parse_lockfile("requirements.txt", text),
        parse_lockfile("requirements.txt", text)
    );
}

fn malformed_npm() -> Result<Vec<Dependency>, DepScanError> {
    Err(DepScanError::ParseError("malformed package-lock.json".to_string()))
}

#[test]
fn package_lock_with_packages() {
    let text = r#"{
  "name": "app",
  "version": "0.1.0",
  "lockfileVersion": 3,
  "requires": true,
  "packages": {
    "": {
      "name": "app",
      "version": "0.1.0",
      "dependencies": {
        "left-pad": "^1.0.0",
        "version": "^2.0.0"
      }
    },
    "node_modules/left-pad": {
      "version": "1.0.0",
      "resolved": "https://registry.npmjs.org/left-pad/-/left-pad-1.0.0.tgz",
      "integrity": "sha512-x",
      "engines": { "node": ">=4" }
    },
    "node_modules/@scope/tool": {
      "version": "2.3.4",
      "dev": true,
      "dependencies": { "left-pad": "^1.0.0" }
    },
    "node_modules/@scope/tool/node_modules/left-pad": {
      "version": "1.3.0"
    },
    "node_modules/linked": {
      "resolved": "packages/linked",
      "link": true
    }
  }
}
"#;
    assert_eq!(
        parse_lockfile("web/package-lock.json", text),
        Ok(vec![
            dep("left-pad", "1.0.0", "npm"),
            dep("@scope/tool", "2.3.4", "npm"),
            dep("left-pad", "1.3.0", "npm"),
        ])
    );
}

#[test]
fn package_lock_on_one_line() {
    let text = r#"{"packages":{"node_modules/left-pad":{"version":"1.0.0"}}}"#;
    assert_eq!(parse_package_lock(text), Ok(vec![dep("left-pad", "1.0.0", "npm")]));
}

#[test]
fn package_lock_with_dependencies_only() {
    let text = r#"{
  "name": "app",
  "version": "1.0.0",
  "lockfileVersion": 1,
  "dependencies": {
    "a": {
      "version": "1.0.0",
      "requires": { "b": "^2.0.0" },
      "dependencies": {
        "b": { "version": "2.1.0" }
      }
    },
    "c": { "version": "3.0.0", "dev": true }
  }
}"#;
    assert_eq!(
        parse_package_lock(text),
        Ok(vec![dep("a", "1.0.0", "npm"), dep("b", "2.1.0", "npm"), dep("c", "3.0.0", "npm")])
    );
}

#[test]
fn package_lock_with_both_lists_counts_packages_once() {
    let text = r#"{
  "lockfileVersion": 2,
  "packages": {
    "": { "version": "1.0.0" },
    "node_modules/a": { "version": "1.0.0" }
  },
  "dependencies": {
    "a": { "version": "1.0.0" }
  }
}"#;
    assert_eq!(parse_package_lock(text), Ok(vec![dep("a", "1.0.0", "npm")]));
}

#[test]
fn package_lock_without_packages() {
    assert_eq!(parse_package_lock("{}"), Ok(vec![]));
    assert_eq!(parse_package_lock(r#"{"packages": {}}"#), Ok(vec![]));
    assert_eq!(
        parse_package_lock(r#"{"packages": {"node_modules/a": {"version": ""}}}"#),
        Ok(vec![])
    );
    assert_eq!(
        parse_package_lock(r#"{"packages": {"node_modules/a": {"version": 1}}}"#),
        Ok(vec![])
    );
}

#[test]
fn package_lock_with_escapes_in_strings() {
    let text = r#"{"packages": {"node_modules/a": {"note": "a \" } ] \\", "version": "1.0.0"}}}"#;
    assert_eq!(parse_package_lock(text), Ok(vec![dep("a", "1.0.0", "npm")]));
}

#[test]
fn malformed_package_lock_is_refused() {
    for bad in [
        "",
        "   ",
        "{",
        "}",
        "{]",
        "[}",
        r#"{"packages": {"#,
        r#"{"a": "open}"#,
        r#"{: 1}"#,
        r#"{"packages": {"node_modules/a": {"version": "1.0.0"}}"#,
        "nothing here",
    ] {
        assert_eq!(parse_package_lock(bad), malformed_npm(), "{:?}", bad);
    }
    assert_eq!(parse_lockfile("package-lock.json", "{"), malformed_npm());
}

#[test]
fn line_formats_only_for_line_readers() {
    assert_eq!(
        parse_lines(LockfileFormat::PackageLock, &lines(&["a==1"])),
        Err(DepScanError::ParseError("a==1".to_string()))
    );
    assert_eq!(parse_lines(LockfileFormat::CargoLock, &vec![]), Ok(vec![]));
}
