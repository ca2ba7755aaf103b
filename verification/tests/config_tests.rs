use rustguard::config::CliArgs;
use rustguard::config::ConfigBuilder;
use rustguard::config::OutputFormat;
use rustguard::config::RuntimeConfig;
use rustguard::config::ScanConfig;
use rustguard::config::ScanMode;
use rustguard::config::ScannerContext;
use rustguard::config::ScannerKind;

#[test]
fn scan_mode_parses_its_names() {
    assert_eq!(ScanMode::parse("dependencies"), Some(ScanMode::Dependencies));
    assert_eq!(ScanMode::parse("deps"), Some(ScanMode::Dependencies));
    assert_eq!(ScanMode::parse("image"), Some(ScanMode::Image));
    assert_eq!(ScanMode::parse("secrets"), Some(ScanMode::Secrets));
    assert_eq!(ScanMode::parse("config"), Some(ScanMode::Config));
    assert_eq!(ScanMode::parse("all"), Some(ScanMode::All));
    assert_eq!(ScanMode::parse("ALL"), Some(ScanMode::All));
    assert_eq!(ScanMode::parse("DePs"), Some(ScanMode::Dependencies));
}

#[test]
fn scan_mode_refuses_other_words() {
    assert_eq!(ScanMode::parse(""), None);
    assert_eq!(ScanMode::parse("everything"), None);
    assert_eq!(ScanMode::parse(" all"), None);
    assert_eq!(ScanMode::parse("dep"), None);
}

#[test]
fn output_format_parses_its_names() {
    assert_eq!(OutputFormat::parse("pretty"), Some(OutputFormat::Pretty));
    assert_eq!(OutputFormat::parse("JSON"), Some(OutputFormat::Json));
    assert_eq!(OutputFormat::parse("Sarif"), Some(OutputFormat::Sarif));
    assert_eq!(OutputFormat::parse("html"), None);
    assert_eq!(OutputFormat::parse("xml"), None);
    assert_eq!(OutputFormat::Markdown.name(), "markdown");
    assert_eq!(OutputFormat::Junit.name(), "junit");
}

#[test]
fn scan_mode_uses_its_scanners() {
    let kinds = [
        ScannerKind::Dependencies,
        ScannerKind::Image,
        ScannerKind::Secrets,
        ScannerKind::Config,
    ];
    for k in kinds {
        assert!(ScanMode::All.uses(k));
    }
    assert!(ScanMode::Secrets.uses(ScannerKind::Secrets));
    assert!(!ScanMode::Secrets.uses(ScannerKind::Config));
    assert!(ScanMode::Dependencies.uses(ScannerKind::Dependencies));
    assert!(!ScanMode::Image.uses(ScannerKind::Dependencies));
    assert!(ScanMode::Config.uses(ScannerKind::Config));
}

#[test]
fn builder_defaults_and_setters() {
    let c = ConfigBuilder::new().build();
    assert_eq!(c.scan_mode, ScanMode::All);
    assert_eq!(c.output_format, OutputFormat::Pretty);
    assert!(c.parallel_jobs >= 1);
    assert!(!c.verbose);
    assert_eq!(c.target_path, ".");

    let c = ConfigBuilder::with_jobs(3)
        .scan_mode(ScanMode::Secrets)
        .output_format(OutputFormat::Json)
        .parallel_jobs(7)
        .verbose(true)
        .target_path("/srv/app".to_string())
        .build();
    assert_eq!(
        c,
        RuntimeConfig {
            scan_mode: ScanMode::Secrets,
            output_format: OutputFormat::Json,
            parallel_jobs: 7,
            verbose: true,
            target_path: "/srv/app".to_string(),
        }
    );
    assert_eq!(c.clone(), c);
}

#[test]
fn runtime_config_from_cli_args() {
    let args = CliArgs {
        target: "repo".to_string(),
        mode: ScanMode::Image,
        output: OutputFormat::Sarif,
        jobs: 2,
        verbose: true,
    };
    let c = RuntimeConfig::from(args);
    assert_eq!(c.scan_mode, ScanMode::Image);
    assert_eq!(c.output_format, OutputFormat::Sarif);
    assert_eq!(c.parallel_jobs, 2);
    assert!(c.verbose);
    assert_eq!(c.target_path, "repo");
    assert!(c.is_valid());
}

#[test]
fn runtime_config_validity() {
    assert!(!ConfigBuilder::with_jobs(0).build().is_valid());
    assert!(!ConfigBuilder::with_jobs(1).target_path(String::new()).build().is_valid());
    assert!(ConfigBuilder::with_jobs(1).build().is_valid());
}

#[test]
fn scan_config_and_context() {
    let d = ScanConfig::default();
    assert_eq!(d.output_format, OutputFormat::Pretty);
    assert!(d.parallel_jobs >= 1);
    assert!(!d.verbose);
    let c = ScanConfig::with_jobs(4);
    assert_eq!(c.parallel_jobs, 4);
    let ctx = ScannerContext::new(c);
    assert_eq!(*ctx.config, c);
    assert_eq!(ctx.parallel_jobs(), 4);
}
