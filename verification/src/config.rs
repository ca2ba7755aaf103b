//! What a run is asked to do: the scan mode, the output format, the number
//! of parallel jobs and the target.

use crate::outside::available_cores;
use crate::text::fold_case;
use crate::text::lowercase;
use std::sync::Arc;
use vstd::prelude::*;

verus! {

/// Which scanners a run uses.
#[derive(Debug, Clone, Copy, PartialEq, Eq, Structural)]
pub enum ScanMode {
    Dependencies,
    Image,
    Secrets,
    Config,
    All,
}

/// One of the four scanning domains.
#[derive(Debug, Clone, Copy, PartialEq, Eq, Hash, Structural)]
pub enum ScannerKind {
    Dependencies,
    Image,
    Secrets,
    Config,
}

/// The encoding a report is written in.
#[derive(Debug, Clone, Copy, PartialEq, Eq, Structural)]
pub enum OutputFormat {
    Pretty,
    Json,
    Sarif,
    Markdown,
    Html,
    Junit,
}

/// The scan mode a lower-case word names, if it names one.
pub open spec fn mode_named(word: Seq<char>) -> Option<ScanMode> {
    if word == "dependencies"@ || word == "deps"@ {
        Some(ScanMode::Dependencies)
    } else if word == "image"@ {
        Some(ScanMode::Image)
    } else if word == "secrets"@ {
        Some(ScanMode::Secrets)
    } else if word == "config"@ {
        Some(ScanMode::Config)
    } else if word == "all"@ {
        Some(ScanMode::All)
    } else {
        None
    }
}

/// The output format a lower-case word names, if it names one.
pub open spec fn format_named(word: Seq<char>) -> Option<OutputFormat> {
    if word == "pretty"@ {
        Some(OutputFormat::Pretty)
    } else if word == "json"@ {
        Some(OutputFormat::Json)
    } else if word == "sarif"@ {
        Some(OutputFormat::Sarif)
    } else {
        None
    }
}

impl ScanMode {
    /// Whether a run in this mode uses the scanner of the given kind: `All`
    /// uses every scanner, any other mode its own.
    pub open spec fn includes(self, kind: ScannerKind) -> bool {
        match self {
            ScanMode::All => true,
            ScanMode::Dependencies => kind == ScannerKind::Dependencies,
            ScanMode::Image => kind == ScannerKind::Image,
            ScanMode::Secrets => kind == ScannerKind::Secrets,
            ScanMode::Config => kind == ScannerKind::Config,
        }
    }

    /// Whether a run in this mode uses the scanner of the given kind.
    pub fn uses(&self, kind: ScannerKind) -> (b: bool)
        ensures
            b == self.includes(kind),
    {
        match self {
            ScanMode::All => true,
            ScanMode::Dependencies => kind == ScannerKind::Dependencies,
            ScanMode::Image => kind == ScannerKind::Image,
            ScanMode::Secrets => kind == ScannerKind::Secrets,
            ScanMode::Config => kind == ScannerKind::Config,
        }
    }

    /// Reads a scan mode from its name, whatever the case of its ASCII
    /// letters: `dependencies` or `deps`, `image`, `secrets`, `config`,
    /// `all`. Any other text names no mode.
    pub fn parse(s: &str) -> (r: Option<ScanMode>)
        ensures
            r == mode_named(fold_case(s@)),
    {
        let word = lowercase(s);
        if word == "dependencies".to_owned() || word == "deps".to_owned() {
            Some(ScanMode::Dependencies)
        } else if word == "image".to_owned() {
            Some(ScanMode::Image)
        } else if word == "secrets".to_owned() {
            Some(ScanMode::Secrets)
        } else if word == "config".to_owned() {
            Some(ScanMode::Config)
        } else if word == "all".to_owned() {
            Some(ScanMode::All)
        } else {
            None
        }
    }
}

impl OutputFormat {
    /// Reads an output format from its name, whatever the case of its ASCII
    /// letters: `pretty`, `json` or `sarif`. Any other text names no format.
    pub fn parse(s: &str) -> (r: Option<OutputFormat>)
        ensures
            r == format_named(fold_case(s@)),
    {
        let word = lowercase(s);
        if word == "pretty".to_owned() {
            Some(OutputFormat::Pretty)
        } else if word == "json".to_owned() {
            Some(OutputFormat::Json)
        } else if word == "sarif".to_owned() {
            Some(OutputFormat::Sarif)
        } else {
            None
        }
    }

    /// The name of this format.
    pub fn name(&self) -> (s: &'static str)
        ensures
            s@ == self.name_text(),
    {
        match self {
            OutputFormat::Pretty => "pretty",
            OutputFormat::Json => "json",
            OutputFormat::Sarif => "sarif",
            OutputFormat::Markdown => "markdown",
            OutputFormat::Html => "html",
            OutputFormat::Junit => "junit",
        }
    }

    /// The name of a format.
    pub open spec fn name_text(self) -> Seq<char> {
        match self {
            OutputFormat::Pretty => "pretty"@,
            OutputFormat::Json => "json"@,
            OutputFormat::Sarif => "sarif"@,
            OutputFormat::Markdown => "markdown"@,
            OutputFormat::Html => "html"@,
            OutputFormat::Junit => "junit"@,
        }
    }
}

/// The arguments of the command line.
#[derive(Debug, PartialEq, Eq)]
pub struct CliArgs {
    /// The path or image to scan.
    pub target: String,
    pub mode: ScanMode,
    pub output: OutputFormat,
    /// The number of parallel jobs.
    pub jobs: usize,
    pub verbose: bool,
}

/// The configuration of a run.
#[derive(Debug, PartialEq, Eq)]
pub struct RuntimeConfig {
    pub scan_mode: ScanMode,
    pub output_format: OutputFormat,
    pub parallel_jobs: usize,
    pub verbose: bool,
    pub target_path: String,
}

impl Clone for RuntimeConfig {
    fn clone(&self) -> (r: RuntimeConfig)
        ensures
            r == *self,
    {
        RuntimeConfig {
            scan_mode: self.scan_mode,
            output_format: self.output_format,
            parallel_jobs: self.parallel_jobs,
            verbose: self.verbose,
            target_path: self.target_path.clone(),
        }
    }
}

impl From<CliArgs> for RuntimeConfig {
    fn from(args: CliArgs) -> (r: RuntimeConfig) {
        RuntimeConfig {
            scan_mode: args.mode,
            output_format: args.output,
            parallel_jobs: args.jobs,
            verbose: args.verbose,
            target_path: args.target,
        }
    }
}

impl vstd::std_specs::convert::FromSpecImpl<CliArgs> for RuntimeConfig {
    open spec fn obeys_from_spec() -> bool {
        true
    }

    open spec fn from_spec(args: CliArgs) -> RuntimeConfig {
        RuntimeConfig {
            scan_mode: args.mode,
            output_format: args.output,
            parallel_jobs: args.jobs,
            verbose: args.verbose,
            target_path: args.target,
        }
    }
}

impl RuntimeConfig {
    /// A configuration can be run when it asks for at least one job and
    /// names a target.
    pub open spec fn valid(self) -> bool {
        self.parallel_jobs >= 1 && self.target_path@.len() > 0
    }

    /// Whether this configuration can be run.
    pub fn is_valid(&self) -> (b: bool)
        ensures
            b == self.valid(),
    {
        self.parallel_jobs >= 1 && !self.target_path.as_str().is_empty()
    }
}

/// Builds a `RuntimeConfig` step by step.
pub struct ConfigBuilder {
    config: RuntimeConfig,
}

impl ConfigBuilder {
    /// The configuration that `build` would return now.
    pub closed spec fn pending(self) -> RuntimeConfig {
        self.config
    }

    /// A builder with the defaults: every scanner, pretty output, not
    /// verbose, the current directory as target, and one job per core that
    /// the machine offers.
    pub fn new() -> (b: ConfigBuilder)
        ensures
            b.pending().scan_mode == ScanMode::All,
            b.pending().output_format == OutputFormat::Pretty,
            b.pending().parallel_jobs >= 1,
            !b.pending().verbose,
            b.pending().target_path@ == "."@,
    {
        ConfigBuilder::with_jobs(available_cores())
    }

    /// A builder with the defaults and the given number of jobs.
    pub fn with_jobs(jobs: usize) -> (b: ConfigBuilder)
        ensures
            b.pending().scan_mode == ScanMode::All,
            b.pending().output_format == OutputFormat::Pretty,
            b.pending().parallel_jobs == jobs,
            !b.pending().verbose,
            b.pending().target_path@ == "."@,
    {
        ConfigBuilder {
            config: RuntimeConfig {
                scan_mode: ScanMode::All,
                output_format: OutputFormat::Pretty,
                parallel_jobs: jobs,
                verbose: false,
                target_path: ".".to_owned(),
            },
        }
    }

    /// Sets the scan mode.
    pub fn scan_mode(self, mode: ScanMode) -> (b: ConfigBuilder)
        ensures
            b.pending() == (RuntimeConfig { scan_mode: mode, ..self.pending() }),
    {
        let mut b = self;
        b.config.scan_mode = mode;
        b
    }

    /// Sets the output format.
    pub fn output_format(self, format: OutputFormat) -> (b: ConfigBuilder)
        ensures
            b.pending() == (RuntimeConfig { output_format: format, ..self.pending() }),
    {
        let mut b = self;
        b.config.output_format = format;
        b
    }

    /// Sets the number of parallel jobs.
    pub fn parallel_jobs(self, jobs: usize) -> (b: ConfigBuilder)
        ensures
            b.pending() == (RuntimeConfig { parallel_jobs: jobs, ..self.pending() }),
    {
        let mut b = self;
        b.config.parallel_jobs = jobs;
        b
    }

    /// Sets whether the run is verbose.
    pub fn verbose(self, verbose: bool) -> (b: ConfigBuilder)
        ensures
            b.pending() == (RuntimeConfig { verbose, ..self.pending() }),
    {
        let mut b = self;
        b.config.verbose = verbose;
        b
    }

    /// Sets the target of the scan.
    pub fn target_path(self, path: String) -> (b: ConfigBuilder)
        ensures
            b.pending() == (RuntimeConfig { target_path: path, ..self.pending() }),
    {
        let mut b = self;
        b.config.target_path = path;
        b
    }

    /// The configuration that was built.
    pub fn build(self) -> (config: RuntimeConfig)
        ensures
            config == self.pending(),
    {
        self.config
    }
}

/// The settings of the scanning context.
#[derive(Debug, Clone, Copy, PartialEq, Eq)]
pub struct ScanConfig {
    pub output_format: OutputFormat,
    pub parallel_jobs: usize,
    pub verbose: bool,
}

impl ScanConfig {
    /// The default settings with the given number of jobs: pretty output,
    /// not verbose.
    pub fn with_jobs(jobs: usize) -> (c: ScanConfig)
        ensures
            c == (ScanConfig {
                output_format: OutputFormat::Pretty,
                parallel_jobs: jobs,
                verbose: false,
            }),
    {
        ScanConfig { output_format: OutputFormat::Pretty, parallel_jobs: jobs, verbose: false }
    }
}

impl Default for ScanConfig {
    /// Pretty output, not verbose, one job per core that the machine offers.
    fn default() -> (c: ScanConfig)
        ensures
            c.output_format == OutputFormat::Pretty,
            c.parallel_jobs >= 1,
            !c.verbose,
    {
        ScanConfig::with_jobs(available_cores())
    }
}

/// The context a scan runs in.
pub struct ScannerContext {
    pub config: Arc<ScanConfig>,
}

impl ScannerContext {
    /// A context with the given settings.
    pub fn new(config: ScanConfig) -> (ctx: ScannerContext)
        ensures
            *ctx.config == config,
    {
        ScannerContext { config: Arc::new(config) }
    }

    /// The number of scan tasks that may run at once.
    pub fn parallel_jobs(&self) -> (n: usize)
        ensures
            n == self.config.parallel_jobs,
    {
        self.config.parallel_jobs
    }
}

} // verus!
