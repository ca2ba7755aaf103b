//! The configuration scanner: the type of a file, the rules and profiles
//! that apply to it, and the findings of their checks.

use crate::model::clone_opt_string;
use crate::model::clone_strings;
use crate::model::Issue;
use crate::model::IssueView;
use crate::model::Location;
use crate::model::LocationView;
use crate::model::SourceFile;
use crate::model::SourceFileView;
use crate::normalize::location_in;
use crate::outside::compile_pattern;
use crate::outside::first_match;
use crate::outside::first_match_of;
use crate::outside::pattern_compiles;
use crate::outside::regex_source;
use crate::report::contains_text;
use crate::sequences::lemma_filter_map_step;
use crate::sequences::lemma_filter_step;
use crate::sequences::lemma_flat_map_step;
use crate::sequences::lemma_present_none;
use crate::sequences::lemma_present_step;
use crate::sequences::those_present;
use crate::severity::Severity;
use crate::syntax::is_malformed;
use crate::syntax::malformed;
use crate::text::chars_of;
use crate::text::decimal;
use crate::text::decimal_of;
use crate::text::extension;
use crate::text::extension_of;
use crate::text::lines_of;
use crate::text::split_lines;
use vstd::prelude::*;
use vstd::string::StringSliceAdditionalSpecFns;

verus! {

/// A check of configuration files: a regex that is searched in each line
/// of the files it applies to.
#[derive(Debug, PartialEq, Eq)]
pub struct Rule {
    pub id: String,
    pub category: String,
    pub description: String,
    pub severity: Severity,
    /// The file types the rule applies to; empty for every type.
    pub file_types: Vec<String>,
    pub pattern: String,
    pub fix: Option<String>,
    pub references: Vec<String>,
}

/// What a `Rule` holds, with its texts as sequences of characters.
pub struct RuleView {
    pub id: Seq<char>,
    pub category: Seq<char>,
    pub description: Seq<char>,
    pub severity: Severity,
    pub file_types: Seq<Seq<char>>,
    pub pattern: Seq<char>,
    pub fix: Option<Seq<char>>,
    pub references: Seq<Seq<char>>,
}

impl View for Rule {
    type V = RuleView;

    open spec fn view(&self) -> RuleView {
        RuleView {
            id: self.id@,
            category: self.category@,
            description: self.description@,
            severity: self.severity,
            file_types: self.file_types.deep_view(),
            pattern: self.pattern@,
            fix: self.fix.deep_view(),
            references: self.references.deep_view(),
        }
    }
}

impl DeepView for Rule {
    type V = RuleView;

    open spec fn deep_view(&self) -> RuleView {
        self@
    }
}

impl Clone for Rule {
    fn clone(&self) -> (r: Rule)
        ensures
            r@ == self@,
    {
        Rule {
            id: self.id.clone(),
            category: self.category.clone(),
            description: self.description.clone(),
            severity: self.severity,
            file_types: clone_strings(&self.file_types),
            pattern: self.pattern.clone(),
            fix: clone_opt_string(&self.fix),
            references: clone_strings(&self.references),
        }
    }
}

/// A named bundle of rules that stands for a compliance standard.
#[derive(Debug, PartialEq, Eq)]
pub struct Profile {
    pub name: String,
    /// The file types the profile applies to; empty for every type.
    pub file_types: Vec<String>,
    pub rules: Vec<Rule>,
}

/// What a `Profile` holds, with its texts as sequences of characters.
pub struct ProfileView {
    pub name: Seq<char>,
    pub file_types: Seq<Seq<char>>,
    pub rules: Seq<RuleView>,
}

impl View for Profile {
    type V = ProfileView;

    open spec fn view(&self) -> ProfileView {
        ProfileView {
            name: self.name@,
            file_types: self.file_types.deep_view(),
            rules: self.rules.deep_view(),
        }
    }
}

impl DeepView for Profile {
    type V = ProfileView;

    open spec fn deep_view(&self) -> ProfileView {
        self@
    }
}

/// The settings of the configuration scanner.
#[derive(Debug, PartialEq, Eq)]
pub struct ConfigScannerConfig {
    pub rules: Vec<Rule>,
    pub profiles: Vec<Profile>,
    pub timeout: u64,
    pub ignore_patterns: Vec<String>,
    /// Files with more bytes than this are not scanned.
    pub max_file_size: u64,
    pub check_syntax: bool,
    pub validate_schema: bool,
    pub schema_dir: Option<String>,
}

impl Default for ConfigScannerConfig {
    /// No rules and no profiles, a timeout of 10 seconds, files of up to one
    /// mebibyte, syntax checked, schemas not validated.
    fn default() -> (c: ConfigScannerConfig)
        ensures
            c.rules@.len() == 0,
            c.profiles@.len() == 0,
            c.timeout == 10,
            c.ignore_patterns@.len() == 0,
            c.max_file_size == 1024 * 1024,
            c.check_syntax,
            !c.validate_schema,
            c.schema_dir is None,
    {
        ConfigScannerConfig {
            rules: Vec::new(),
            profiles: Vec::new(),
            timeout: 10,
            ignore_patterns: Vec::new(),
            max_file_size: 1024 * 1024,
            check_syntax: true,
            validate_schema: false,
            schema_dir: None,
        }
    }
}

/// Why the scan of a configuration file failed.
#[derive(Debug, PartialEq, Eq)]
pub enum ConfigScanError {
    ParseError(String),
    SchemaError(String),
    FileTooLarge(u64),
    PatternError(String),
    RuleError(String),
    Timeout,
}

impl ConfigScanError {
    /// The message of an error.
    pub open spec fn message_text(self) -> Seq<char> {
        match self {
            ConfigScanError::ParseError(d) => "Failed to parse configuration: "@ + d@,
            ConfigScanError::SchemaError(d) => "Failed to validate schema: "@ + d@,
            ConfigScanError::FileTooLarge(n) => "File too large: "@ + decimal_of(n as nat)
                + " bytes"@,
            ConfigScanError::PatternError(d) => "Pattern error: "@ + d@,
            ConfigScanError::RuleError(d) => "Rule error: "@ + d@,
            ConfigScanError::Timeout => "Timeout while scanning configuration"@,
        }
    }

    /// The message of this error.
    pub fn message(&self) -> (m: String)
        ensures
            m@ == self.message_text(),
    {
        match self {
            ConfigScanError::ParseError(d) => "Failed to parse configuration: ".to_owned().concat(
                d.as_str(),
            ),
            ConfigScanError::SchemaError(d) => "Failed to validate schema: ".to_owned().concat(
                d.as_str(),
            ),
            ConfigScanError::FileTooLarge(n) => "File too large: ".to_owned().concat(
                decimal(*n).as_str(),
            ).concat(" bytes"),
            ConfigScanError::PatternError(d) => "Pattern error: ".to_owned().concat(d.as_str()),
            ConfigScanError::RuleError(d) => "Rule error: ".to_owned().concat(d.as_str()),
            ConfigScanError::Timeout => "Timeout while scanning configuration".to_owned(),
        }
    }
}

/// What is known of a scanned file.
#[derive(Debug, PartialEq, Eq)]
pub struct ConfigMetadata {
    pub file_type: String,
    /// The size of the file in bytes.
    pub size: u64,
    /// When the file was scanned.
    pub modified: String,
}

/// The result of the scan of one configuration file.
#[derive(Debug, PartialEq, Eq)]
pub struct ConfigScanResult {
    pub file: String,
    pub issues: Vec<Issue>,
    pub metadata: ConfigMetadata,
}

/// A text without the white space at its start.
pub open spec fn skip_blank(s: Seq<char>) -> Seq<char>
    decreases s.len(),
{
    if s.len() > 0 && (s[0] == ' ' || s[0] == '\t' || s[0] == '\n' || s[0] == '\r') {
        skip_blank(s.skip(1))
    } else {
        s
    }
}

/// The type that the text of a file suggests: `json` where it starts, after
/// white space, with a brace or a bracket; `unknown` otherwise.
pub open spec fn sniffed_type(content: Seq<char>) -> Seq<char> {
    let t = skip_blank(content);
    if t.len() > 0 && (t[0] == '{' || t[0] == '[') {
        "json"@
    } else {
        "unknown"@
    }
}

/// The type of a file: by its extension, `yaml` for `yaml` and `yml`,
/// `json` for `json`, `terraform` for `tf`; with any other extension or
/// none, what its text suggests.
pub open spec fn file_type_of(path: Seq<char>, content: Seq<char>) -> Seq<char> {
    match extension_of(path) {
        Some(e) => if e == "yaml"@ || e == "yml"@ {
            "yaml"@
        } else if e == "json"@ {
            "json"@
        } else if e == "tf"@ {
            "terraform"@
        } else {
            sniffed_type(content)
        },
        None => sniffed_type(content),
    }
}

fn sniff_type(content: &str) -> (t: String)
    ensures
        t@ == sniffed_type(content@),
{
    let chars = chars_of(content);
    let mut i: usize = 0;
    assert(chars@.skip(0) =~= chars@);
    while i < chars.len() && (chars[i] == ' ' || chars[i] == '\t' || chars[i] == '\n' || chars[i]
        == '\r')
        invariant
            i <= chars.len(),
            skip_blank(chars@) == skip_blank(chars@.skip(i as int)),
        decreases chars.len() - i,
    {
        assert(chars@.skip(i as int).skip(1) =~= chars@.skip(i + 1));
        i += 1;
    }
    if i < chars.len() && (chars[i] == '{' || chars[i] == '[') {
        "json".to_owned()
    } else {
        "unknown".to_owned()
    }
}

/// Finds the type of a file from its path and, where the path does not
/// tell, from its text.
pub fn detect_file_type(path: &str, content: &str) -> (t: String)
    ensures
        t@ == file_type_of(path@, content@),
{
    match extension(path) {
        Some(e) => {
            if e == "yaml".to_owned() || e == "yml".to_owned() {
                "yaml".to_owned()
            } else if e == "json".to_owned() {
                "json".to_owned()
            } else if e == "tf".to_owned() {
                "terraform".to_owned()
            } else {
                sniff_type(content)
            }
        },
        None => sniff_type(content),
    }
}

/// Whether a list of file types lets a file type through: an empty list
/// lets every type through.
pub open spec fn applies(file_types: Seq<Seq<char>>, file_type: Seq<char>) -> bool {
    file_types.len() == 0 || file_types.contains(file_type)
}

fn applies_to(file_types: &Vec<String>, file_type: &String) -> (b: bool)
    ensures
        b == applies(file_types.deep_view(), file_type@),
{
    file_types.len() == 0 || contains_text(file_types, file_type)
}

impl Rule {
    /// Whether the rule applies to files of a type.
    pub fn applies_to(&self, file_type: &String) -> (b: bool)
        ensures
            b == applies(self@.file_types, file_type@),
    {
        applies_to(&self.file_types, file_type)
    }
}

impl Profile {
    /// Whether the profile applies to files of a type.
    pub fn applies_to(&self, file_type: &String) -> (b: bool)
        ensures
            b == applies(self@.file_types, file_type@),
    {
        applies_to(&self.file_types, file_type)
    }
}

/// The test whether a rule applies to a file type.
pub open spec fn rule_applies(file_type: Seq<char>) -> spec_fn(RuleView) -> bool {
    |r: RuleView| applies(r.file_types, file_type)
}

/// The rules of a list that apply to a file type, in their order.
pub open spec fn applicable(rules: Seq<RuleView>, file_type: Seq<char>) -> Seq<RuleView> {
    rules.filter(rule_applies(file_type))
}

/// The rules of a profile that run on a file type: its rules that apply,
/// if the profile applies; none otherwise.
pub open spec fn profile_rules(file_type: Seq<char>) -> spec_fn(ProfileView) -> Seq<RuleView> {
    |p: ProfileView|
        if applies(p.file_types, file_type) {
            applicable(p.rules, file_type)
        } else {
            Seq::empty()
        }
}

/// All rules that run on a file type: the rules that apply, then those of
/// the profiles that apply, profile by profile. A rule that stands both
/// alone and in a profile runs once for each.
pub open spec fn active_rules(
    rules: Seq<RuleView>,
    profiles: Seq<ProfileView>,
    file_type: Seq<char>,
) -> Seq<RuleView> {
    applicable(rules, file_type) + profiles.flat_map(profile_rules(file_type))
}

fn append_applicable(rules: &Vec<Rule>, file_type: &String, out: &mut Vec<Rule>)
    ensures
        final(out).deep_view() == old(out).deep_view() + applicable(
            rules.deep_view(),
            file_type@,
        ),
{
    let ghost all = rules.deep_view();
    let ghost start = out.deep_view();
    let ghost wanted = rule_applies(file_type@);
    let mut k: usize = 0;
    proof {
        reveal(Seq::filter);
        assert(all.take(0).filter(wanted) =~= Seq::<RuleView>::empty());
        assert(out.deep_view() =~= start + all.take(0).filter(wanted));
    }
    while k < rules.len()
        invariant
            k <= rules.len(),
            all == rules.deep_view(),
            wanted == rule_applies(file_type@),
            out.deep_view() == start + all.take(k as int).filter(wanted),
        decreases rules.len() - k,
    {
        let rule = &rules[k];
        proof {
            assert(all[k as int] == rule@);
            lemma_filter_step(all, wanted, k as int);
        }
        if rule.applies_to(file_type) {
            let ghost before = out.deep_view();
            out.push(rule.clone());
            assert(out.deep_view() =~= before.push(rule@));
            assert(out.deep_view() =~= start + all.take(k + 1).filter(wanted));
        }
        k += 1;
    }
    assert(all.take(k as int) =~= all);
}

fn collect_active(config: &ConfigScannerConfig, file_type: &String) -> (r: Vec<Rule>)
    ensures
        r.deep_view() == active_rules(
            config.rules.deep_view(),
            config.profiles.deep_view(),
            file_type@,
        ),
{
    let ghost ps = config.profiles.deep_view();
    let ghost of_profile = profile_rules(file_type@);
    let mut r: Vec<Rule> = Vec::new();
    assert(r.deep_view() =~= Seq::<RuleView>::empty());
    append_applicable(&config.rules, file_type, &mut r);
    let ghost own = r.deep_view();
    let mut k: usize = 0;
    proof {
        assert(ps.take(0).map_values(of_profile) =~= Seq::<Seq<RuleView>>::empty());
        assert(r.deep_view() =~= own + ps.take(0).flat_map(of_profile));
    }
    while k < config.profiles.len()
        invariant
            k <= config.profiles.len(),
            ps == config.profiles.deep_view(),
            of_profile == profile_rules(file_type@),
            r.deep_view() == own + ps.take(k as int).flat_map(of_profile),
        decreases config.profiles.len() - k,
    {
        let p = &config.profiles[k];
        proof {
            assert(ps[k as int] == p@);
            lemma_flat_map_step(ps, of_profile, k as int);
        }
        let ghost before = r.deep_view();
        if p.applies_to(file_type) {
            append_applicable(&p.rules, file_type, &mut r);
        } else {
            assert(before + Seq::<RuleView>::empty() =~= before);
        }
        assert(r.deep_view() =~= own + ps.take(k + 1).flat_map(of_profile));
        k += 1;
    }
    assert(ps.take(k as int) =~= ps);
    r
}

/// The name under which the configuration scanner reports.
pub open spec fn scanner_label() -> Seq<char> {
    "config"@
}

/// The finding of a rule in a line of a file.
pub open spec fn rule_issue(rule: RuleView, path: Seq<char>, line: nat) -> IssueView {
    IssueView {
        id: rule.id,
        scanner: scanner_label(),
        category: rule.category,
        severity: rule.severity,
        description: rule.description,
        location: if path.len() > 0 {
            Some(LocationView { path, line: Some(line as usize), column: None })
        } else {
            None
        },
        fix: rule.fix,
        references: rule.references,
    }
}

/// What a rule finds in a line, given the position of the line counted
/// from 0: a finding at the line, if the pattern of the rule matches it.
pub open spec fn rule_hit(rule: RuleView, path: Seq<char>) -> spec_fn(int, Seq<char>) -> Option<
    IssueView,
> {
    |index: int, line: Seq<char>|
        if first_match_of(rule.pattern, line) is Some {
            Some(rule_issue(rule, path, (index + 1) as nat))
        } else {
            None
        }
}

/// The findings of a rule in the lines of a file: one for each line that
/// the pattern of the rule matches, in the order of the lines.
pub open spec fn rule_hits(rule: RuleView, path: Seq<char>, lines: Seq<Seq<char>>) -> Seq<IssueView> {
    those_present(lines.map(rule_hit(rule, path)))
}

/// The findings of a rule in the lines of a file, as a function of the
/// rule.
pub open spec fn hits_of_rule(path: Seq<char>, lines: Seq<Seq<char>>) -> spec_fn(RuleView) -> Seq<
    IssueView,
> {
    |rule: RuleView| rule_hits(rule, path, lines)
}

/// The findings of a list of rules, rule by rule.
pub open spec fn rules_hits(rules: Seq<RuleView>, path: Seq<char>, lines: Seq<Seq<char>>) -> Seq<
    IssueView,
> {
    rules.flat_map(hits_of_rule(path, lines))
}

/// The identifier of the first rule of a list whose pattern does not
/// compile, if there is one.
pub open spec fn first_bad_rule(rules: Seq<RuleView>) -> Option<Seq<char>>
    decreases rules.len(),
{
    if rules.len() == 0 {
        None
    } else if !pattern_compiles(rules[0].pattern) {
        Some(rules[0].id)
    } else {
        first_bad_rule(rules.skip(1))
    }
}

fn collect_rule_hits(
    rule: &Rule,
    re: &regex::Regex,
    path: &str,
    lines: &Vec<String>,
    out: &mut Vec<Issue>,
)
    requires
        regex_source(*re) == rule@.pattern,
    ensures
        final(out).deep_view() == old(out).deep_view() + rule_hits(
            rule@,
            path@,
            lines.deep_view(),
        ),
{
    let ghost start = out.deep_view();
    let ghost ls = lines.deep_view();
    let ghost hit = rule_hit(rule@, path@);
    let ghost hits = ls.map(hit);
    let mut k: usize = 0;
    proof {
        lemma_present_none(hits);
        assert(out.deep_view() =~= start + those_present(hits.take(0)));
    }
    while k < lines.len()
        invariant
            k <= lines.len(),
            ls == lines.deep_view(),
            hit == rule_hit(rule@, path@),
            hits == ls.map(hit),
            regex_source(*re) == rule@.pattern,
            out.deep_view() == start + those_present(hits.take(k as int)),
        decreases lines.len() - k,
    {
        proof {
            assert(ls[k as int] == lines@[k as int]@);
            assert(hits[k as int] == hit(k as int, lines@[k as int]@));
            lemma_present_step(hits, k as int);
        }
        if first_match(re, lines[k].as_str()).is_some() {
            let issue = Issue {
                id: rule.id.clone(),
                scanner: "config".to_owned(),
                category: rule.category.clone(),
                severity: rule.severity,
                description: rule.description.clone(),
                location: Location::new(path, Some(k + 1), None),
                fix: clone_opt_string(&rule.fix),
                references: clone_strings(&rule.references),
            };
            assert(issue@ == rule_issue(rule@, path@, (k + 1) as nat));
            let ghost before = out.deep_view();
            out.push(issue);
            assert(out.deep_view() =~= before.push(issue@));
            assert(out.deep_view() =~= start + those_present(hits.take(k + 1)));
        }
        k += 1;
    }
    assert(hits.take(k as int) =~= hits);
}

/// Runs a list of rules on the lines of a file, rule by rule.
///
/// The result is an error exactly when the pattern of one of the rules
/// does not compile; it carries the identifier of the first such rule.
pub fn check_rules(rules: &Vec<Rule>, path: &str, lines: &Vec<String>) -> (r: Result<
    Vec<Issue>,
    ConfigScanError,
>)
    ensures
        first_bad_rule(rules.deep_view()) is None ==> (r matches Ok(found) && found.deep_view()
            == rules_hits(rules.deep_view(), path@, lines.deep_view())),
        first_bad_rule(rules.deep_view()) is Some ==> (r matches Err(
            ConfigScanError::PatternError(id),
        ) && Some(id@) == first_bad_rule(rules.deep_view())),
{
    let ghost all = rules.deep_view();
    let ghost of_rule = hits_of_rule(path@, lines.deep_view());
    let mut out: Vec<Issue> = Vec::new();
    let mut i: usize = 0;
    proof {
        assert(all.skip(0) =~= all);
        assert(all.take(0).map_values(of_rule) =~= Seq::<Seq<IssueView>>::empty());
        assert(out.deep_view() =~= all.take(0).flat_map(of_rule));
    }
    while i < rules.len()
        invariant
            i <= rules.len(),
            all == rules.deep_view(),
            of_rule == hits_of_rule(path@, lines.deep_view()),
            first_bad_rule(all) == first_bad_rule(all.skip(i as int)),
            out.deep_view() == all.take(i as int).flat_map(of_rule),
        decreases rules.len() - i,
    {
        let rule = &rules[i];
        proof {
            assert(all[i as int] == rule@);
            assert(all.skip(i as int)[0] == all[i as int]);
            lemma_flat_map_step(all, of_rule, i as int);
        }
        match compile_pattern(rule.pattern.as_str()) {
            Ok(re) => {
                collect_rule_hits(rule, &re, path, lines, &mut out);
                assert(all.skip(i as int).skip(1) =~= all.skip(i + 1));
            },
            Err(_) => {
                return Err(ConfigScanError::PatternError(rule.id.clone()));
            },
        }
        i += 1;
    }
    assert(all.skip(i as int).len() == 0);
    assert(all.take(i as int) =~= all);
    Ok(out)
}

/// The findings in a file: those of every rule that runs on its type.
pub open spec fn config_issues(
    path: Seq<char>,
    content: Seq<char>,
    rules: Seq<RuleView>,
    profiles: Seq<ProfileView>,
) -> Seq<IssueView> {
    rules_hits(active_rules(rules, profiles, file_type_of(path, content)), path, lines_of(content))
}

/// The identifier of the first rule that runs on a file and whose pattern
/// does not compile, if there is one.
pub open spec fn config_bad_rule(
    path: Seq<char>,
    content: Seq<char>,
    rules: Seq<RuleView>,
    profiles: Seq<ProfileView>,
) -> Option<Seq<char>> {
    first_bad_rule(active_rules(rules, profiles, file_type_of(path, content)))
}

/// Why the scan of a file is refused.
pub enum Refusal {
    /// The file has this many bytes, more than are allowed.
    TooLarge(nat),
    /// The text is malformed for the type of the file.
    Malformed,
    /// The pattern of the rule with this identifier does not compile.
    BadRule(Seq<char>),
}

/// Why the scan of a file is refused, if it is. A file of more bytes than
/// `max_file_size` is too large. Otherwise, if the syntax is to be checked,
/// a text that is malformed for the type of the file is refused. Otherwise
/// the first rule that runs on the file and does not compile is at fault.
pub open spec fn refusal(path: Seq<char>, content: Seq<char>, config: ConfigScannerConfig) -> Option<
    Refusal,
> {
    let size = vstd::utf8::encode_utf8(content).len();
    if size > config.max_file_size {
        Some(Refusal::TooLarge(size))
    } else if config.check_syntax && malformed(file_type_of(path, content), content) {
        Some(Refusal::Malformed)
    } else {
        match config_bad_rule(path, content, config.rules.deep_view(), config.profiles.deep_view()) {
            Some(id) => Some(Refusal::BadRule(id)),
            None => None,
        }
    }
}

/// Scans the text of one configuration file; `modified` is the time of the
/// scan, as the caller read it from the clock.
///
/// A file of more bytes than `max_file_size` is refused with
/// `FileTooLarge` and its size. With `check_syntax`, a text that is
/// malformed for the type of the file is refused with `ParseError` and the
/// path. Where the pattern of a rule that runs on the file does not
/// compile, the result is `PatternError` with the identifier of the first
/// such rule. In every other case the result holds the findings of the
/// rules and profiles that apply to the type of the file, and the type and
/// the size of the file, also where nothing was found.
pub fn scan_file(path: &str, content: &str, config: &ConfigScannerConfig, modified: String) -> (r:
    Result<ConfigScanResult, ConfigScanError>)
    ensures
        match refusal(path@, content@, *config) {
            Some(Refusal::TooLarge(n)) => r matches Err(ConfigScanError::FileTooLarge(size))
                && size == n,
            Some(Refusal::Malformed) => r matches Err(ConfigScanError::ParseError(p)) && p@
                == path@,
            Some(Refusal::BadRule(id)) => r matches Err(ConfigScanError::PatternError(i)) && i@
                == id,
            None => r matches Ok(result) && result.file@ == path@ && result.issues.deep_view()
                == config_issues(
                path@,
                content@,
                config.rules.deep_view(),
                config.profiles.deep_view(),
            ) && result.metadata.file_type@ == file_type_of(path@, content@)
                && result.metadata.size == content.spec_bytes().len() && result.metadata.modified
                == modified,
        },
{
    let size = content.as_bytes().len();
    if size as u64 > config.max_file_size {
        return Err(ConfigScanError::FileTooLarge(size as u64));
    }
    let file_type = detect_file_type(path, content);
    if config.check_syntax && is_malformed(&file_type, content) {
        return Err(ConfigScanError::ParseError(path.to_owned()));
    }
    let active = collect_active(config, &file_type);
    let lines = split_lines(content);
    match check_rules(&active, path, &lines) {
        Ok(issues) => Ok(
            ConfigScanResult {
                file: path.to_owned(),
                issues,
                metadata: ConfigMetadata { file_type, size: size as u64, modified },
            },
        ),
        Err(e) => Err(e),
    }
}

/// Whether a file is scanned as configuration: its extension is one of
/// `yaml`, `yml`, `json`, `tf`.
pub open spec fn is_config_file(path: Seq<char>) -> bool {
    match extension_of(path) {
        Some(e) => e == "yaml"@ || e == "yml"@ || e == "json"@ || e == "tf"@,
        None => false,
    }
}

/// Whether a file is scanned as configuration.
pub fn wants_file(path: &str) -> (b: bool)
    ensures
        b == is_config_file(path@),
{
    match extension(path) {
        Some(e) => e == "yaml".to_owned() || e == "yml".to_owned() || e == "json".to_owned() || e
            == "tf".to_owned(),
        None => false,
    }
}

/// Why the scan of a file fails, as the message of the error; `None` where
/// the scan gives a result.
pub open spec fn scan_failure(f: SourceFileView, config: ConfigScannerConfig) -> Option<Seq<char>> {
    match refusal(f.path, f.content, config) {
        Some(Refusal::TooLarge(size)) => Some("File too large: "@ + decimal_of(size) + " bytes"@),
        Some(Refusal::Malformed) => Some("Failed to parse configuration: "@ + f.path),
        Some(Refusal::BadRule(id)) => Some("Pattern error: "@ + id),
        None => None,
    }
}

/// Whether the scan of a file gives a result: the file is a configuration
/// file, is not too large, and every rule that runs on it compiles.
pub open spec fn scannable(f: SourceFileView, config: ConfigScannerConfig) -> bool {
    is_config_file(f.path) && scan_failure(f, config) is None
}

/// The test whether the scan of a file gives a result.
pub open spec fn is_scannable(config: ConfigScannerConfig) -> spec_fn(SourceFileView) -> bool {
    |f: SourceFileView| scannable(f, config)
}

/// The files of a list whose scan gives a result, in their order.
pub open spec fn scannable_files(files: Seq<SourceFileView>, config: ConfigScannerConfig) -> Seq<
    SourceFileView,
> {
    files.filter(is_scannable(config))
}

/// The finding that stands for a configuration file that could not be
/// scanned: of severity `Info`, at the file, with the message of the error
/// as description.
pub open spec fn failure_issue(path: Seq<char>, message: Seq<char>) -> IssueView {
    IssueView {
        id: "scan-failure"@,
        scanner: scanner_label(),
        category: "scan-error"@,
        severity: Severity::Info,
        description: message,
        location: location_in(path, None),
        fix: None,
        references: Seq::empty(),
    }
}

/// The finding for a configuration file whose scan fails; none for any
/// other file.
pub open spec fn failure_of(config: ConfigScannerConfig) -> spec_fn(SourceFileView) -> Option<
    IssueView,
> {
    |f: SourceFileView|
        if is_config_file(f.path) && scan_failure(f, config) is Some {
            Some(failure_issue(f.path, scan_failure(f, config)->0))
        } else {
            None
        }
}

/// The findings for the configuration files of a list whose scan fails.
pub open spec fn scan_failures(files: Seq<SourceFileView>, config: ConfigScannerConfig) -> Seq<
    IssueView,
> {
    files.filter_map(failure_of(config))
}

/// The outcome of the scan of a directory for configuration files.
#[derive(Debug, PartialEq, Eq)]
pub struct ConfigDirectoryScan {
    /// One result for each configuration file that was scanned.
    pub results: Vec<ConfigScanResult>,
    /// One finding for each configuration file that could not be scanned.
    pub failures: Vec<Issue>,
}

/// Scans the configuration files of a directory, in the order given;
/// `modified` is the time of the scan. A file that is no configuration file
/// is passed over. A file whose scan fails does not end the scan: it
/// becomes a finding of its own. The others have one result each, with
/// their findings, type and size.
pub fn scan_directory(files: &Vec<SourceFile>, config: &ConfigScannerConfig, modified: &str) -> (scan:
    ConfigDirectoryScan)
    ensures
        scan.failures.deep_view() == scan_failures(files.deep_view(), *config),
        scan.results.len() == scannable_files(files.deep_view(), *config).len(),
        forall|i: int|
            0 <= i < scan.results.len() ==> {
                let f = #[trigger] scannable_files(files.deep_view(), *config)[i];
                &&& scan.results@[i].file@ == f.path
                &&& scan.results@[i].issues.deep_view() == config_issues(
                    f.path,
                    f.content,
                    config.rules.deep_view(),
                    config.profiles.deep_view(),
                )
                &&& scan.results@[i].metadata.file_type@ == file_type_of(f.path, f.content)
                &&& scan.results@[i].metadata.size == vstd::utf8::encode_utf8(f.content).len()
                &&& scan.results@[i].metadata.modified@ == modified@
            },
{
    let ghost fs = files.deep_view();
    let ghost ok = is_scannable(*config);
    let ghost failed = failure_of(*config);
    let mut r: Vec<ConfigScanResult> = Vec::new();
    let mut failures: Vec<Issue> = Vec::new();
    let mut k: usize = 0;
    proof {
        reveal(Seq::filter);
        assert(failures.deep_view() =~= Seq::<IssueView>::empty());
        assert(fs.take(0).filter_map(failed) =~= Seq::<IssueView>::empty());
        assert(fs.take(0).filter(ok) =~= Seq::<SourceFileView>::empty());
    }
    while k < files.len()
        invariant
            k <= files.len(),
            fs == files.deep_view(),
            ok == is_scannable(*config),
            failed == failure_of(*config),
            failures.deep_view() == fs.take(k as int).filter_map(failed),
            r.len() == fs.take(k as int).filter(ok).len(),
            forall|i: int|
                0 <= i < r.len() ==> {
                    let f = #[trigger] fs.take(k as int).filter(ok)[i];
                    &&& r@[i].file@ == f.path
                    &&& r@[i].issues.deep_view() == config_issues(
                        f.path,
                        f.content,
                        config.rules.deep_view(),
                        config.profiles.deep_view(),
                    )
                    &&& r@[i].metadata.file_type@ == file_type_of(f.path, f.content)
                    &&& r@[i].metadata.size == vstd::utf8::encode_utf8(f.content).len()
                    &&& r@[i].metadata.modified@ == modified@
                },
        decreases files.len() - k,
    {
        let f = &files[k];
        let ghost before = fs.take(k as int).filter(ok);
        proof {
            assert(fs[k as int] == f@);
            lemma_filter_step(fs, ok, k as int);
            lemma_filter_map_step(fs, failed, k as int);
        }
        if wants_file(f.path.as_str()) {
            match scan_file(f.path.as_str(), f.content.as_str(), config, modified.to_owned()) {
                Ok(result) => {
                    r.push(result);
                    assert(fs.take(k + 1).filter(ok) == before.push(f@));
                },
                Err(e) => {
                    let issue = Issue {
                        id: "scan-failure".to_owned(),
                        scanner: "config".to_owned(),
                        category: "scan-error".to_owned(),
                        severity: Severity::Info,
                        description: e.message(),
                        location: Location::new(f.path.as_str(), None, None),
                        fix: None,
                        references: Vec::new(),
                    };
                    assert(issue.references.deep_view() =~= Seq::<Seq<char>>::empty());
                    let ghost failed_before = failures.deep_view();
                    failures.push(issue);
                    assert(failures.deep_view() =~= failed_before.push(issue@));
                },
            }
        }
        k += 1;
    }
    assert(fs.take(k as int) =~= fs);
    ConfigDirectoryScan { results: r, failures }
}

/// The findings of a set of scanned files against the configured rules and
/// profiles, counted by severity.
#[derive(Debug, PartialEq, Eq)]
pub struct ComplianceReport {
    issues: Vec<Issue>,
    critical: usize,
    high: usize,
    medium: usize,
    low: usize,
    info: usize,
}

impl ComplianceReport {
    /// The findings of the report, in the order in which they were added.
    pub closed spec fn findings(self) -> Seq<IssueView> {
        self.issues.deep_view()
    }

    /// The number that the report holds for a severity.
    pub closed spec fn counted(self, severity: Severity) -> nat {
        match severity {
            Severity::Critical => self.critical as nat,
            Severity::High => self.high as nat,
            Severity::Medium => self.medium as nat,
            Severity::Low => self.low as nat,
            Severity::Info => self.info as nat,
        }
    }

    /// The invariant of a compliance report: the number it holds for a
    /// severity is the number of its findings of that severity.
    #[verifier::type_invariant]
    pub open spec fn wf(self) -> bool {
        forall|s: Severity|
            #[trigger] self.counted(s) == crate::arrange::at_level(self.findings(), s.level()).len()
    }

    /// A report without findings.
    pub fn new() -> (r: ComplianceReport)
        ensures
            r.wf(),
            r.findings() == Seq::<IssueView>::empty(),
    {
        let issues: Vec<Issue> = Vec::new();
        proof {
            reveal(Seq::filter);
            assert(issues.deep_view() =~= Seq::<IssueView>::empty());
        }
        ComplianceReport { issues, critical: 0, high: 0, medium: 0, low: 0, info: 0 }
    }

    /// Adds a finding to the report.
    pub fn add_issue(&mut self, issue: &Issue)
        ensures
            final(self).wf(),
            final(self).findings() == old(self).findings().push(issue@),
    {
        proof {
            use_type_invariant(&*self);
        }
        let ghost before = self.issues.deep_view();
        proof {
            assert(self.counted(Severity::Critical) == crate::arrange::at_level(before, 4).len());
            assert(self.counted(Severity::High) == crate::arrange::at_level(before, 3).len());
            assert(self.counted(Severity::Medium) == crate::arrange::at_level(before, 2).len());
            assert(self.counted(Severity::Low) == crate::arrange::at_level(before, 1).len());
            assert(self.counted(Severity::Info) == crate::arrange::at_level(before, 0).len());
            crate::arrange::lemma_at_level_len(before, 4);
            crate::arrange::lemma_at_level_len(before, 3);
            crate::arrange::lemma_at_level_len(before, 2);
            crate::arrange::lemma_at_level_len(before, 1);
            crate::arrange::lemma_at_level_len(before, 0);
            crate::arrange::lemma_at_level_push(before, issue@, 4);
            crate::arrange::lemma_at_level_push(before, issue@, 3);
            crate::arrange::lemma_at_level_push(before, issue@, 2);
            crate::arrange::lemma_at_level_push(before, issue@, 1);
            crate::arrange::lemma_at_level_push(before, issue@, 0);
        }
        let mut taken = ComplianceReport::new();
        std::mem::swap(self, &mut taken);
        let ComplianceReport { issues, critical, high, medium, low, info } = taken;
        let mut issues = issues;
        let ghost count = issues.len();
        issues.push(issue.clone());
        assert(issues.deep_view() =~= before.push(issue@));
        assert(issues.len() == count + 1);
        *self = match issue.severity {
            Severity::Critical => ComplianceReport {
                issues,
                critical: critical + 1,
                high,
                medium,
                low,
                info,
            },
            Severity::High => ComplianceReport { issues, critical, high: high + 1, medium, low, info },
            Severity::Medium => ComplianceReport {
                issues,
                critical,
                high,
                medium: medium + 1,
                low,
                info,
            },
            Severity::Low => ComplianceReport { issues, critical, high, medium, low: low + 1, info },
            Severity::Info => ComplianceReport { issues, critical, high, medium, low, info: info + 1 },
        };
    }

    /// The findings of the report.
    pub fn issues(&self) -> (r: &Vec<Issue>)
        ensures
            r.deep_view() == self.findings(),
    {
        &self.issues
    }

    /// The number of findings of a severity.
    pub fn count(&self, severity: Severity) -> (n: usize)
        ensures
            n == self.counted(severity),
            n == crate::arrange::at_level(self.findings(), severity.level()).len(),
    {
        proof {
            use_type_invariant(self);
            assert(self.counted(severity) == crate::arrange::at_level(
                self.findings(),
                severity.level(),
            ).len());
        }
        match severity {
            Severity::Critical => self.critical,
            Severity::High => self.high,
            Severity::Medium => self.medium,
            Severity::Low => self.low,
            Severity::Info => self.info,
        }
    }

    /// Whether the files comply: nothing was found.
    pub fn is_compliant(&self) -> (b: bool)
        ensures
            b == (self.findings().len() == 0),
    {
        self.issues.len() == 0
    }
}

/// The findings of a result.
pub open spec fn issues_of() -> spec_fn(ConfigScanResult) -> Seq<IssueView> {
    |r: ConfigScanResult| r.issues.deep_view()
}

/// The findings of all results, result by result.
pub open spec fn result_issues(results: Seq<ConfigScanResult>) -> Seq<IssueView> {
    results.flat_map(issues_of())
}

/// Makes the compliance report of a set of scanned files: all their
/// findings, file by file, counted by severity.
pub fn generate_compliance_report(
    results: &Vec<ConfigScanResult>,
    config: &ConfigScannerConfig,
) -> (report: ComplianceReport)
    ensures
        report.wf(),
        report.findings() == result_issues(results@),
{
    let mut report = ComplianceReport::new();
    let mut k: usize = 0;
    proof {
        assert(results@.take(0).map_values(issues_of()) =~= Seq::<Seq<IssueView>>::empty());
        assert(report.findings() =~= results@.take(0).flat_map(issues_of()));
    }
    while k < results.len()
        invariant
            k <= results.len(),
            report.wf(),
            report.findings() == results@.take(k as int).flat_map(issues_of()),
        decreases results.len() - k,
    {
        let result = &results[k];
        let ghost start = report.findings();
        let ghost found = result.issues.deep_view();
        proof {
            lemma_flat_map_step(results@, issues_of(), k as int);
        }
        let mut j: usize = 0;
        assert(found.take(0) =~= Seq::<IssueView>::empty());
        assert(start + found.take(0) =~= start);
        while j < result.issues.len()
            invariant
                j <= result.issues.len(),
                found == result.issues.deep_view(),
                report.wf(),
                report.findings() == start + found.take(j as int),
            decreases result.issues.len() - j,
        {
            report.add_issue(&result.issues[j]);
            assert(found.take(j + 1) =~= found.take(j as int).push(result.issues@[j as int]@));
            assert(start + found.take(j + 1) =~= (start + found.take(j as int)).push(
                result.issues@[j as int]@,
            ));
            j += 1;
        }
        assert(found.take(j as int) =~= found);
        k += 1;
    }
    assert(results@.take(k as int) =~= results@);
    report
}

} // verus!
