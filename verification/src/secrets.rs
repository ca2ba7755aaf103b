//! The secret scanner: named patterns and a generic detector for
//! base64-like runs, applied line by line, and the byte histogram from which
//! the entropy of a match is computed.

use crate::model::SourceFile;
use crate::model::SourceFileView;
use crate::outside::compile_pattern;
use crate::outside::first_match;
use crate::outside::first_match_of;
use crate::outside::pattern_compiles;
use crate::outside::regex_source;
use crate::sequences::lemma_flat_map_of_permutation;
use crate::sequences::lemma_flat_map_step;
use crate::sequences::lemma_filter_all;
use crate::sequences::lemma_filter_same;
use crate::sequences::lemma_present_from;
use crate::sequences::lemma_present_none;
use crate::sequences::lemma_present_single;
use crate::sequences::lemma_present_step;
use crate::sequences::those_present;
use crate::severity::Severity;
use crate::text::extension;
use crate::text::extension_of;
use crate::text::lines_of;
use crate::text::split_lines;
use vstd::prelude::*;
use vstd::string::StringSliceAdditionalSpecFns;

verus! {

/// A named pattern for one kind of secret.
#[derive(Debug, PartialEq, Eq)]
pub struct Pattern {
    pub name: String,
    pub regex: String,
    pub description: String,
    pub severity: Severity,
}

/// What a `Pattern` holds, with its texts as sequences of characters.
pub struct PatternView {
    pub name: Seq<char>,
    pub regex: Seq<char>,
    pub description: Seq<char>,
    pub severity: Severity,
}

impl View for Pattern {
    type V = PatternView;

    open spec fn view(&self) -> PatternView {
        PatternView {
            name: self.name@,
            regex: self.regex@,
            description: self.description@,
            severity: self.severity,
        }
    }
}

impl DeepView for Pattern {
    type V = PatternView;

    open spec fn deep_view(&self) -> PatternView {
        self@
    }
}

impl Clone for Pattern {
    fn clone(&self) -> (r: Pattern)
        ensures
            r@ == self@,
    {
        Pattern {
            name: self.name.clone(),
            regex: self.regex.clone(),
            description: self.description.clone(),
            severity: self.severity,
        }
    }
}

impl Pattern {
    /// A pattern with the given name, regex, description and severity.
    pub fn new(name: &str, regex: &str, description: &str, severity: Severity) -> (p: Pattern)
        ensures
            p@ == (PatternView {
                name: name@,
                regex: regex@,
                description: description@,
                severity,
            }),
    {
        Pattern {
            name: name.to_owned(),
            regex: regex.to_owned(),
            description: description.to_owned(),
            severity,
        }
    }
}

/// Why a scan for secrets could not be made.
#[derive(Debug, PartialEq, Eq)]
pub enum SecretScanError {
    /// The regex of the pattern with this name does not compile.
    InvalidPattern(String),
}

impl SecretScanError {
    /// The message of this error.
    pub fn message(&self) -> (m: String)
        ensures
            self matches SecretScanError::InvalidPattern(name) && m@ == "Invalid pattern: "@ + name@,
    {
        match self {
            SecretScanError::InvalidPattern(name) => "Invalid pattern: ".to_owned().concat(
                name.as_str(),
            ),
        }
    }
}

/// A match of a detector in a line of a file. Whether it is reported is
/// decided by the entropy of `secret`.
#[derive(Debug, PartialEq, Eq)]
pub struct SecretCandidate {
    pub path: String,
    /// The number of the line, counted from 1.
    pub line_number: usize,
    pub secret_type: String,
    pub secret: String,
    /// The name of the pattern that matched; `None` for the generic detector.
    pub pattern: Option<String>,
    /// The severity of the pattern; `Medium` for the generic detector.
    pub severity: Severity,
}

/// What a `SecretCandidate` holds, with its texts as sequences of characters.
pub struct SecretCandidateView {
    pub path: Seq<char>,
    pub line_number: nat,
    pub secret_type: Seq<char>,
    pub secret: Seq<char>,
    pub pattern: Option<Seq<char>>,
    pub severity: Severity,
}

impl View for SecretCandidate {
    type V = SecretCandidateView;

    open spec fn view(&self) -> SecretCandidateView {
        SecretCandidateView {
            path: self.path@,
            line_number: self.line_number as nat,
            secret_type: self.secret_type@,
            secret: self.secret@,
            pattern: self.pattern.deep_view(),
            severity: self.severity,
        }
    }
}

impl DeepView for SecretCandidate {
    type V = SecretCandidateView;

    open spec fn deep_view(&self) -> SecretCandidateView {
        self@
    }
}

/// The regex of the generic detector: a run of at least twenty characters of
/// the base64 alphabet.
pub open spec fn generic_pattern() -> Seq<char> {
    "[A-Za-z0-9+/=]{20,}"@
}

/// The type under which the generic detector reports.
pub open spec fn generic_type() -> Seq<char> {
    "Base64-like string"@
}

/// What a regex yields in a line, given the position of the line counted
/// from 0: a candidate with its leftmost match, if it matches the line.
pub open spec fn line_hit(
    path: Seq<char>,
    regex: Seq<char>,
    secret_type: Seq<char>,
    pattern: Option<Seq<char>>,
    severity: Severity,
) -> spec_fn(int, Seq<char>) -> Option<SecretCandidateView> {
    |index: int, line: Seq<char>|
        match first_match_of(regex, line) {
            Some(secret) => Some(
                SecretCandidateView {
                    path,
                    line_number: (index + 1) as nat,
                    secret_type,
                    secret,
                    pattern,
                    severity,
                },
            ),
            None => None,
        }
}

/// The candidates that one regex yields in the lines of a file: for each
/// line that it matches, in order, its leftmost match and the number of the
/// line, counted from 1.
pub open spec fn line_hits(
    path: Seq<char>,
    lines: Seq<Seq<char>>,
    regex: Seq<char>,
    secret_type: Seq<char>,
    pattern: Option<Seq<char>>,
    severity: Severity,
) -> Seq<SecretCandidateView> {
    those_present(lines.map(line_hit(path, regex, secret_type, pattern, severity)))
}

/// The candidates of a named pattern in the lines of a file.
pub open spec fn pattern_hits(path: Seq<char>, lines: Seq<Seq<char>>) -> spec_fn(
    PatternView,
) -> Seq<SecretCandidateView> {
    |p: PatternView| line_hits(path, lines, p.regex, p.name, Some(p.name), p.severity)
}

/// The candidates of the generic detector in the lines of a file.
pub open spec fn generic_hits(path: Seq<char>, lines: Seq<Seq<char>>) -> Seq<SecretCandidateView> {
    line_hits(path, lines, generic_pattern(), generic_type(), None, Severity::Medium)
}

/// All candidates of a file: those of the named patterns, pattern by
/// pattern, then those of the generic detector. A line that both a named
/// pattern and the generic detector match yields a candidate for each.
pub open spec fn candidates_of(
    path: Seq<char>,
    lines: Seq<Seq<char>>,
    patterns: Seq<PatternView>,
) -> Seq<SecretCandidateView> {
    patterns.flat_map(pattern_hits(path, lines)) + generic_hits(path, lines)
}

/// Whether every named pattern, and the generic one, compiles.
pub open spec fn patterns_valid(patterns: Seq<PatternView>) -> bool {
    &&& forall|i: int| 0 <= i < patterns.len() ==> pattern_compiles(#[trigger] patterns[i].regex)
    &&& pattern_compiles(generic_pattern())
}

/// The name of the first pattern that does not compile; the generic
/// detector's type where all named ones do.
pub open spec fn first_invalid(patterns: Seq<PatternView>) -> Seq<char>
    decreases patterns.len(),
{
    if patterns.len() == 0 {
        generic_type()
    } else if !pattern_compiles(patterns[0].regex) {
        patterns[0].name
    } else {
        first_invalid(patterns.skip(1))
    }
}

fn generic_pattern_text() -> (s: &'static str)
    ensures
        s@ == generic_pattern(),
{
    "[A-Za-z0-9+/=]{20,}"
}

fn generic_type_text() -> (s: &'static str)
    ensures
        s@ == generic_type(),
{
    "Base64-like string"
}

fn collect_hits(
    path: &str,
    lines: &Vec<String>,
    re: &regex::Regex,
    secret_type: &str,
    pattern: &Option<String>,
    severity: Severity,
    out: &mut Vec<SecretCandidate>,
)
    ensures
        final(out).deep_view() == old(out).deep_view() + line_hits(
            path@,
            lines.deep_view(),
            regex_source(*re),
            secret_type@,
            pattern.deep_view(),
            severity,
        ),
{
    let ghost start = out.deep_view();
    let ghost hit = line_hit(path@, regex_source(*re), secret_type@, pattern.deep_view(), severity);
    let ghost hits = lines.deep_view().map(hit);
    let mut k: usize = 0;
    proof {
        lemma_present_none(hits);
        assert(out.deep_view() =~= start + those_present(hits.take(0)));
    }
    while k < lines.len()
        invariant
            k <= lines.len(),
            hit == line_hit(path@, regex_source(*re), secret_type@, pattern.deep_view(), severity),
            hits == lines.deep_view().map(hit),
            out.deep_view() == start + those_present(hits.take(k as int)),
        decreases lines.len() - k,
    {
        let found = first_match(re, lines[k].as_str());
        proof {
            assert(lines.deep_view()[k as int] == lines@[k as int]@);
            assert(hits[k as int] == hit(k as int, lines@[k as int]@));
            lemma_present_step(hits, k as int);
        }
        match found {
            Some(secret) => {
                let candidate = SecretCandidate {
                    path: path.to_owned(),
                    line_number: k + 1,
                    secret_type: secret_type.to_owned(),
                    secret,
                    pattern: crate::model::clone_opt_string(pattern),
                    severity,
                };
                let ghost before = out.deep_view();
                out.push(candidate);
                assert(out.deep_view() =~= before.push(candidate@));
                assert(out.deep_view() =~= start + those_present(hits.take(k + 1)));
            },
            None => {},
        }
        k += 1;
    }
    assert(hits.take(k as int) =~= hits);
}

/// Applies every pattern, then the generic detector, to the lines of a file.
///
/// The result is `Ok` exactly when every pattern compiles, and then holds
/// the candidates of the named patterns, pattern by pattern and line by
/// line, followed by those of the generic detector. Otherwise the error
/// names the first pattern that does not compile.
pub fn scan_lines(path: &str, lines: &Vec<String>, patterns: &Vec<Pattern>) -> (r: Result<
    Vec<SecretCandidate>,
    SecretScanError,
>)
    ensures
        patterns_valid(patterns.deep_view()) ==> (r matches Ok(found) && found.deep_view()
            == candidates_of(path@, lines.deep_view(), patterns.deep_view())),
        !patterns_valid(patterns.deep_view()) ==> (r matches Err(
            SecretScanError::InvalidPattern(name),
        ) && name@ == first_invalid(patterns.deep_view())),
{
    let mut out: Vec<SecretCandidate> = Vec::new();
    let ghost ps = patterns.deep_view();
    let ghost ls = lines.deep_view();
    let ghost of_pattern = pattern_hits(path@, ls);
    let mut i: usize = 0;
    proof {
        assert(ps.skip(0) =~= ps);
        assert(ps.take(0).map_values(of_pattern) =~= Seq::<Seq<SecretCandidateView>>::empty());
        assert(out.deep_view() =~= ps.take(0).flat_map(of_pattern));
    }
    while i < patterns.len()
        invariant
            i <= patterns.len(),
            ps == patterns.deep_view(),
            ls == lines.deep_view(),
            of_pattern == pattern_hits(path@, ls),
            forall|j: int| 0 <= j < i ==> pattern_compiles(#[trigger] ps[j].regex),
            first_invalid(ps) == first_invalid(ps.skip(i as int)),
            out.deep_view() == ps.take(i as int).flat_map(of_pattern),
        decreases patterns.len() - i,
    {
        let p = &patterns[i];
        assert(ps[i as int] == p@);
        assert(ps.skip(i as int)[0] == ps[i as int]);
        match compile_pattern(p.regex.as_str()) {
            Ok(re) => {
                let tag = Some(p.name.clone());
                collect_hits(path, lines, &re, p.name.as_str(), &tag, p.severity, &mut out);
                proof {
                    assert(ps.skip(i as int).skip(1) =~= ps.skip(i + 1));
                    lemma_flat_map_step(ps, of_pattern, i as int);
                }
            },
            Err(_) => {
                return Err(SecretScanError::InvalidPattern(p.name.clone()));
            },
        }
        i += 1;
    }
    assert(ps.skip(i as int).len() == 0);
    assert(ps.take(i as int) =~= ps);
    match compile_pattern(generic_pattern_text()) {
        Ok(re) => {
            collect_hits(path, lines, &re, generic_type_text(), &None, Severity::Medium, &mut out);
            Ok(out)
        },
        Err(_) => Err(SecretScanError::InvalidPattern(generic_type_text().to_owned())),
    }
}

/// Scans the text of one file for secrets: `scan_lines` on its lines.
pub fn scan_file(path: &str, content: &str, patterns: &Vec<Pattern>) -> (r: Result<
    Vec<SecretCandidate>,
    SecretScanError,
>)
    ensures
        patterns_valid(patterns.deep_view()) ==> (r matches Ok(found) && found.deep_view()
            == candidates_of(path@, lines_of(content@), patterns.deep_view())),
        !patterns_valid(patterns.deep_view()) ==> (r matches Err(
            SecretScanError::InvalidPattern(name),
        ) && name@ == first_invalid(patterns.deep_view())),
{
    let lines = split_lines(content);
    scan_lines(path, &lines, patterns)
}

/// Whether a file is searched for secrets: its extension is one of `git`,
/// `lock`, `json`, `yaml`, `yml`.
pub open spec fn is_secret_target(path: Seq<char>) -> bool {
    match extension_of(path) {
        Some(e) => e == "git"@ || e == "lock"@ || e == "json"@ || e == "yaml"@ || e == "yml"@,
        None => false,
    }
}

/// Whether a file is searched for secrets.
pub fn wants_file(path: &str) -> (b: bool)
    ensures
        b == is_secret_target(path@),
{
    match extension(path) {
        Some(e) => e == "git".to_owned() || e == "lock".to_owned() || e == "json".to_owned() || e
            == "yaml".to_owned() || e == "yml".to_owned(),
        None => false,
    }
}

/// What the scan of one file yields: the candidates of the file if it is
/// searched, nothing otherwise.
pub open spec fn file_hits(patterns: Seq<PatternView>) -> spec_fn(SourceFileView) -> Seq<
    SecretCandidateView,
> {
    |f: SourceFileView|
        if is_secret_target(f.path) {
            candidates_of(f.path, lines_of(f.content), patterns)
        } else {
            Seq::empty()
        }
}

/// The candidates of the files of a directory, file by file: for each file
/// that is searched, its candidates.
pub open spec fn directory_hits(files: Seq<SourceFileView>, patterns: Seq<PatternView>) -> Seq<
    SecretCandidateView,
> {
    files.flat_map(file_hits(patterns))
}

/// Whether any of the files is searched for secrets.
pub open spec fn any_target(files: Seq<SourceFileView>) -> bool {
    exists|i: int| 0 <= i < files.len() && is_secret_target(#[trigger] files[i].path)
}

/// Scans the files found under a directory, in the order given. Files whose
/// extension is not searched are passed over.
///
/// The result is `Ok` when every pattern compiles or no file is searched;
/// otherwise the error names the first pattern that does not compile.
pub fn scan_directory(files: &Vec<SourceFile>, patterns: &Vec<Pattern>) -> (r: Result<
    Vec<SecretCandidate>,
    SecretScanError,
>)
    ensures
        patterns_valid(patterns.deep_view()) || !any_target(files.deep_view()) ==> (r matches Ok(
            found,
        ) && found.deep_view() == directory_hits(files.deep_view(), patterns.deep_view())),
        !patterns_valid(patterns.deep_view()) && any_target(files.deep_view()) ==> (r matches Err(
            SecretScanError::InvalidPattern(name),
        ) && name@ == first_invalid(patterns.deep_view())),
{
    let mut out: Vec<SecretCandidate> = Vec::new();
    let ghost fs = files.deep_view();
    let ghost ps = patterns.deep_view();
    let ghost of_file = file_hits(ps);
    let mut k: usize = 0;
    proof {
        assert(fs.take(0).map_values(of_file) =~= Seq::<Seq<SecretCandidateView>>::empty());
        assert(out.deep_view() =~= fs.take(0).flat_map(of_file));
    }
    while k < files.len()
        invariant
            k <= files.len(),
            fs == files.deep_view(),
            ps == patterns.deep_view(),
            of_file == file_hits(ps),
            out.deep_view() == fs.take(k as int).flat_map(of_file),
            patterns_valid(ps) || forall|j: int| 0 <= j < k ==> !is_secret_target(#[trigger] fs[j].path),
        decreases files.len() - k,
    {
        let f = &files[k];
        proof {
            assert(fs[k as int] == f@);
            lemma_flat_map_step(fs, of_file, k as int);
        }
        if wants_file(f.path.as_str()) {
            match scan_file(f.path.as_str(), f.content.as_str(), patterns) {
                Ok(mut found) => {
                    let ghost before = out.deep_view();
                    let ghost added = found.deep_view();
                    out.append(&mut found);
                    assert(out.deep_view() =~= before + added);
                },
                Err(e) => {
                    assert(is_secret_target(fs[k as int].path));
                    return Err(e);
                },
            }
        } else {
            assert(out.deep_view() + of_file(fs[k as int]) =~= out.deep_view());
        }
        k += 1;
    }
    assert(fs.take(k as int) =~= fs);
    Ok(out)
}

/// How often the byte `v` occurs in `bytes`.
pub open spec fn occurrences(bytes: Seq<u8>, v: u8) -> nat
    decreases bytes.len(),
{
    if bytes.len() == 0 {
        0
    } else {
        occurrences(bytes.drop_last(), v) + (if bytes.last() == v {
            1nat
        } else {
            0nat
        })
    }
}

/// The sum of the entries of a histogram.
pub open spec fn total(counts: Seq<usize>) -> nat
    decreases counts.len(),
{
    if counts.len() == 0 {
        0
    } else {
        total(counts.drop_last()) + counts.last() as nat
    }
}

/// A byte occurs in a text at most as often as the text is long.
pub proof fn lemma_occurrences_bound(bytes: Seq<u8>, v: u8)
    ensures
        occurrences(bytes, v) <= bytes.len(),
    decreases bytes.len(),
{
    if bytes.len() > 0 {
        lemma_occurrences_bound(bytes.drop_last(), v);
    }
}

/// In a text that repeats one byte, that byte occurs as often as the text is
/// long and no other byte occurs: its histogram has a single entry, so its
/// entropy is zero.
pub proof fn lemma_uniform_text(bytes: Seq<u8>, b: u8, v: u8)
    requires
        forall|i: int| 0 <= i < bytes.len() ==> bytes[i] == b,
    ensures
        occurrences(bytes, b) == bytes.len(),
        v != b ==> occurrences(bytes, v) == 0,
    decreases bytes.len(),
{
    if bytes.len() > 0 {
        lemma_uniform_text(bytes.drop_last(), b, v);
    }
}

proof fn lemma_total_bump(counts: Seq<usize>, i: int, bumped: Seq<usize>)
    requires
        0 <= i < counts.len(),
        bumped.len() == counts.len(),
        bumped[i] == counts[i] + 1,
        forall|j: int| 0 <= j < counts.len() && j != i ==> bumped[j] == counts[j],
    ensures
        total(bumped) == total(counts) + 1,
    decreases counts.len(),
{
    let n = counts.len() - 1;
    if i == n {
        assert(bumped.drop_last() =~= counts.drop_last());
    } else {
        lemma_total_bump(counts.drop_last(), i, bumped.drop_last());
    }
}

proof fn lemma_total_zero(counts: Seq<usize>)
    requires
        forall|j: int| 0 <= j < counts.len() ==> counts[j] == 0,
    ensures
        total(counts) == 0,
    decreases counts.len(),
{
    if counts.len() > 0 {
        lemma_total_zero(counts.drop_last());
    }
}

/// Counts how often each byte value occurs in a text. The result has 256
/// entries, one per byte value, and they add up to the length of the text
/// in bytes.
pub fn byte_histogram(secret: &str) -> (counts: Vec<usize>)
    ensures
        counts.len() == 256,
        forall|v: u8| #![auto] counts[v as int] == occurrences(secret.spec_bytes(), v),
        total(counts@) == secret.spec_bytes().len(),
{
    let bytes = secret.as_bytes();
    let mut counts: Vec<usize> = Vec::new();
    let mut v: usize = 0;
    while v < 256
        invariant
            v <= 256,
            counts.len() == v,
            forall|j: int| 0 <= j < v ==> counts[j] == 0,
        decreases 256 - v,
    {
        counts.push(0);
        v += 1;
    }
    proof {
        lemma_total_zero(counts@);
    }
    let mut i: usize = 0;
    while i < bytes.len()
        invariant
            i <= bytes.len(),
            bytes@ == secret.spec_bytes(),
            counts.len() == 256,
            forall|v: u8| #![auto] counts[v as int] == occurrences(bytes@.take(i as int), v),
            total(counts@) == i,
        decreases bytes.len() - i,
    {
        let b = bytes[i];
        let ghost before = counts@;
        proof {
            lemma_occurrences_bound(bytes@.take(i as int), b);
            assert(bytes@.take(i + 1).drop_last() =~= bytes@.take(i as int));
        }
        let c = counts[b as usize];
        counts.set(b as usize, c + 1);
        proof {
            lemma_total_bump(before, b as int, counts@);
        }
        i += 1;
    }
    assert(bytes@.take(bytes.len() as int) =~= bytes@);
    counts
}

/// Scanning the same files again yields the same candidates, whatever the
/// order in which the files are listed: two listings that hold the same
/// files yield the same candidates, each as often in the one as in the
/// other.
pub proof fn lemma_scan_order_free(
    a: Seq<SourceFileView>,
    b: Seq<SourceFileView>,
    patterns: Seq<PatternView>,
)
    requires
        a.to_multiset() == b.to_multiset(),
    ensures
        directory_hits(a, patterns).to_multiset() == directory_hits(b, patterns).to_multiset(),
{
    lemma_flat_map_of_permutation(a, b, file_hits(patterns));
}

proof fn lemma_line_hits_upto(
    lines: Seq<Seq<char>>,
    regex: Seq<char>,
    hit: spec_fn(int, Seq<char>) -> Option<SecretCandidateView>,
    k: int,
    i: int,
)
    requires
        0 <= k <= lines.len(),
        forall|index: int, line: Seq<char>|
            index >= 0 ==> (#[trigger] hit(index, line) matches Some(h) ==> h.line_number == index
                + 1 && first_match_of(regex, line) == Some(h.secret)),
        0 <= i < those_present(lines.map(hit).take(k)).len(),
    ensures
        ({
            let hits = those_present(lines.map(hit).take(k));
            &&& 1 <= hits[i].line_number <= k
            &&& first_match_of(regex, lines[hits[i].line_number - 1]) == Some(hits[i].secret)
            &&& i > 0 ==> hits[i - 1].line_number < hits[i].line_number
        }),
    decreases k,
{
    if k > 0 {
        let all = lines.map(hit);
        lemma_present_step(all, k - 1);
        let before = those_present(all.take(k - 1));
        assert(all[k - 1] == hit(k - 1, lines[k - 1]));
        if i < before.len() {
            lemma_line_hits_upto(lines, regex, hit, k - 1, i);
        } else if i > 0 {
            lemma_line_hits_upto(lines, regex, hit, k - 1, i - 1);
        }
    } else {
        lemma_present_none(lines.map(hit));
    }
}

/// Every candidate of a regex stands for a line that the regex matches: its
/// line number is that of a line of the file, its secret is the leftmost
/// match in that line, and the candidates come in the order of the lines.
pub proof fn lemma_line_hits(
    path: Seq<char>,
    lines: Seq<Seq<char>>,
    regex: Seq<char>,
    secret_type: Seq<char>,
    pattern: Option<Seq<char>>,
    severity: Severity,
    i: int,
)
    requires
        0 <= i < line_hits(path, lines, regex, secret_type, pattern, severity).len(),
    ensures
        ({
            let hits = line_hits(path, lines, regex, secret_type, pattern, severity);
            &&& 1 <= hits[i].line_number <= lines.len()
            &&& first_match_of(regex, lines[hits[i].line_number - 1]) == Some(hits[i].secret)
            &&& i > 0 ==> hits[i - 1].line_number < hits[i].line_number
        }),
{
    let hit = line_hit(path, regex, secret_type, pattern, severity);
    assert(lines.map(hit).take(lines.len() as int) =~= lines.map(hit));
    lemma_line_hits_upto(lines, regex, hit, lines.len() as int, i);
}

/// The test whether a candidate is tagged with the name of a pattern.
pub open spec fn tagged_with(name: Seq<char>) -> spec_fn(SecretCandidateView) -> bool {
    |c: SecretCandidateView| c.pattern == Some(name)
}

/// A file in which the regex of the one configured pattern matches exactly
/// one line yields exactly one candidate tagged with the name of that
/// pattern: at the number of that line, with the match as its secret.
/// What the generic detector finds is not tagged with any pattern.
pub proof fn lemma_single_match(
    path: Seq<char>,
    lines: Seq<Seq<char>>,
    p: PatternView,
    at: int,
    matched: Seq<char>,
)
    requires
        0 <= at < lines.len(),
        first_match_of(p.regex, lines[at]) == Some(matched),
        forall|j: int|
            0 <= j < lines.len() && j != at ==> first_match_of(p.regex, #[trigger] lines[j])
                is None,
    ensures
        candidates_of(path, lines, seq![p]).filter(tagged_with(p.name)) == seq![
            SecretCandidateView {
                path,
                line_number: (at + 1) as nat,
                secret_type: p.name,
                secret: matched,
                pattern: Some(p.name),
                severity: p.severity,
            },
        ],
{
    let hit = line_hit(path, p.regex, p.name, Some(p.name), p.severity);
    let found = SecretCandidateView {
        path,
        line_number: (at + 1) as nat,
        secret_type: p.name,
        secret: matched,
        pattern: Some(p.name),
        severity: p.severity,
    };
    let marked = lines.map(hit);
    assert(marked[at] == Some(found));
    assert forall|j: int| 0 <= j < marked.len() && j != at implies (#[trigger] marked[j])
        is None by {
        assert(marked[j] == hit(j, lines[j]));
    }
    lemma_present_single(marked, at, found);
    let named = seq![p].flat_map(pattern_hits(path, lines));
    seq![p].lemma_flat_map_singleton(pattern_hits(path, lines));
    assert(named == seq![found]);
    let generic = generic_hits(path, lines);
    let tagged = tagged_with(p.name);
    let generic_hit = line_hit(path, generic_pattern(), generic_type(), None, Severity::Medium);
    assert forall|i: int| 0 <= i < generic.len() implies !tagged(#[trigger] generic[i]) by {
        lemma_present_from(lines.map(generic_hit), i);
        let j = choose|j: int|
            0 <= j < lines.map(generic_hit).len() && #[trigger] lines.map(generic_hit)[j] == Some(
                generic[i],
            );
        assert(lines.map(generic_hit)[j] == generic_hit(j, lines[j]));
    }
    let never = |c: SecretCandidateView| false;
    lemma_filter_same(generic, tagged, never);
    generic.lemma_filter_len(never);
    if generic.filter(never).len() > 0 {
        generic.lemma_filter_pred(never, 0);
    }
    assert(generic.filter(tagged) =~= Seq::<SecretCandidateView>::empty());
    assert(tagged(found));
    assert forall|i: int| 0 <= i < named.len() implies tagged(#[trigger] named[i]) by {}
    lemma_filter_all(named, tagged);
    Seq::filter_distributes_over_add(named, generic, tagged);
    assert(named.filter(tagged) + generic.filter(tagged) =~= seq![found]);
}

} // verus!
