//! Lockfiles: which format a file has, by its name, and the dependencies
//! that a lockfile of each format records. `package-lock.json` is read in
//! the module `npm`.

use crate::deps::DepScanError;
use crate::model::Dependency;
use crate::model::DependencyView;
use crate::npm::npm_end;
use crate::npm::npm_readable;
use crate::npm::parse_package_lock;
use crate::sequences::lemma_filter_map_step;
use crate::sequences::lemma_fold_step;
use crate::text::chars_of;
use crate::text::ends_with;
use crate::text::file_name;
use crate::text::file_name_of;
use crate::text::find_char;
use crate::text::has_prefix;
use crate::text::has_suffix;
use crate::text::index_of_char;
use crate::text::lines_of;
use crate::text::split_lines;
use crate::text::starts_with;
use crate::text::sub_chars;
use crate::text::text_of;
use crate::text::trim_chars;
use crate::text::trimmed;
use vstd::prelude::*;

verus! {

/// The formats of lockfiles that are read.
#[derive(Debug, Clone, Copy, PartialEq, Eq, Structural)]
pub enum LockfileFormat {
    /// `Cargo.lock`
    CargoLock,
    /// `package-lock.json`
    PackageLock,
    /// `requirements.txt`
    Requirements,
    /// `go.sum`
    GoSum,
}

/// The format of a file, by the name of the file.
pub open spec fn format_of(path: Seq<char>) -> Option<LockfileFormat> {
    let name = file_name_of(path);
    if name == "Cargo.lock"@ {
        Some(LockfileFormat::CargoLock)
    } else if name == "package-lock.json"@ {
        Some(LockfileFormat::PackageLock)
    } else if name == "requirements.txt"@ {
        Some(LockfileFormat::Requirements)
    } else if name == "go.sum"@ {
        Some(LockfileFormat::GoSum)
    } else {
        None
    }
}

/// Finds the format of a lockfile from its name.
pub fn detect_format(path: &str) -> (r: Option<LockfileFormat>)
    ensures
        r == format_of(path@),
{
    let name = file_name(path);
    if name == "Cargo.lock".to_owned() {
        Some(LockfileFormat::CargoLock)
    } else if name == "package-lock.json".to_owned() {
        Some(LockfileFormat::PackageLock)
    } else if name == "requirements.txt".to_owned() {
        Some(LockfileFormat::Requirements)
    } else if name == "go.sum".to_owned() {
        Some(LockfileFormat::GoSum)
    } else {
        None
    }
}

/// What a line of a lockfile says.
pub enum LineView {
    /// Nothing: a blank line, a comment.
    Skip,
    /// A dependency.
    Entry(DependencyView),
    /// Nothing that the format allows.
    Malformed,
}

/// What a line of `requirements.txt` says. A blank line and a line that
/// starts with `#` say nothing. Any other line must be a name, `==` and a
/// version, with blanks allowed around each.
pub open spec fn requirement_line(line: Seq<char>) -> LineView {
    let t = trimmed(line);
    if t.len() == 0 || t[0] == '#' {
        LineView::Skip
    } else {
        let i = index_of_char(t, '=');
        if i < 0 || i + 1 >= t.len() || t[i + 1] != '=' {
            LineView::Malformed
        } else {
            let name = trimmed(t.take(i));
            let version = trimmed(t.skip(i + 2));
            if name.len() == 0 || version.len() == 0 {
                LineView::Malformed
            } else {
                LineView::Entry(DependencyView { name, version, ecosystem: "PyPI"@ })
            }
        }
    }
}

/// What a line of `go.sum` says. A blank line says nothing. Any other line
/// must be a module, a space and a version, and may go on after another
/// space. A line for the `go.mod` file of a module, whose version ends in
/// `/go.mod`, says nothing.
pub open spec fn go_sum_line(line: Seq<char>) -> LineView {
    let t = trimmed(line);
    if t.len() == 0 {
        LineView::Skip
    } else {
        let i = index_of_char(t, ' ');
        if i <= 0 {
            LineView::Malformed
        } else {
            let rest = t.skip(i + 1);
            let j = index_of_char(rest, ' ');
            let version = if j < 0 {
                rest
            } else {
                rest.take(j)
            };
            if version.len() == 0 {
                LineView::Malformed
            } else if ends_with(version, "/go.mod"@) {
                LineView::Skip
            } else {
                LineView::Entry(DependencyView { name: t.take(i), version, ecosystem: "Go"@ })
            }
        }
    }
}

/// What a line says in a format that is read line by line. In a format
/// that is not, no line is well formed.
pub open spec fn line_of(format: LockfileFormat, line: Seq<char>) -> LineView {
    match format {
        LockfileFormat::GoSum => go_sum_line(line),
        LockfileFormat::Requirements => requirement_line(line),
        _ => LineView::Malformed,
    }
}

/// The dependency that a line records, if it records one.
pub open spec fn entry_of(format: LockfileFormat) -> spec_fn(Seq<char>) -> Option<DependencyView> {
    |line: Seq<char>|
        match line_of(format, line) {
            LineView::Entry(d) => Some(d),
            _ => None,
        }
}

/// The dependencies that the lines of a lockfile record, line by line.
pub open spec fn entries_of(format: LockfileFormat, lines: Seq<Seq<char>>) -> Seq<DependencyView> {
    lines.filter_map(entry_of(format))
}

/// The first malformed line, if there is one.
pub open spec fn first_malformed(format: LockfileFormat, lines: Seq<Seq<char>>) -> Option<
    Seq<char>,
>
    decreases lines.len(),
{
    if lines.len() == 0 {
        None
    } else if line_of(format, lines[0]) is Malformed {
        Some(lines[0])
    } else {
        first_malformed(format, lines.skip(1))
    }
}

enum ParsedLine {
    Skip,
    Entry(Dependency),
    Malformed,
}

impl ParsedLine {
    spec fn view(self) -> LineView {
        match self {
            ParsedLine::Skip => LineView::Skip,
            ParsedLine::Entry(d) => LineView::Entry(d@),
            ParsedLine::Malformed => LineView::Malformed,
        }
    }
}

fn parse_requirement(line: &str) -> (r: ParsedLine)
    ensures
        r.view() == requirement_line(line@),
{
    let chars = chars_of(line);
    let t = trim_chars(&chars);
    if t.len() == 0 || t[0] == '#' {
        return ParsedLine::Skip;
    }
    match find_char(&t, '=') {
        Some(i) => {
            if i + 1 >= t.len() || t[i + 1] != '=' {
                return ParsedLine::Malformed;
            }
            let left = sub_chars(&t, 0, i);
            let right = sub_chars(&t, i + 2, t.len());
            assert(left@ =~= t@.take(i as int));
            assert(right@ =~= t@.skip(i + 2));
            let name = trim_chars(&left);
            let version = trim_chars(&right);
            if name.len() == 0 || version.len() == 0 {
                ParsedLine::Malformed
            } else {
                ParsedLine::Entry(
                    Dependency {
                        name: text_of(&name),
                        version: text_of(&version),
                        ecosystem: "PyPI".to_owned(),
                    },
                )
            }
        },
        None => ParsedLine::Malformed,
    }
}

fn parse_go_sum_line(line: &str) -> (r: ParsedLine)
    ensures
        r.view() == go_sum_line(line@),
{
    let chars = chars_of(line);
    let t = trim_chars(&chars);
    if t.len() == 0 {
        return ParsedLine::Skip;
    }
    match find_char(&t, ' ') {
        Some(i) => {
            if i == 0 {
                return ParsedLine::Malformed;
            }
            let rest = sub_chars(&t, i + 1, t.len());
            assert(rest@ =~= t@.skip(i + 1));
            let version = match find_char(&rest, ' ') {
                Some(j) => {
                    let v = sub_chars(&rest, 0, j);
                    assert(v@ =~= rest@.take(j as int));
                    v
                },
                None => rest,
            };
            if version.len() == 0 {
                ParsedLine::Malformed
            } else if has_suffix(&version, "/go.mod") {
                ParsedLine::Skip
            } else {
                let module = sub_chars(&t, 0, i);
                assert(module@ =~= t@.take(i as int));
                ParsedLine::Entry(
                    Dependency {
                        name: text_of(&module),
                        version: text_of(&version),
                        ecosystem: "Go".to_owned(),
                    },
                )
            }
        },
        None => ParsedLine::Malformed,
    }
}

fn parse_line(format: LockfileFormat, line: &str) -> (r: ParsedLine)
    ensures
        r.view() == line_of(format, line@),
{
    match format {
        LockfileFormat::GoSum => parse_go_sum_line(line),
        LockfileFormat::Requirements => parse_requirement(line),
        _ => ParsedLine::Malformed,
    }
}

/// Reads a lockfile of a format that is read line by line.
///
/// The result is an error exactly when a line is malformed; it carries the
/// first such line. Otherwise the result holds the dependencies of the
/// lines, in the order of the lines.
pub fn parse_lines(format: LockfileFormat, lines: &Vec<String>) -> (r: Result<
    Vec<Dependency>,
    DepScanError,
>)
    ensures
        first_malformed(format, lines.deep_view()) is None ==> (r matches Ok(deps)
            && deps.deep_view() == entries_of(format, lines.deep_view())),
        first_malformed(format, lines.deep_view()) is Some ==> (r matches Err(
            DepScanError::ParseError(line),
        ) && Some(line@) == first_malformed(format, lines.deep_view())),
{
    let ghost all = lines.deep_view();
    let ghost entry = entry_of(format);
    let mut deps: Vec<Dependency> = Vec::new();
    let mut k: usize = 0;
    proof {
        assert(all.skip(0) =~= all);
        assert(deps.deep_view() =~= Seq::<DependencyView>::empty());
        assert(all.take(0).filter_map(entry) =~= Seq::<DependencyView>::empty());
    }
    while k < lines.len()
        invariant
            k <= lines.len(),
            all == lines.deep_view(),
            entry == entry_of(format),
            first_malformed(format, all) == first_malformed(format, all.skip(k as int)),
            deps.deep_view() == all.take(k as int).filter_map(entry),
        decreases lines.len() - k,
    {
        proof {
            assert(all[k as int] == lines@[k as int]@);
            assert(all.skip(k as int)[0] == all[k as int]);
            lemma_filter_map_step(all, entry, k as int);
        }
        match parse_line(format, lines[k].as_str()) {
            ParsedLine::Skip => {},
            ParsedLine::Entry(d) => {
                let ghost before = deps.deep_view();
                deps.push(d);
                assert(deps.deep_view() =~= before.push(d@));
            },
            ParsedLine::Malformed => {
                return Err(DepScanError::ParseError(lines[k].clone()));
            },
        }
        assert(all.skip(k as int).skip(1) =~= all.skip(k + 1));
        k += 1;
    }
    assert(all.skip(k as int).len() == 0);
    assert(all.take(k as int) =~= all);
    Ok(deps)
}

/// Where the reading of a `Cargo.lock` stands: the packages read so far,
/// whether a package is being read, its name and version as far as they
/// were seen, and whether a package without name or version was met.
pub struct CargoState {
    pub deps: Seq<DependencyView>,
    pub open: bool,
    pub name: Option<Seq<char>>,
    pub version: Option<Seq<char>>,
    pub bad: bool,
}

/// The value of a line of the form key, ` = "`, value, `"`.
pub open spec fn quoted_value(t: Seq<char>, prefix: Seq<char>) -> Option<Seq<char>> {
    if starts_with(t, prefix) && ends_with(t, "\""@) && t.len() >= prefix.len() + 1 {
        Some(t.subrange(prefix.len() as int, t.len() - 1))
    } else {
        None
    }
}

/// The state after the package that is being read, if any, has ended: with
/// name and version it is one more dependency; without, the file is bad.
pub open spec fn cargo_close(st: CargoState) -> CargoState {
    if !st.open {
        st
    } else if st.name is Some && st.version is Some {
        CargoState {
            deps: st.deps.push(
                DependencyView {
                    name: st.name->0,
                    version: st.version->0,
                    ecosystem: "crates.io"@,
                },
            ),
            open: false,
            name: None,
            version: None,
            bad: st.bad,
        }
    } else {
        CargoState { deps: st.deps, open: false, name: None, version: None, bad: true }
    }
}

/// The state after one more line. `[[package]]` ends the package that is
/// being read and begins another; any other line that starts with `[`
/// ends it; within a package, `name = "..."` and `version = "..."` give its
/// name and version; every other line is passed over.
pub open spec fn cargo_step() -> spec_fn(CargoState, Seq<char>) -> CargoState {
    |st: CargoState, line: Seq<char>|
        {
            let t = trimmed(line);
            if t == "[[package]]"@ {
                CargoState { open: true, ..cargo_close(st) }
            } else if starts_with(t, "["@) {
                cargo_close(st)
            } else if st.open && quoted_value(t, "name = \""@) is Some {
                CargoState { name: quoted_value(t, "name = \""@), ..st }
            } else if st.open && quoted_value(t, "version = \""@) is Some {
                CargoState { version: quoted_value(t, "version = \""@), ..st }
            } else {
                st
            }
        }
}

/// The state before the first line: nothing read, no package begun.
pub open spec fn cargo_start() -> CargoState {
    CargoState { deps: Seq::empty(), open: false, name: None, version: None, bad: false }
}

/// The state at the end of a `Cargo.lock`: after all its lines, with the
/// package that was being read ended.
pub open spec fn cargo_end(lines: Seq<Seq<char>>) -> CargoState {
    cargo_close(lines.fold_left(cargo_start(), cargo_step()))
}

struct CargoReader {
    deps: Vec<Dependency>,
    open: bool,
    name: Option<String>,
    version: Option<String>,
    bad: bool,
}

impl CargoReader {
    spec fn view(self) -> CargoState {
        CargoState {
            deps: self.deps.deep_view(),
            open: self.open,
            name: self.name.deep_view(),
            version: self.version.deep_view(),
            bad: self.bad,
        }
    }

    fn close(self) -> (r: CargoReader)
        ensures
            r.view() == cargo_close(self.view()),
    {
        if !self.open {
            return self;
        }
        let mut deps = self.deps;
        match (self.name, self.version) {
            (Some(name), Some(version)) => {
                let ghost before = deps.deep_view();
                let d = Dependency { name, version, ecosystem: "crates.io".to_owned() };
                deps.push(d);
                assert(deps.deep_view() =~= before.push(d@));
                CargoReader { deps, open: false, name: None, version: None, bad: self.bad }
            },
            _ => CargoReader { deps, open: false, name: None, version: None, bad: true },
        }
    }
}

fn read_quoted(t: &Vec<char>, prefix: &str) -> (r: Option<String>)
    ensures
        r.deep_view() == quoted_value(t@, prefix@),
{
    let p = chars_of(prefix);
    if has_prefix(t, prefix) && has_suffix(t, "\"") && t.len() > p.len() {
        let inner = sub_chars(t, p.len(), t.len() - 1);
        Some(text_of(&inner))
    } else {
        None
    }
}

fn is_package_header(t: &Vec<char>) -> (b: bool)
    ensures
        b == (t@ == "[[package]]"@),
{
    let s = text_of(t);
    s == "[[package]]".to_owned()
}

fn cargo_read(reader: CargoReader, line: &str) -> (r: CargoReader)
    ensures
        r.view() == cargo_step()(reader.view(), line@),
{
    let chars = chars_of(line);
    let t = trim_chars(&chars);
    if is_package_header(&t) {
        let mut closed = reader.close();
        closed.open = true;
        return closed;
    }
    if has_prefix(&t, "[") {
        return reader.close();
    }
    if reader.open {
        let name = read_quoted(&t, "name = \"");
        if name.is_some() {
            let mut r = reader;
            r.name = name;
            return r;
        }
        let version = read_quoted(&t, "version = \"");
        if version.is_some() {
            let mut r = reader;
            r.version = version;
            return r;
        }
    }
    reader
}

/// Reads a `Cargo.lock` from its lines.
///
/// The result is an error exactly when a package of the file lacks its name
/// or its version. Otherwise it holds the packages of the file, in their
/// order.
pub fn parse_cargo_lock(lines: &Vec<String>) -> (r: Result<Vec<Dependency>, DepScanError>)
    ensures
        !cargo_end(lines.deep_view()).bad ==> (r matches Ok(deps) && deps.deep_view() == cargo_end(
            lines.deep_view(),
        ).deps),
        cargo_end(lines.deep_view()).bad ==> (r matches Err(DepScanError::ParseError(m)) && m@
            == "package without name or version"@),
{
    let ghost all = lines.deep_view();
    let mut reader = CargoReader {
        deps: Vec::new(),
        open: false,
        name: None,
        version: None,
        bad: false,
    };
    assert(reader.deps.deep_view() =~= Seq::<DependencyView>::empty());
    let mut k: usize = 0;
    while k < lines.len()
        invariant
            k <= lines.len(),
            all == lines.deep_view(),
            reader.view() == all.take(k as int).fold_left(cargo_start(), cargo_step()),
        decreases lines.len() - k,
    {
        proof {
            assert(all[k as int] == lines@[k as int]@);
            lemma_fold_step(all, cargo_start(), cargo_step(), k as int);
        }
        reader = cargo_read(reader, lines[k].as_str());
        k += 1;
    }
    assert(all.take(k as int) =~= all);
    let end = reader.close();
    if end.bad {
        Err(DepScanError::ParseError("package without name or version".to_owned()))
    } else {
        Ok(end.deps)
    }
}

/// The dependencies that a lockfile records, or why it cannot be read.
pub enum LockfileView {
    Read(Seq<DependencyView>),
    Refused(Seq<char>),
}

/// What the reading of a lockfile gives: by the format that the name of the
/// file tells, its dependencies or the reason why it is refused.
pub open spec fn lockfile_of(path: Seq<char>, content: Seq<char>) -> LockfileView {
    let lines = lines_of(content);
    match format_of(path) {
        None => LockfileView::Refused("Unsupported lockfile format"@),
        Some(LockfileFormat::CargoLock) => if cargo_end(lines).bad {
            LockfileView::Refused("package without name or version"@)
        } else {
            LockfileView::Read(cargo_end(lines).deps)
        },
        Some(LockfileFormat::PackageLock) => if npm_readable(content) {
            LockfileView::Read(npm_end(content).deps)
        } else {
            LockfileView::Refused("malformed package-lock.json"@)
        },
        Some(format) => match first_malformed(format, lines) {
            Some(line) => LockfileView::Refused(line),
            None => LockfileView::Read(entries_of(format, lines)),
        },
    }
}

/// Reads the dependencies of a lockfile from its text. The name of the
/// file tells the format; a file of no known format is refused. Malformed
/// text is refused with a parse error, never with a panic.
pub fn parse_lockfile(path: &str, content: &str) -> (r: Result<Vec<Dependency>, DepScanError>)
    ensures
        match lockfile_of(path@, content@) {
            LockfileView::Read(deps) => r matches Ok(found) && found.deep_view() == deps,
            LockfileView::Refused(reason) => r matches Err(DepScanError::ParseError(m)) && m@
                == reason,
        },
{
    match detect_format(path) {
        None => Err(DepScanError::ParseError("Unsupported lockfile format".to_owned())),
        Some(format) => {
            let lines = split_lines(content);
            match format {
                LockfileFormat::CargoLock => parse_cargo_lock(&lines),
                LockfileFormat::PackageLock => parse_package_lock(content),
                _ => parse_lines(format, &lines),
            }
        },
    }
}

} // verus!
