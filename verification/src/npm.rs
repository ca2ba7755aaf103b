//! The reader of `package-lock.json`: the text is read character by
//! character, and every package that it lists with its version gives a
//! dependency, in the order in which the versions stand in the file.

use crate::model::Dependency;
use crate::model::DependencyView;
use crate::sequences::lemma_fold_step;
use crate::text::after_last;
use crate::text::after_last_chars;
use crate::text::chars_are;
use crate::text::chars_of;
use crate::text::text_of;
use vstd::prelude::*;

verus! {

/// An object or an array that is open: the key under which it stands in
/// the object around it (empty where it has none) and whether it is an
/// object.
pub struct Frame {
    pub key: Seq<char>,
    pub is_object: bool,
}

/// Where the reading of a `package-lock.json` stands.
pub struct NpmState {
    /// The packages read so far.
    pub deps: Seq<DependencyView>,
    /// Whether a string is being read.
    pub in_string: bool,
    /// Whether the last character of the string was a backslash that
    /// escapes the next.
    pub escaped: bool,
    /// The string that is being read, or the last one that was read.
    pub text: Seq<char>,
    /// Whether a string was read that may be a key.
    pub have_text: bool,
    /// The key whose value comes next.
    pub key: Option<Seq<char>>,
    /// The objects and arrays that are open, the innermost last.
    pub stack: Seq<Frame>,
    /// Whether the outermost object has a member `packages` that is an
    /// object.
    pub seen_packages: bool,
    /// Whether the outermost object or array was closed.
    pub closed_root: bool,
    /// Whether the text is malformed.
    pub bad: bool,
}

/// Whether the innermost open object describes a package: it is a member
/// with a key of the object `packages` of the outermost object, or, in a
/// file without `packages`, a member of an object `dependencies`.
pub open spec fn in_package(stack: Seq<Frame>, seen_packages: bool) -> bool {
    &&& stack.len() >= 3
    &&& stack[stack.len() - 1].is_object
    &&& stack[stack.len() - 2].is_object
    &&& ((stack[stack.len() - 2].key == "packages"@ && stack.len() == 3 && stack[stack.len()
        - 1].key.len() > 0) || (stack[stack.len() - 2].key == "dependencies"@ && !seen_packages))
}

/// The name of the package that the innermost open object describes: for a
/// member of `packages`, what follows the last `node_modules/` of its key;
/// for a member of `dependencies`, its key.
pub open spec fn package_name(stack: Seq<Frame>) -> Seq<char> {
    if stack[stack.len() - 2].key == "packages"@ {
        after_last(stack[stack.len() - 1].key, "node_modules/"@)
    } else {
        stack[stack.len() - 1].key
    }
}

/// The state after a string has ended. A string behind a key is a value:
/// the value of `version` in an object that describes a package gives a
/// dependency, if neither name nor version is empty. A string without a key
/// before it may be a key itself.
pub open spec fn string_ended(st: NpmState) -> NpmState {
    match st.key {
        Some(k) => if k == "version"@ && in_package(st.stack, st.seen_packages) && package_name(
            st.stack,
        ).len() > 0 && st.text.len() > 0 {
            NpmState {
                deps: st.deps.push(
                    DependencyView {
                        name: package_name(st.stack),
                        version: st.text,
                        ecosystem: "npm"@,
                    },
                ),
                in_string: false,
                key: None,
                have_text: false,
                ..st
            }
        } else {
            NpmState { in_string: false, key: None, have_text: false, ..st }
        },
        None => NpmState { in_string: false, have_text: true, ..st },
    }
}

/// The state after an object or an array was opened.
pub open spec fn opened(st: NpmState, is_object: bool) -> NpmState {
    let key = match st.key {
        Some(k) => k,
        None => Seq::empty(),
    };
    NpmState {
        stack: st.stack.push(Frame { key, is_object }),
        key: None,
        have_text: false,
        seen_packages: st.seen_packages || (is_object && st.stack.len() == 1 && key
            == "packages"@),
        ..st
    }
}

/// The state after an object or an array was closed: the text is malformed
/// where none is open or the innermost open one is of the other kind.
pub open spec fn closed(st: NpmState, is_object: bool) -> NpmState {
    if st.stack.len() == 0 || st.stack.last().is_object != is_object {
        NpmState { bad: true, ..st }
    } else {
        NpmState {
            stack: st.stack.drop_last(),
            key: None,
            have_text: false,
            closed_root: st.closed_root || st.stack.len() == 1,
            ..st
        }
    }
}

/// The state after one more character.
pub open spec fn npm_step() -> spec_fn(NpmState, char) -> NpmState {
    |st: NpmState, c: char|
        if st.bad {
            st
        } else if st.in_string {
            if st.escaped {
                NpmState { text: st.text.push(c), escaped: false, ..st }
            } else if c == '\\' {
                NpmState { escaped: true, ..st }
            } else if c == '"' {
                string_ended(st)
            } else {
                NpmState { text: st.text.push(c), ..st }
            }
        } else if c == ' ' || c == '\t' || c == '\n' || c == '\r' {
            st
        } else if c == '"' {
            NpmState { in_string: true, text: Seq::empty(), have_text: false, ..st }
        } else if c == ':' {
            if st.have_text {
                NpmState { key: Some(st.text), have_text: false, ..st }
            } else {
                NpmState { bad: true, ..st }
            }
        } else if c == '{' || c == '[' {
            opened(st, c == '{')
        } else if c == '}' || c == ']' {
            closed(st, c == '}')
        } else {
            NpmState { key: None, have_text: false, ..st }
        }
}

/// The state before the first character.
pub open spec fn npm_start() -> NpmState {
    NpmState {
        deps: Seq::empty(),
        in_string: false,
        escaped: false,
        text: Seq::empty(),
        have_text: false,
        key: None,
        stack: Seq::empty(),
        seen_packages: false,
        closed_root: false,
        bad: false,
    }
}

/// The state at the end of a text.
pub open spec fn npm_end(text: Seq<char>) -> NpmState {
    text.fold_left(npm_start(), npm_step())
}

/// Whether a text is a `package-lock.json` that can be read: its brackets
/// match, no string is left open, and its outermost object was closed.
pub open spec fn npm_readable(text: Seq<char>) -> bool {
    let end = npm_end(text);
    !end.bad && !end.in_string && end.stack.len() == 0 && end.closed_root
}

struct OpenFrame {
    key: Vec<char>,
    is_object: bool,
}

impl View for OpenFrame {
    type V = Frame;

    closed spec fn view(&self) -> Frame {
        Frame { key: self.key@, is_object: self.is_object }
    }
}

impl DeepView for OpenFrame {
    type V = Frame;

    closed spec fn deep_view(&self) -> Frame {
        self@
    }
}

struct NpmReader {
    deps: Vec<Dependency>,
    in_string: bool,
    escaped: bool,
    text: Vec<char>,
    have_text: bool,
    key: Option<Vec<char>>,
    stack: Vec<OpenFrame>,
    seen_packages: bool,
    closed_root: bool,
    bad: bool,
}

impl NpmReader {
    spec fn view(self) -> NpmState {
        NpmState {
            deps: self.deps.deep_view(),
            in_string: self.in_string,
            escaped: self.escaped,
            text: self.text@,
            have_text: self.have_text,
            key: match self.key {
                Some(k) => Some(k@),
                None => None,
            },
            stack: self.stack.deep_view(),
            seen_packages: self.seen_packages,
            closed_root: self.closed_root,
            bad: self.bad,
        }
    }
}

fn is_in_package(stack: &Vec<OpenFrame>, seen_packages: bool) -> (b: bool)
    ensures
        b == in_package(stack.deep_view(), seen_packages),
{
    let n = stack.len();
    if n < 3 {
        return false;
    }
    proof {
        reveal_strlit("packages");
        reveal_strlit("dependencies");
        assert(stack.deep_view()[n - 1].key == stack@[n - 1].key@);
        assert(stack.deep_view()[n - 2].key == stack@[n - 2].key@);
        assert(stack.deep_view()[n - 1].is_object == stack@[n - 1].is_object);
        assert(stack.deep_view()[n - 2].is_object == stack@[n - 2].is_object);
    }
    if !stack[n - 1].is_object || !stack[n - 2].is_object {
        return false;
    }
    if chars_are(&stack[n - 2].key, "packages") {
        n == 3 && stack[n - 1].key.len() > 0
    } else if chars_are(&stack[n - 2].key, "dependencies") {
        !seen_packages
    } else {
        false
    }
}

fn name_of_package(stack: &Vec<OpenFrame>) -> (name: Vec<char>)
    requires
        stack.len() >= 2,
    ensures
        name@ == package_name(stack.deep_view()),
{
    let n = stack.len();
    assert(stack.deep_view()[n - 1] == stack@[n - 1]@);
    assert(stack.deep_view()[n - 2] == stack@[n - 2]@);
    if chars_are(&stack[n - 2].key, "packages") {
        after_last_chars(&stack[n - 1].key, "node_modules/")
    } else {
        let key = &stack[n - 1].key;
        let copy = crate::text::sub_chars(key, 0, key.len());
        assert(key@.subrange(0, key.len() as int) =~= key@);
        copy
    }
}

fn end_string(st: NpmReader) -> (r: NpmReader)
    ensures
        r.view() == string_ended(st.view()),
{
    let mut st = st;
    st.in_string = false;
    match &st.key {
        Some(k) => {
            if chars_are(k, "version") && is_in_package(&st.stack, st.seen_packages) {
                let name = name_of_package(&st.stack);
                if name.len() > 0 && st.text.len() > 0 {
                    let d = Dependency {
                        name: text_of(&name),
                        version: text_of(&st.text),
                        ecosystem: "npm".to_owned(),
                    };
                    let ghost before = st.deps.deep_view();
                    st.deps.push(d);
                    assert(st.deps.deep_view() =~= before.push(d@));
                }
            }
            st.key = None;
            st.have_text = false;
        },
        None => {
            st.have_text = true;
        },
    }
    st
}

fn open_frame(st: NpmReader, is_object: bool) -> (r: NpmReader)
    ensures
        r.view() == opened(st.view(), is_object),
{
    let mut st = st;
    let key: Vec<char> = match st.key {
        Some(k) => k,
        None => Vec::new(),
    };
    let is_packages = is_object && st.stack.len() == 1 && chars_are(&key, "packages");
    let ghost before = st.stack.deep_view();
    let frame = OpenFrame { key, is_object };
    st.stack.push(frame);
    assert(st.stack.deep_view() =~= before.push(frame@));
    st.key = None;
    st.have_text = false;
    st.seen_packages = st.seen_packages || is_packages;
    st
}

fn close_frame(st: NpmReader, is_object: bool) -> (r: NpmReader)
    ensures
        r.view() == closed(st.view(), is_object),
{
    let mut st = st;
    let n = st.stack.len();
    if n == 0 {
        st.bad = true;
        return st;
    }
    assert(st.stack.deep_view().last() == st.stack@[n - 1]@);
    if st.stack[n - 1].is_object != is_object {
        st.bad = true;
        return st;
    }
    let ghost before = st.stack.deep_view();
    st.stack.pop();
    assert(st.stack.deep_view() =~= before.drop_last());
    st.key = None;
    st.have_text = false;
    st.closed_root = st.closed_root || n == 1;
    st
}

fn npm_read(st: NpmReader, c: char) -> (r: NpmReader)
    ensures
        r.view() == npm_step()(st.view(), c),
{
    let mut st = st;
    if st.bad {
        return st;
    }
    if st.in_string {
        if st.escaped {
            st.text.push(c);
            st.escaped = false;
            return st;
        } else if c == '\\' {
            st.escaped = true;
            return st;
        } else if c == '"' {
            return end_string(st);
        } else {
            st.text.push(c);
            return st;
        }
    }
    if c == ' ' || c == '\t' || c == '\n' || c == '\r' {
        st
    } else if c == '"' {
        st.in_string = true;
        st.text = Vec::new();
        st.have_text = false;
        st
    } else if c == ':' {
        if st.have_text {
            let key = crate::text::sub_chars(&st.text, 0, st.text.len());
            assert(st.text@.subrange(0, st.text.len() as int) =~= st.text@);
            st.key = Some(key);
            st.have_text = false;
        } else {
            st.bad = true;
        }
        st
    } else if c == '{' || c == '[' {
        open_frame(st, c == '{')
    } else if c == '}' || c == ']' {
        close_frame(st, c == '}')
    } else {
        st.key = None;
        st.have_text = false;
        st
    }
}

/// Reads the packages of a `package-lock.json` from its text.
///
/// The result is an error exactly when the text cannot be read: a bracket
/// does not match, a string is left open, a colon has no key before it, or
/// the outermost object is never closed. Otherwise it holds one dependency
/// for every package that the file lists with a version, in the order in
/// which the versions stand in the file.
pub fn parse_package_lock(text: &str) -> (r: Result<Vec<Dependency>, crate::deps::DepScanError>)
    ensures
        npm_readable(text@) ==> (r matches Ok(deps) && deps.deep_view() == npm_end(text@).deps),
        !npm_readable(text@) ==> (r matches Err(crate::deps::DepScanError::ParseError(m)) && m@
            == "malformed package-lock.json"@),
{
    let chars = chars_of(text);
    let mut st = NpmReader {
        deps: Vec::new(),
        in_string: false,
        escaped: false,
        text: Vec::new(),
        have_text: false,
        key: None,
        stack: Vec::new(),
        seen_packages: false,
        closed_root: false,
        bad: false,
    };
    proof {
        assert(st.deps.deep_view() =~= Seq::<DependencyView>::empty());
        assert(st.stack.deep_view() =~= Seq::<Frame>::empty());
        assert(st.view().text =~= Seq::<char>::empty());
    }
    let mut k: usize = 0;
    while k < chars.len()
        invariant
            k <= chars.len(),
            chars@ == text@,
            st.view() == chars@.take(k as int).fold_left(npm_start(), npm_step()),
        decreases chars.len() - k,
    {
        proof {
            lemma_fold_step(chars@, npm_start(), npm_step(), k as int);
        }
        st = npm_read(st, chars[k]);
        k += 1;
    }
    assert(chars@.take(k as int) =~= chars@);
    if !st.bad && !st.in_string && st.stack.len() == 0 && st.closed_root {
        Ok(st.deps)
    } else {
        Err(crate::deps::DepScanError::ParseError("malformed package-lock.json".to_owned()))
    }
}

} // verus!
