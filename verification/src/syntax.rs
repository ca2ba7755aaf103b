//! Checks of the form of a configuration text: brackets that match outside
//! of quoted strings, and indentation without tabs.

use crate::sequences::lemma_fold_step;
use crate::text::chars_of;
use crate::text::lines_of;
use crate::text::split_lines;
use vstd::prelude::*;

verus! {

/// Where the reading of the brackets of a text stands.
pub struct BracketState {
    /// The brackets that are open, the innermost last.
    pub open: Seq<char>,
    /// Whether a quoted string is being read.
    pub in_string: bool,
    /// Whether the last character of the string was a backslash that
    /// escapes the next.
    pub escaped: bool,
    /// Whether a bracket closed that was not open.
    pub bad: bool,
}

/// Whether `c` opens a bracket; round brackets count only with `round`.
pub open spec fn opens(c: char, round: bool) -> bool {
    c == '{' || c == '[' || (round && c == '(')
}

/// Whether `c` closes a bracket; round brackets count only with `round`.
pub open spec fn closes(c: char, round: bool) -> bool {
    c == '}' || c == ']' || (round && c == ')')
}

/// Whether the bracket `close` closes the bracket `open`.
pub open spec fn pairs(open: char, close: char) -> bool {
    (open == '{' && close == '}') || (open == '[' && close == ']') || (open == '(' && close == ')')
}

/// The state after one more character. Within a string only the closing
/// quote and the backslash count. Outside, a quote begins a string, an
/// opening bracket is remembered, and a closing bracket must close the
/// innermost open one.
pub open spec fn bracket_step(round: bool) -> spec_fn(BracketState, char) -> BracketState {
    |st: BracketState, c: char|
        if st.bad {
            st
        } else if st.in_string {
            if st.escaped {
                BracketState { escaped: false, ..st }
            } else if c == '\\' {
                BracketState { escaped: true, ..st }
            } else if c == '"' {
                BracketState { in_string: false, ..st }
            } else {
                st
            }
        } else if c == '"' {
            BracketState { in_string: true, ..st }
        } else if opens(c, round) {
            BracketState { open: st.open.push(c), ..st }
        } else if closes(c, round) {
            if st.open.len() > 0 && pairs(st.open.last(), c) {
                BracketState { open: st.open.drop_last(), ..st }
            } else {
                BracketState { bad: true, ..st }
            }
        } else {
            st
        }
}

/// The state before the first character.
pub open spec fn bracket_start() -> BracketState {
    BracketState { open: Seq::empty(), in_string: false, escaped: false, bad: false }
}

/// Whether the brackets of a text match: outside of quoted strings every
/// closing bracket closes the innermost open one, and at the end no
/// bracket and no string is open.
pub open spec fn brackets_match(text: Seq<char>, round: bool) -> bool {
    let end = text.fold_left(bracket_start(), bracket_step(round));
    !end.bad && !end.in_string && end.open.len() == 0
}

struct Brackets {
    open: Vec<char>,
    in_string: bool,
    escaped: bool,
    bad: bool,
}

impl Brackets {
    spec fn view(self) -> BracketState {
        BracketState {
            open: self.open@,
            in_string: self.in_string,
            escaped: self.escaped,
            bad: self.bad,
        }
    }
}

fn read_bracket(st: Brackets, c: char, round: bool) -> (r: Brackets)
    ensures
        r.view() == bracket_step(round)(st.view(), c),
{
    let mut st = st;
    if st.bad {
        return st;
    }
    if st.in_string {
        if st.escaped {
            st.escaped = false;
        } else if c == '\\' {
            st.escaped = true;
        } else if c == '"' {
            st.in_string = false;
        }
        return st;
    }
    if c == '"' {
        st.in_string = true;
    } else if c == '{' || c == '[' || (round && c == '(') {
        st.open.push(c);
    } else if c == '}' || c == ']' || (round && c == ')') {
        let n = st.open.len();
        if n > 0 && ((st.open[n - 1] == '{' && c == '}') || (st.open[n - 1] == '[' && c == ']') || (
        st.open[n - 1] == '(' && c == ')')) {
            let ghost before = st.open@;
            st.open.pop();
            assert(st.open@ =~= before.drop_last());
        } else {
            st.bad = true;
        }
    }
    st
}

/// Checks whether the brackets of a text match.
pub fn check_brackets(text: &str, round: bool) -> (ok: bool)
    ensures
        ok == brackets_match(text@, round),
{
    let chars = chars_of(text);
    let mut st = Brackets { open: Vec::new(), in_string: false, escaped: false, bad: false };
    let mut k: usize = 0;
    assert(st.view().open =~= Seq::<char>::empty());
    while k < chars.len()
        invariant
            k <= chars.len(),
            chars@ == text@,
            st.view() == chars@.take(k as int).fold_left(bracket_start(), bracket_step(round)),
        decreases chars.len() - k,
    {
        proof {
            lemma_fold_step(chars@, bracket_start(), bracket_step(round), k as int);
        }
        st = read_bracket(st, chars[k], round);
        k += 1;
    }
    assert(chars@.take(k as int) =~= chars@);
    !st.bad && !st.in_string && st.open.len() == 0
}

/// A line without the spaces at its start.
pub open spec fn after_spaces(line: Seq<char>) -> Seq<char>
    decreases line.len(),
{
    if line.len() > 0 && line[0] == ' ' {
        after_spaces(line.skip(1))
    } else {
        line
    }
}

/// Whether a tab stands in the indentation of a line: after the spaces at
/// its start comes a tab.
pub open spec fn tab_indented(line: Seq<char>) -> bool {
    after_spaces(line).len() > 0 && after_spaces(line)[0] == '\t'
}

/// Whether a tab stands in the indentation of a line of a text.
pub open spec fn has_tab_indent(text: Seq<char>) -> bool {
    exists|i: int| 0 <= i < lines_of(text).len() && tab_indented(#[trigger] lines_of(text)[i])
}

fn is_tab_indented(line: &str) -> (b: bool)
    ensures
        b == tab_indented(line@),
{
    let chars = chars_of(line);
    let mut i: usize = 0;
    assert(chars@.skip(0) =~= chars@);
    while i < chars.len() && chars[i] == ' '
        invariant
            i <= chars.len(),
            after_spaces(chars@) == after_spaces(chars@.skip(i as int)),
        decreases chars.len() - i,
    {
        assert(chars@.skip(i as int).skip(1) =~= chars@.skip(i + 1));
        i += 1;
    }
    i < chars.len() && chars[i] == '\t'
}

/// Checks whether a tab stands in the indentation of a line of a text.
pub fn check_tab_indent(text: &str) -> (found: bool)
    ensures
        found == has_tab_indent(text@),
{
    let lines = split_lines(text);
    let ghost all = lines.deep_view();
    let mut k: usize = 0;
    while k < lines.len()
        invariant
            k <= lines.len(),
            all == lines.deep_view(),
            all == lines_of(text@),
            forall|j: int| 0 <= j < k ==> !tab_indented(#[trigger] all[j]),
        decreases lines.len() - k,
    {
        assert(all[k as int] == lines@[k as int]@);
        if is_tab_indented(lines[k].as_str()) {
            return true;
        }
        k += 1;
    }
    false
}

/// Whether a text is malformed for a file type: JSON whose brackets do not
/// match, Terraform whose brackets, round ones too, do not match, YAML with
/// a tab in the indentation of a line. Of any other type nothing is asked.
pub open spec fn malformed(file_type: Seq<char>, text: Seq<char>) -> bool {
    if file_type == "json"@ {
        !brackets_match(text, false)
    } else if file_type == "terraform"@ {
        !brackets_match(text, true)
    } else if file_type == "yaml"@ {
        has_tab_indent(text)
    } else {
        false
    }
}

/// Checks whether a text is malformed for a file type.
pub fn is_malformed(file_type: &String, text: &str) -> (b: bool)
    ensures
        b == malformed(file_type@, text@),
{
    if *file_type == "json".to_owned() {
        !check_brackets(text, false)
    } else if *file_type == "terraform".to_owned() {
        !check_brackets(text, true)
    } else if *file_type == "yaml".to_owned() {
        check_tab_indent(text)
    } else {
        false
    }
}

} // verus!
