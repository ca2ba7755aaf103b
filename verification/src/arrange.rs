//! Grouping and sorting of findings. Both keep every finding and change
//! only the order; both are stable.

use crate::model::Issue;
use crate::model::IssueView;
use crate::report::GroupBy;
use crate::report::SortBy;
use crate::sequences::either;
use crate::sequences::lemma_present_none;
use crate::sequences::lemma_present_step;
use crate::sequences::those_present;
use crate::sequences::lemma_filter_all;
use crate::sequences::lemma_filter_same;
use crate::sequences::lemma_filter_split;
use crate::severity::Severity;
use crate::text::chars_le;
use crate::text::chars_of;
use crate::text::lemma_text_le_total;
use crate::text::lemma_text_le_transitive;
use crate::text::text_le;
use vstd::prelude::*;

verus! {

/// Whether two findings fall into the same group.
pub open spec fn same_group(a: IssueView, b: IssueView, by: GroupBy) -> bool {
    match by {
        GroupBy::Scanner => a.scanner == b.scanner,
        GroupBy::Severity => a.severity == b.severity,
        GroupBy::Category => a.category == b.category,
        GroupBy::File => a.file() == b.file(),
    }
}

/// Whether the finding at `i` is the first of its group.
pub open spec fn opens_group(s: Seq<IssueView>, i: int, by: GroupBy) -> bool {
    forall|j: int| 0 <= j < i ==> !same_group(#[trigger] s[j], s[i], by)
}

/// The findings of the group of `of`, in their order.
pub open spec fn members(s: Seq<IssueView>, of: IssueView, by: GroupBy) -> Seq<IssueView> {
    s.filter(|x: IssueView| same_group(x, of, by))
}

/// A finding, given its position, if it is the first of its group.
pub open spec fn opener(s: Seq<IssueView>, by: GroupBy) -> spec_fn(int, IssueView) -> Option<
    IssueView,
> {
    |i: int, x: IssueView|
        if opens_group(s, i, by) {
            Some(x)
        } else {
            None
        }
}

/// The first finding of each group, in the order of the list.
pub open spec fn openers(s: Seq<IssueView>, by: GroupBy) -> Seq<IssueView> {
    those_present(s.map(opener(s, by)))
}

/// The findings of a group, as a function of a finding of the group.
pub open spec fn members_of(s: Seq<IssueView>, by: GroupBy) -> spec_fn(IssueView) -> Seq<
    IssueView,
> {
    |of: IssueView| members(s, of, by)
}

/// The findings put together by group: groups in the order of their first
/// finding, the findings of a group in the order of the list.
pub open spec fn grouped(s: Seq<IssueView>, by: GroupBy) -> Seq<IssueView> {
    openers(s, by).flat_map(members_of(s, by))
}

spec fn grouped_upto(s: Seq<IssueView>, by: GroupBy, k: nat) -> Seq<IssueView>
    decreases k,
{
    if k == 0 {
        Seq::empty()
    } else {
        let before = grouped_upto(s, by, (k - 1) as nat);
        if opens_group(s, k - 1, by) {
            before + members(s, s[k - 1], by)
        } else {
            before
        }
    }
}

proof fn lemma_grouped_upto_direct(s: Seq<IssueView>, by: GroupBy, k: nat)
    requires
        k <= s.len(),
    ensures
        grouped_upto(s, by, k) == those_present(s.map(opener(s, by)).take(k as int)).flat_map(
            members_of(s, by),
        ),
        k == s.len() ==> grouped_upto(s, by, k) == grouped(s, by),
    decreases k,
{
    let marked = s.map(opener(s, by));
    if k == 0 {
        lemma_present_none(marked);
        assert(those_present(marked.take(0)).map_values(members_of(s, by)) =~= Seq::<
            Seq<IssueView>,
        >::empty());
    } else {
        lemma_grouped_upto_direct(s, by, (k - 1) as nat);
        lemma_present_step(marked, k - 1);
        assert(marked[k - 1] == opener(s, by)(k - 1, s[k - 1]));
        if opens_group(s, k - 1, by) {
            those_present(marked.take(k - 1)).lemma_flat_map_push(members_of(s, by), s[k - 1]);
        }
    }
    if k == s.len() {
        assert(marked.take(k as int) =~= marked);
    }
}

fn same_file(a: &Issue, b: &Issue) -> (r: bool)
    ensures
        r == (a@.file() == b@.file()),
{
    match (&a.location, &b.location) {
        (Some(l), Some(m)) => l.path == m.path,
        (Some(l), None) => {
            let e = l.path.as_str().is_empty();
            assert(e == (l.path@ =~= Seq::<char>::empty()));
            e
        },
        (None, Some(m)) => {
            let e = m.path.as_str().is_empty();
            assert(e == (m.path@ =~= Seq::<char>::empty()));
            e
        },
        (None, None) => true,
    }
}

fn in_same_group(a: &Issue, b: &Issue, by: GroupBy) -> (r: bool)
    ensures
        r == same_group(a@, b@, by),
{
    match by {
        GroupBy::Scanner => a.scanner == b.scanner,
        GroupBy::Severity => a.severity == b.severity,
        GroupBy::Category => a.category == b.category,
        GroupBy::File => same_file(a, b),
    }
}

fn is_group_opener(issues: &Vec<Issue>, i: usize, by: GroupBy) -> (r: bool)
    requires
        i < issues.len(),
    ensures
        r == opens_group(issues.deep_view(), i as int, by),
{
    let ghost s = issues.deep_view();
    let mut j: usize = 0;
    while j < i
        invariant
            j <= i < issues.len(),
            s == issues.deep_view(),
            forall|m: int| 0 <= m < j ==> !same_group(#[trigger] s[m], s[i as int], by),
        decreases i - j,
    {
        assert(s[j as int] == issues@[j as int]@);
        assert(s[i as int] == issues@[i as int]@);
        if in_same_group(&issues[j], &issues[i], by) {
            return false;
        }
        j += 1;
    }
    true
}

fn append_members(issues: &Vec<Issue>, of: &Issue, by: GroupBy, out: &mut Vec<Issue>)
    ensures
        final(out).deep_view() == old(out).deep_view() + members(issues.deep_view(), of@, by),
{
    let ghost s = issues.deep_view();
    let ghost start = out.deep_view();
    let ghost pred = |x: IssueView| same_group(x, of@, by);
    let mut k: usize = 0;
    proof {
        reveal(Seq::filter);
        assert(s.take(0).filter(pred) =~= Seq::<IssueView>::empty());
        assert(out.deep_view() =~= start + s.take(0).filter(pred));
    }
    while k < issues.len()
        invariant
            k <= issues.len(),
            s == issues.deep_view(),
            pred == (|x: IssueView| same_group(x, of@, by)),
            out.deep_view() == start + s.take(k as int).filter(pred),
        decreases issues.len() - k,
    {
        let issue = &issues[k];
        proof {
            assert(s[k as int] == issue@);
            assert(s.take(k + 1) =~= s.take(k as int).push(issue@));
            s.take(k as int).lemma_filter_push(issue@, pred);
        }
        if in_same_group(issue, of, by) {
            let ghost before = out.deep_view();
            out.push(issue.clone());
            assert(out.deep_view() =~= before.push(issue@));
            assert(out.deep_view() =~= start + s.take(k + 1).filter(pred));
        }
        k += 1;
    }
    assert(s.take(k as int) =~= s);
}

/// Puts the findings together by group. Groups come in the order of their
/// first finding; within a group the findings keep their order.
pub fn group_issues(issues: &Vec<Issue>, by: GroupBy) -> (r: Vec<Issue>)
    ensures
        r.deep_view() == grouped(issues.deep_view(), by),
{
    let ghost s = issues.deep_view();
    let mut out: Vec<Issue> = Vec::new();
    let mut i: usize = 0;
    assert(out.deep_view() =~= Seq::<IssueView>::empty());
    while i < issues.len()
        invariant
            i <= issues.len(),
            s == issues.deep_view(),
            out.deep_view() == grouped_upto(s, by, i as nat),
        decreases issues.len() - i,
    {
        assert(s[i as int] == issues@[i as int]@);
        if is_group_opener(issues, i, by) {
            append_members(issues, &issues[i], by, &mut out);
        }
        i += 1;
    }
    proof {
        lemma_grouped_upto_direct(s, by, s.len());
    }
    out
}

/// The findings of one level of the severity scale, in their order.
pub open spec fn at_level(s: Seq<IssueView>, level: nat) -> Seq<IssueView> {
    s.filter(|i: IssueView| i.severity.level() == level)
}

/// The findings from the most severe level down; within a level they keep
/// their order.
pub open spec fn by_severity(s: Seq<IssueView>) -> Seq<IssueView> {
    at_level(s, 4) + at_level(s, 3) + at_level(s, 2) + at_level(s, 1) + at_level(s, 0)
}

/// The text by which a finding is ordered under a textual sort key.
pub open spec fn sort_key(i: IssueView, by: SortBy) -> Seq<char> {
    match by {
        SortBy::Category => i.category,
        SortBy::File => i.file(),
        _ => Seq::empty(),
    }
}

/// A sorted list with one more finding: it goes behind every finding whose
/// key is not greater than its own.
pub open spec fn insert_by_key(s: Seq<IssueView>, x: IssueView, by: SortBy) -> Seq<IssueView>
    decreases s.len(),
{
    if s.len() == 0 {
        seq![x]
    } else if text_le(sort_key(s.last(), by), sort_key(x, by)) {
        s.push(x)
    } else {
        insert_by_key(s.drop_last(), x, by).push(s.last())
    }
}

/// The findings in the lexicographic order of their keys; findings with the
/// same key keep their order.
pub open spec fn by_key(s: Seq<IssueView>, by: SortBy) -> Seq<IssueView>
    decreases s.len(),
{
    if s.len() == 0 {
        s
    } else {
        insert_by_key(by_key(s.drop_last(), by), s.last(), by)
    }
}

/// The findings in the order that a sort key asks for. By severity, the
/// most severe come first; by category or file, the keys ascend
/// lexicographically; by time, the findings stay in the order in which they
/// were found. Ties always keep the order of the list.
pub open spec fn sorted(s: Seq<IssueView>, by: SortBy) -> Seq<IssueView> {
    match by {
        SortBy::Severity => by_severity(s),
        SortBy::Category => by_key(s, by),
        SortBy::File => by_key(s, by),
        SortBy::Time => s,
    }
}

/// Whether `a` may stand before `b` in a list sorted by `by`.
pub open spec fn in_order(a: IssueView, b: IssueView, by: SortBy) -> bool {
    match by {
        SortBy::Severity => a.severity.meets(b.severity),
        SortBy::Category => text_le(a.category, b.category),
        SortBy::File => text_le(a.file(), b.file()),
        SortBy::Time => true,
    }
}

fn append_level(issues: &Vec<Issue>, severity: Severity, out: &mut Vec<Issue>)
    ensures
        final(out).deep_view() == old(out).deep_view() + at_level(
            issues.deep_view(),
            severity.level(),
        ),
{
    let ghost s = issues.deep_view();
    let ghost start = out.deep_view();
    let ghost level = severity.level();
    let ghost pred = |i: IssueView| i.severity.level() == level;
    let mut k: usize = 0;
    proof {
        reveal(Seq::filter);
        assert(s.take(0).filter(pred) =~= Seq::<IssueView>::empty());
        assert(out.deep_view() =~= start + s.take(0).filter(pred));
    }
    while k < issues.len()
        invariant
            k <= issues.len(),
            s == issues.deep_view(),
            level == severity.level(),
            pred == (|i: IssueView| i.severity.level() == level),
            out.deep_view() == start + s.take(k as int).filter(pred),
        decreases issues.len() - k,
    {
        let issue = &issues[k];
        proof {
            assert(s[k as int] == issue@);
            assert(s.take(k + 1) =~= s.take(k as int).push(issue@));
            s.take(k as int).lemma_filter_push(issue@, pred);
        }
        if issue.severity.rank() == severity.rank() {
            let ghost before = out.deep_view();
            out.push(issue.clone());
            assert(out.deep_view() =~= before.push(issue@));
            assert(out.deep_view() =~= start + s.take(k + 1).filter(pred));
        }
        k += 1;
    }
    assert(s.take(k as int) =~= s);
}

fn key_chars(issue: &Issue, by: SortBy) -> (k: Vec<char>)
    ensures
        k@ == sort_key(issue@, by),
{
    match by {
        SortBy::Category => chars_of(issue.category.as_str()),
        SortBy::File => match &issue.location {
            Some(l) => chars_of(l.path.as_str()),
            None => Vec::new(),
        },
        _ => Vec::new(),
    }
}

/// Where `insert_by_key` puts a finding: at the position before which the
/// last key that is not greater stands and from which on all keys are
/// greater.
pub proof fn lemma_insert_position(s: Seq<IssueView>, x: IssueView, by: SortBy, p: int)
    requires
        0 <= p <= s.len(),
        forall|j: int| p <= j < s.len() ==> !text_le(sort_key(#[trigger] s[j], by), sort_key(x, by)),
        p == 0 || text_le(sort_key(s[p - 1], by), sort_key(x, by)),
    ensures
        insert_by_key(s, x, by) == s.insert(p, x),
    decreases s.len(),
{
    if s.len() == 0 {
        assert(s.insert(p, x) =~= seq![x]);
    } else if p == s.len() {
        assert(s.insert(p, x) =~= s.push(x));
    } else {
        let front = s.drop_last();
        assert(!text_le(sort_key(s[s.len() - 1], by), sort_key(x, by)));
        assert forall|j: int| p <= j < front.len() implies !text_le(
            sort_key(#[trigger] front[j], by),
            sort_key(x, by),
        ) by {
            assert(front[j] == s[j]);
        }
        lemma_insert_position(front, x, by, p);
        assert(front.insert(p, x).push(s.last()) =~= s.insert(p, x));
    }
}

fn sort_by_key(issues: &Vec<Issue>, by: SortBy) -> (r: Vec<Issue>)
    ensures
        r.deep_view() == by_key(issues.deep_view(), by),
{
    let ghost s = issues.deep_view();
    let mut out: Vec<Issue> = Vec::new();
    let mut keys: Vec<Vec<char>> = Vec::new();
    let mut i: usize = 0;
    assert(s.take(0) =~= Seq::<IssueView>::empty());
    assert(out.deep_view() =~= Seq::<IssueView>::empty());
    while i < issues.len()
        invariant
            i <= issues.len(),
            s == issues.deep_view(),
            out.deep_view() == by_key(s.take(i as int), by),
            keys.len() == out.len(),
            forall|j: int| 0 <= j < keys.len() ==> (#[trigger] keys@[j])@ == sort_key(out@[j]@, by),
        decreases issues.len() - i,
    {
        let issue = &issues[i];
        let key = key_chars(issue, by);
        let mut p: usize = out.len();
        while p > 0 && !chars_le(&keys[p - 1], &key)
            invariant
                p <= out.len(),
                keys.len() == out.len(),
                key@ == sort_key(issue@, by),
                forall|j: int| 0 <= j < keys.len() ==> (#[trigger] keys@[j])@ == sort_key(out@[j]@, by),
                forall|j: int| p <= j < out.len() ==> !text_le(
                    sort_key(#[trigger] out.deep_view()[j], by),
                    sort_key(issue@, by),
                ),
            decreases p,
        {
            assert(out.deep_view()[p - 1] == out@[p - 1]@);
            p -= 1;
        }
        proof {
            let sorted_so_far = out.deep_view();
            if p > 0 {
                assert(sorted_so_far[p - 1] == out@[p - 1]@);
            }
            lemma_insert_position(sorted_so_far, issue@, by, p as int);
            assert(s[i as int] == issue@);
            assert(s.take(i + 1).drop_last() =~= s.take(i as int));
        }
        let ghost before = out.deep_view();
        let ghost old_keys = keys@;
        let ghost old_out = out@;
        let copy = issue.clone();
        out.insert(p, copy);
        keys.insert(p, key);
        proof {
            assert(out.deep_view() =~= before.insert(p as int, issue@));
            assert forall|j: int| 0 <= j < keys.len() implies (#[trigger] keys@[j])@ == sort_key(
                out@[j]@,
                by,
            ) by {
                if j < p {
                    assert(keys@[j] == old_keys[j]);
                    assert(out@[j] == old_out[j]);
                } else if j > p {
                    assert(keys@[j] == old_keys[j - 1]);
                    assert(out@[j] == old_out[j - 1]);
                }
            }
        }
        i += 1;
    }
    assert(s.take(i as int) =~= s);
    out
}

fn copy_all(issues: &Vec<Issue>) -> (r: Vec<Issue>)
    ensures
        r.deep_view() == issues.deep_view(),
{
    crate::model::clone_issues(issues)
}

/// Orders the findings by a sort key. Findings that the key does not tell
/// apart keep their order.
pub fn sort_issues(issues: &Vec<Issue>, by: SortBy) -> (r: Vec<Issue>)
    ensures
        r.deep_view() == sorted(issues.deep_view(), by),
{
    match by {
        SortBy::Severity => {
            let mut out: Vec<Issue> = Vec::new();
            assert(out.deep_view() =~= Seq::<IssueView>::empty());
            append_level(issues, Severity::Critical, &mut out);
            append_level(issues, Severity::High, &mut out);
            append_level(issues, Severity::Medium, &mut out);
            append_level(issues, Severity::Low, &mut out);
            append_level(issues, Severity::Info, &mut out);
            assert(out.deep_view() =~= by_severity(issues.deep_view()));
            out
        },
        SortBy::Category => sort_by_key(issues, by),
        SortBy::File => sort_by_key(issues, by),
        SortBy::Time => copy_all(issues),
    }
}

/// Every finding of a level's bucket is of that level.
pub proof fn lemma_at_level_member(s: Seq<IssueView>, level: nat, i: int)
    requires
        0 <= i < at_level(s, level).len(),
    ensures
        at_level(s, level)[i].severity.level() == level,
{
    s.lemma_filter_pred(|x: IssueView| x.severity.level() == level, i);
}

/// A level's bucket holds no more findings than there are.
pub proof fn lemma_at_level_len(s: Seq<IssueView>, level: nat)
    ensures
        at_level(s, level).len() <= s.len(),
{
    s.lemma_filter_len(|x: IssueView| x.severity.level() == level);
}

/// A level's bucket after one more finding: the finding joins the bucket
/// of its level and no other.
pub proof fn lemma_at_level_push(s: Seq<IssueView>, x: IssueView, level: nat)
    ensures
        at_level(s.push(x), level) == if x.severity.level() == level {
            at_level(s, level).push(x)
        } else {
            at_level(s, level)
        },
{
    s.lemma_filter_push(x, |i: IssueView| i.severity.level() == level);
}

proof fn lemma_by_severity_ordered(s: Seq<IssueView>, a: int, b: int)
    requires
        0 <= a < b < by_severity(s).len(),
    ensures
        by_severity(s)[a].severity.meets(by_severity(s)[b].severity),
{
    assert forall|l: nat, i: int| 0 <= i < (#[trigger] at_level(s, l)).len() implies (
    #[trigger] at_level(s, l)[i]).severity.level() == l by {
        lemma_at_level_member(s, l, i);
    }
}

proof fn lemma_by_severity_push(s: Seq<IssueView>, x: IssueView) -> (p: int)
    ensures
        0 <= p <= by_severity(s).len(),
        by_severity(s.push(x)) == by_severity(s).insert(p, x),
{
    lemma_at_level_push(s, x, 4);
    lemma_at_level_push(s, x, 3);
    lemma_at_level_push(s, x, 2);
    lemma_at_level_push(s, x, 1);
    lemma_at_level_push(s, x, 0);
    let n4 = at_level(s, 4).len() as int;
    let n3 = at_level(s, 3).len() as int;
    let n2 = at_level(s, 2).len() as int;
    let n1 = at_level(s, 1).len() as int;
    let n0 = at_level(s, 0).len() as int;
    let l = x.severity.level();
    let p = if l == 4 {
        n4
    } else if l == 3 {
        n4 + n3
    } else if l == 2 {
        n4 + n3 + n2
    } else if l == 1 {
        n4 + n3 + n2 + n1
    } else {
        n4 + n3 + n2 + n1 + n0
    };
    assert(by_severity(s.push(x)) =~= by_severity(s).insert(p, x));
    p
}

proof fn lemma_by_severity_permutation(s: Seq<IssueView>)
    ensures
        by_severity(s).to_multiset() == s.to_multiset(),
    decreases s.len(),
{
    if s.len() == 0 {
        reveal(Seq::filter);
        assert(by_severity(s) =~= s);
    } else {
        let front = s.drop_last();
        let x = s.last();
        assert(s =~= front.push(x));
        lemma_by_severity_permutation(front);
        let p = lemma_by_severity_push(front, x);
        vstd::seq_lib::to_multiset_insert(by_severity(front), p, x);
        vstd::seq_lib::to_multiset_build(front, x);
    }
}

proof fn lemma_insert_by_key_permutation(s: Seq<IssueView>, x: IssueView, by: SortBy)
    ensures
        insert_by_key(s, x, by).to_multiset() == s.to_multiset().insert(x),
    decreases s.len(),
{
    if s.len() == 0 {
        assert(seq![x] =~= s.push(x));
        vstd::seq_lib::to_multiset_build(s, x);
    } else if text_le(sort_key(s.last(), by), sort_key(x, by)) {
        vstd::seq_lib::to_multiset_build(s, x);
    } else {
        let front = s.drop_last();
        assert(s =~= front.push(s.last()));
        lemma_insert_by_key_permutation(front, x, by);
        vstd::seq_lib::to_multiset_build(insert_by_key(front, x, by), s.last());
        vstd::seq_lib::to_multiset_build(front, s.last());
        assert(front.to_multiset().insert(x).insert(s.last()) =~= front.to_multiset().insert(
            s.last(),
        ).insert(x));
    }
}

proof fn lemma_by_key_permutation(s: Seq<IssueView>, by: SortBy)
    ensures
        by_key(s, by).to_multiset() == s.to_multiset(),
    decreases s.len(),
{
    if s.len() > 0 {
        let front = s.drop_last();
        assert(s =~= front.push(s.last()));
        lemma_by_key_permutation(front, by);
        lemma_insert_by_key_permutation(by_key(front, by), s.last(), by);
        vstd::seq_lib::to_multiset_build(front, s.last());
    }
}

/// Whether the keys of a list ascend.
pub open spec fn keys_ascend(s: Seq<IssueView>, by: SortBy) -> bool {
    forall|a: int, b: int|
        0 <= a < b < s.len() ==> text_le(sort_key(#[trigger] s[a], by), sort_key(#[trigger] s[b], by))
}

proof fn lemma_insert_by_key_bounded(s: Seq<IssueView>, x: IssueView, by: SortBy, top: Seq<char>)
    requires
        forall|j: int| 0 <= j < s.len() ==> text_le(sort_key(#[trigger] s[j], by), top),
        text_le(sort_key(x, by), top),
    ensures
        insert_by_key(s, x, by).len() == s.len() + 1,
        forall|j: int|
            0 <= j < s.len() + 1 ==> text_le(sort_key(#[trigger] insert_by_key(s, x, by)[j], by), top),
    decreases s.len(),
{
    if s.len() > 0 && !text_le(sort_key(s.last(), by), sort_key(x, by)) {
        let front = s.drop_last();
        assert forall|j: int| 0 <= j < front.len() implies text_le(
            sort_key(#[trigger] front[j], by),
            top,
        ) by {
            assert(front[j] == s[j]);
        }
        lemma_insert_by_key_bounded(front, x, by, top);
    }
}

proof fn lemma_insert_by_key_ascends(s: Seq<IssueView>, x: IssueView, by: SortBy)
    requires
        keys_ascend(s, by),
    ensures
        keys_ascend(insert_by_key(s, x, by), by),
    decreases s.len(),
{
    let r = insert_by_key(s, x, by);
    if s.len() == 0 {
    } else if text_le(sort_key(s.last(), by), sort_key(x, by)) {
        assert forall|a: int, b: int| 0 <= a < b < r.len() implies text_le(
            sort_key(#[trigger] r[a], by),
            sort_key(#[trigger] r[b], by),
        ) by {
            if b == s.len() {
                if a < s.len() - 1 {
                    assert(text_le(sort_key(s[a], by), sort_key(s[s.len() - 1], by)));
                    lemma_text_le_transitive(
                        sort_key(s[a], by),
                        sort_key(s.last(), by),
                        sort_key(x, by),
                    );
                }
            } else {
                assert(r[a] == s[a] && r[b] == s[b]);
            }
        }
    } else {
        let front = s.drop_last();
        let last = s.last();
        let top = sort_key(last, by);
        assert forall|a: int, b: int| 0 <= a < b < front.len() implies text_le(
            sort_key(#[trigger] front[a], by),
            sort_key(#[trigger] front[b], by),
        ) by {
            assert(front[a] == s[a] && front[b] == s[b]);
        }
        lemma_insert_by_key_ascends(front, x, by);
        lemma_text_le_total(sort_key(last, by), sort_key(x, by));
        assert forall|j: int| 0 <= j < front.len() implies text_le(
            sort_key(#[trigger] front[j], by),
            top,
        ) by {
            assert(front[j] == s[j]);
            assert(text_le(sort_key(s[j], by), sort_key(s[s.len() - 1], by)));
        }
        lemma_insert_by_key_bounded(front, x, by, top);
        let mid = insert_by_key(front, x, by);
        assert forall|a: int, b: int| 0 <= a < b < r.len() implies text_le(
            sort_key(#[trigger] r[a], by),
            sort_key(#[trigger] r[b], by),
        ) by {
            if b == mid.len() {
                assert(r[a] == mid[a]);
            } else {
                assert(r[a] == mid[a] && r[b] == mid[b]);
            }
        }
    }
}

proof fn lemma_by_key_ascends(s: Seq<IssueView>, by: SortBy)
    ensures
        keys_ascend(by_key(s, by), by),
    decreases s.len(),
{
    if s.len() > 0 {
        lemma_by_key_ascends(s.drop_last(), by);
        lemma_insert_by_key_ascends(by_key(s.drop_last(), by), s.last(), by);
    }
}

/// A sorted list is in order: of any two of its findings, the earlier may
/// stand before the later. By severity, none is followed by a more severe
/// one.
pub proof fn lemma_sorted_is_ordered(s: Seq<IssueView>, by: SortBy, a: int, b: int)
    requires
        0 <= a < b < sorted(s, by).len(),
    ensures
        in_order(sorted(s, by)[a], sorted(s, by)[b], by),
{
    match by {
        SortBy::Severity => {
            lemma_by_severity_ordered(s, a, b);
        },
        SortBy::Category => {
            lemma_by_key_ascends(s, by);
        },
        SortBy::File => {
            lemma_by_key_ascends(s, by);
        },
        SortBy::Time => {},
    }
}

/// Sorting neither drops nor adds a finding: the sorted list holds the
/// same findings, each as often as before.
pub proof fn lemma_sorted_is_permutation(s: Seq<IssueView>, by: SortBy)
    ensures
        sorted(s, by).to_multiset() == s.to_multiset(),
        sorted(s, by).len() == s.len(),
{
    match by {
        SortBy::Severity => {
            lemma_by_severity_permutation(s);
        },
        SortBy::Category => {
            lemma_by_key_permutation(s, by);
        },
        SortBy::File => {
            lemma_by_key_permutation(s, by);
        },
        SortBy::Time => {},
    }
    vstd::seq_lib::to_multiset_len(sorted(s, by));
    vstd::seq_lib::to_multiset_len(s);
}

/// Sorting by severity is stable: the findings of one level stand in the
/// sorted list in the order in which they stood before.
pub proof fn lemma_severity_sort_stable(s: Seq<IssueView>, level: nat)
    requires
        level <= 4,
    ensures
        at_level(sorted(s, SortBy::Severity), level) == at_level(s, level),
{
    let p = |i: IssueView| i.severity.level() == level;
    assert forall|l: nat| l <= 4 implies #[trigger] at_level(s, l).filter(p) == if l == level {
        at_level(s, l)
    } else {
        Seq::<IssueView>::empty()
    } by {
        lemma_bucket_refilter(s, l, level);
    }
    let b4 = at_level(s, 4);
    let b3 = at_level(s, 3);
    let b2 = at_level(s, 2);
    let b1 = at_level(s, 1);
    let b0 = at_level(s, 0);
    Seq::filter_distributes_over_add(b4 + b3 + b2 + b1, b0, p);
    Seq::filter_distributes_over_add(b4 + b3 + b2, b1, p);
    Seq::filter_distributes_over_add(b4 + b3, b2, p);
    Seq::filter_distributes_over_add(b4, b3, p);
    assert(by_severity(s).filter(p) =~= at_level(s, level));
}

proof fn lemma_bucket_refilter(s: Seq<IssueView>, l: nat, level: nat)
    ensures
        at_level(s, l).filter(|i: IssueView| i.severity.level() == level) == if l == level {
            at_level(s, l)
        } else {
            Seq::<IssueView>::empty()
        },
    decreases s.len(),
{
    let p = |i: IssueView| i.severity.level() == level;
    reveal(Seq::filter);
    if s.len() == 0 {
        assert(at_level(s, l) =~= Seq::<IssueView>::empty());
    } else {
        let front = s.drop_last();
        let x = s.last();
        assert(s =~= front.push(x));
        lemma_bucket_refilter(front, l, level);
        lemma_at_level_push(front, x, l);
        if x.severity.level() == l {
            at_level(front, l).lemma_filter_push(x, p);
        }
    }
}

/// The test whether a finding falls into the group of `of`.
pub open spec fn in_group_of(of: IssueView, by: GroupBy) -> spec_fn(IssueView) -> bool {
    |x: IssueView| same_group(x, of, by)
}

/// The test whether a finding falls into a group that one of the first `k`
/// findings falls into.
pub open spec fn in_group_before(s: Seq<IssueView>, by: GroupBy, k: nat) -> spec_fn(
    IssueView,
) -> bool {
    |x: IssueView| exists|i: int| 0 <= i < k && same_group(x, #[trigger] s[i], by)
}

proof fn lemma_grouped_upto(s: Seq<IssueView>, by: GroupBy, k: nat)
    requires
        k <= s.len(),
    ensures
        grouped_upto(s, by, k).to_multiset() == s.filter(in_group_before(s, by, k)).to_multiset(),
    decreases k,
{
    broadcast use vstd::multiset::group_multiset_axioms;

    let now = in_group_before(s, by, k);
    if k == 0 {
        assert forall|i: int| 0 <= i < s.len() implies !now(#[trigger] s[i]) by {}
        let never = |x: IssueView| false;
        lemma_filter_same(s, now, never);
        s.lemma_filter_len(never);
        assert(s.filter(never).len() == 0) by {
            if s.filter(never).len() > 0 {
                s.lemma_filter_pred(never, 0);
            }
        }
        assert(s.filter(now) =~= Seq::<IssueView>::empty());
    } else {
        let before = in_group_before(s, by, (k - 1) as nat);
        let rep = s[k - 1];
        let own = in_group_of(rep, by);
        lemma_grouped_upto(s, by, (k - 1) as nat);
        if opens_group(s, k - 1, by) {
            assert forall|i: int| 0 <= i < s.len() implies !(before(#[trigger] s[i]) && own(
                s[i],
            )) by {
                if before(s[i]) && own(s[i]) {
                    let j = choose|j: int| 0 <= j < k - 1 && same_group(s[i], #[trigger] s[j], by);
                    assert(same_group(s[j], rep, by));
                }
            }
            lemma_filter_split(s, before, own);
            assert forall|i: int| 0 <= i < s.len() implies now(#[trigger] s[i]) == either(
                before,
                own,
            )(s[i]) by {
                let x = s[i];
                if now(x) {
                    let j = choose|j: int| 0 <= j < k && same_group(x, #[trigger] s[j], by);
                    if j < k - 1 {
                        assert(before(x));
                    }
                }
                if before(x) {
                    let j = choose|j: int| 0 <= j < k - 1 && same_group(x, #[trigger] s[j], by);
                    assert(0 <= j < k && same_group(x, s[j], by));
                }
                if own(x) {
                    assert(same_group(x, s[k - 1], by));
                }
            }
            lemma_filter_same(s, now, either(before, own));
            vstd::seq_lib::lemma_multiset_commutative(
                grouped_upto(s, by, (k - 1) as nat),
                members(s, rep, by),
            );
            assert(members(s, rep, by) == s.filter(own));
        } else {
            let j0 = choose|j: int| 0 <= j < k - 1 && same_group(#[trigger] s[j], rep, by);
            assert forall|i: int| 0 <= i < s.len() implies now(#[trigger] s[i]) == before(
                s[i],
            ) by {
                let x = s[i];
                if now(x) {
                    let j = choose|j: int| 0 <= j < k && same_group(x, #[trigger] s[j], by);
                    if j < k - 1 {
                        assert(before(x));
                    } else {
                        assert(same_group(x, s[j0], by));
                    }
                }
                if before(x) {
                    let j = choose|j: int| 0 <= j < k - 1 && same_group(x, #[trigger] s[j], by);
                    assert(0 <= j < k && same_group(x, s[j], by));
                }
            }
            lemma_filter_same(s, now, before);
        }
    }
}

/// Grouping neither drops nor adds a finding: the grouped list holds the
/// same findings, each as often as before.
pub proof fn lemma_grouped_is_permutation(s: Seq<IssueView>, by: GroupBy)
    ensures
        grouped(s, by).to_multiset() == s.to_multiset(),
        grouped(s, by).len() == s.len(),
{
    lemma_grouped_upto(s, by, s.len());
    lemma_grouped_upto_direct(s, by, s.len());
    let all = in_group_before(s, by, s.len());
    assert forall|i: int| 0 <= i < s.len() implies all(#[trigger] s[i]) by {
        assert(same_group(s[i], s[i], by));
    }
    lemma_filter_all(s, all);
    vstd::seq_lib::to_multiset_len(grouped(s, by));
    vstd::seq_lib::to_multiset_len(s);
}

/// The findings of a group stand together in the grouped list, in the
/// order in which they stood before: what the grouped list holds of a
/// group is what the list held of it.
pub proof fn lemma_grouped_keeps_order(s: Seq<IssueView>, by: GroupBy, of: IssueView)
    ensures
        members(grouped(s, by), of, by) == members(s, of, by),
{
    lemma_members_of_grouped(s, by, of, s.len());
    lemma_grouped_upto_direct(s, by, s.len());
    let own = in_group_of(of, by);
    if exists|i: int| 0 <= i < s.len() && same_group(of, #[trigger] s[i], by) {
    } else {
        assert forall|i: int| 0 <= i < s.len() implies !own(#[trigger] s[i]) by {
            if own(s[i]) {
                assert(same_group(of, s[i], by));
            }
        }
        let never = |x: IssueView| false;
        lemma_filter_same(s, own, never);
        s.lemma_filter_len(never);
        if s.filter(never).len() > 0 {
            s.lemma_filter_pred(never, 0);
        }
        assert(s.filter(own) =~= Seq::<IssueView>::empty());
    }
}

proof fn lemma_members_of_grouped(s: Seq<IssueView>, by: GroupBy, of: IssueView, k: nat)
    requires
        k <= s.len(),
    ensures
        members(grouped_upto(s, by, k), of, by) == if exists|i: int|
            0 <= i < k && same_group(of, #[trigger] s[i], by) {
            members(s, of, by)
        } else {
            Seq::<IssueView>::empty()
        },
    decreases k,
{
    let own = in_group_of(of, by);
    reveal(Seq::filter);
    if k == 0 {
    } else {
        lemma_members_of_grouped(s, by, of, (k - 1) as nat);
        let before = grouped_upto(s, by, (k - 1) as nat);
        let rep = s[k - 1];
        let seen_before = exists|i: int| 0 <= i < k - 1 && same_group(of, #[trigger] s[i], by);
        let seen_now = exists|i: int| 0 <= i < k && same_group(of, #[trigger] s[i], by);
        if seen_before {
            let j = choose|j: int| 0 <= j < k - 1 && same_group(of, #[trigger] s[j], by);
            assert(0 <= j < k && same_group(of, s[j], by));
        }
        if opens_group(s, k - 1, by) {
            let group = members(s, rep, by);
            Seq::filter_distributes_over_add(before, group, own);
            if same_group(of, rep, by) {
                assert(seen_now);
                if seen_before {
                    let j = choose|j: int| 0 <= j < k - 1 && same_group(of, #[trigger] s[j], by);
                    assert(same_group(s[j], rep, by));
                }
                assert(!seen_before);
                assert forall|i: int| 0 <= i < s.len() implies own(#[trigger] s[i]) == in_group_of(
                    rep,
                    by,
                )(s[i]) by {}
                lemma_filter_same(s, own, in_group_of(rep, by));
                assert forall|i: int| 0 <= i < group.len() implies own(#[trigger] group[i]) by {
                    s.lemma_filter_pred(in_group_of(rep, by), i);
                }
                lemma_filter_all(group, own);
                assert(before.filter(own) + group =~= group);
            } else {
                assert forall|i: int| 0 <= i < group.len() implies !own(#[trigger] group[i]) by {
                    s.lemma_filter_pred(in_group_of(rep, by), i);
                }
                let never = |x: IssueView| false;
                lemma_filter_same(group, own, never);
                group.lemma_filter_len(never);
                if group.filter(never).len() > 0 {
                    group.lemma_filter_pred(never, 0);
                }
                assert(group.filter(own) =~= Seq::<IssueView>::empty());
                assert(before.filter(own) + group.filter(own) =~= before.filter(own));
                if seen_now {
                    let j = choose|j: int| 0 <= j < k && same_group(of, #[trigger] s[j], by);
                    assert(j < k - 1);
                    assert(seen_before);
                }
            }
        } else {
            let j0 = choose|j: int| 0 <= j < k - 1 && same_group(#[trigger] s[j], rep, by);
            if seen_now {
                let j = choose|j: int| 0 <= j < k && same_group(of, #[trigger] s[j], by);
                if j == k - 1 {
                    assert(same_group(of, s[j0], by));
                }
                assert(seen_before);
            }
        }
    }
}

} // verus!
