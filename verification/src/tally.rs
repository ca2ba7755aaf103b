//! Counting names: which names occur in a list, in the order of their first
//! occurrence, and how often each occurs.

use vstd::prelude::*;

verus! {

/// A name with a number.
#[derive(Debug, PartialEq, Eq)]
pub struct NamedCount {
    pub name: String,
    pub count: usize,
}

/// What a `NamedCount` holds, with its texts as sequences of characters.
pub struct NamedCountView {
    pub name: Seq<char>,
    pub count: nat,
}

impl View for NamedCount {
    type V = NamedCountView;

    open spec fn view(&self) -> NamedCountView {
        NamedCountView { name: self.name@, count: self.count as nat }
    }
}

impl DeepView for NamedCount {
    type V = NamedCountView;

    open spec fn deep_view(&self) -> NamedCountView {
        self@
    }
}

impl Clone for NamedCount {
    fn clone(&self) -> (r: NamedCount)
        ensures
            r@ == self@,
    {
        NamedCount { name: self.name.clone(), count: self.count }
    }
}

/// The test whether a text is `name`.
pub open spec fn is_name(name: Seq<char>) -> spec_fn(Seq<char>) -> bool {
    |x: Seq<char>| x == name
}

/// How often `name` occurs in `names`.
pub open spec fn count_in(names: Seq<Seq<char>>, name: Seq<char>) -> nat {
    names.filter(is_name(name)).len()
}

/// The names of a list without repetitions, in the order of their first
/// occurrence.
pub open spec fn distinct(names: Seq<Seq<char>>) -> Seq<Seq<char>>
    decreases names.len(),
{
    if names.len() == 0 {
        names
    } else {
        let before = distinct(names.drop_last());
        if before.contains(names.last()) {
            before
        } else {
            before.push(names.last())
        }
    }
}

/// Each name of a list, once, with the number of its occurrences.
pub open spec fn tally(names: Seq<Seq<char>>) -> Seq<NamedCountView> {
    distinct(names).map_values(|n: Seq<char>| NamedCountView { name: n, count: count_in(names, n) })
}

/// Each name of a list, once, with the number 1.
pub open spec fn presence(names: Seq<Seq<char>>) -> Seq<NamedCountView> {
    distinct(names).map_values(|n: Seq<char>| NamedCountView { name: n, count: 1 })
}

/// The number that a tally holds for a name; 0 where it holds none.
pub open spec fn lookup(counts: Seq<NamedCountView>, name: Seq<char>) -> nat
    decreases counts.len(),
{
    if counts.len() == 0 {
        0
    } else if counts[0].name == name {
        counts[0].count
    } else {
        lookup(counts.skip(1), name)
    }
}

/// `distinct` keeps exactly the names that occur.
pub proof fn lemma_distinct_contains(names: Seq<Seq<char>>, name: Seq<char>)
    ensures
        distinct(names).contains(name) <==> names.contains(name),
    decreases names.len(),
{
    if names.len() > 0 {
        let front = names.drop_last();
        lemma_distinct_contains(front, name);
        let d = distinct(front);
        if names.contains(name) {
            let i = choose|i: int| 0 <= i < names.len() && names[i] == name;
            if i < names.len() - 1 {
                assert(front[i] == name);
                assert(front.contains(name));
                assert(d.contains(name));
                if !d.contains(names.last()) {
                    let j = choose|j: int| 0 <= j < d.len() && d[j] == name;
                    assert(d.push(names.last())[j] == name);
                }
            } else {
                if !d.contains(names.last()) {
                    assert(d.push(names.last())[d.len() as int] == name);
                }
            }
        }
        if distinct(names).contains(name) {
            let j = choose|j: int| 0 <= j < distinct(names).len() && distinct(names)[j] == name;
            if d.contains(names.last()) || j < d.len() {
                assert(d.contains(name)) by {
                    if !d.contains(names.last()) {
                        assert(d[j] == name);
                    }
                }
                let i = choose|i: int| 0 <= i < front.len() && front[i] == name;
                assert(names[i] == name);
            } else {
                assert(names[names.len() - 1] == name);
            }
        }
    }
}

/// No name occurs twice in `distinct`.
pub proof fn lemma_distinct_no_duplicates(names: Seq<Seq<char>>)
    ensures
        distinct(names).no_duplicates(),
    decreases names.len(),
{
    if names.len() > 0 {
        lemma_distinct_no_duplicates(names.drop_last());
    }
}

/// A name that does not occur is counted zero times.
pub proof fn lemma_count_absent(names: Seq<Seq<char>>, name: Seq<char>)
    requires
        !names.contains(name),
    ensures
        count_in(names, name) == 0,
    decreases names.len(),
{
    reveal(Seq::filter);
    if names.len() > 0 {
        let front = names.drop_last();
        assert(names[names.len() - 1] != name);
        assert forall|i: int| 0 <= i < front.len() implies front[i] != name by {
            assert(front[i] == names[i]);
        }
        lemma_count_absent(front, name);
    }
}

/// Counting after one more name: its count grows by one, the others stay.
pub proof fn lemma_count_push(names: Seq<Seq<char>>, added: Seq<char>, name: Seq<char>)
    ensures
        count_in(names.push(added), name) == count_in(names, name) + (if added == name {
            1nat
        } else {
            0nat
        }),
        count_in(names, name) <= names.len(),
{
    let p = is_name(name);
    names.lemma_filter_push(added, p);
    names.lemma_filter_len(p);
    assert(p(added) == (added == name));
}

fn position_of(entries: &Vec<NamedCount>, name: &String) -> (r: Option<usize>)
    ensures
        match r {
            Some(j) => j < entries.len() && entries@[j as int].name@ == name@,
            None => forall|j: int| 0 <= j < entries.len() ==> entries@[j].name@ != name@,
        },
{
    let mut j: usize = 0;
    while j < entries.len()
        invariant
            j <= entries.len(),
            forall|m: int| 0 <= m < j ==> entries@[m].name@ != name@,
        decreases entries.len() - j,
    {
        if entries[j].name == *name {
            return Some(j);
        }
        j += 1;
    }
    None
}

/// Counts the names of a list. With `weigh` each name gets the number of
/// its occurrences; without, each gets the number 1. The names come in the
/// order of their first occurrence.
pub fn count_names(names: &Vec<String>, weigh: bool) -> (r: Vec<NamedCount>)
    ensures
        weigh ==> r.deep_view() == tally(names.deep_view()),
        !weigh ==> r.deep_view() == presence(names.deep_view()),
{
    let ghost all = names.deep_view();
    let mut entries: Vec<NamedCount> = Vec::new();
    let mut i: usize = 0;
    assert(all.take(0) =~= Seq::<Seq<char>>::empty());
    while i < names.len()
        invariant
            i <= names.len(),
            all == names.deep_view(),
            entries.len() == distinct(all.take(i as int)).len(),
            forall|j: int|
                0 <= j < entries.len() ==> (#[trigger] entries@[j]).name@ == distinct(
                    all.take(i as int),
                )[j],
            forall|j: int|
                0 <= j < entries.len() ==> (#[trigger] entries@[j]).count == (if weigh {
                    count_in(all.take(i as int), entries@[j].name@)
                } else {
                    1
                }),
        decreases names.len() - i,
    {
        let name = &names[i];
        let ghost seen = all.take(i as int);
        let ghost d = distinct(seen);
        let ghost old_entries = entries@;
        proof {
            assert(all[i as int] == name@);
            assert(all.take(i + 1) =~= seen.push(name@));
            assert(all.take(i + 1).drop_last() =~= seen);
            lemma_distinct_no_duplicates(seen);
            lemma_distinct_contains(seen, name@);
            assert forall|j: int| 0 <= j < entries.len() implies count_in(
                all.take(i + 1),
                (#[trigger] entries@[j]).name@,
            ) == count_in(seen, entries@[j].name@) + (if name@ == entries@[j].name@ {
                1nat
            } else {
                0nat
            }) by {
                lemma_count_push(seen, name@, entries@[j].name@);
            }
            lemma_count_push(seen, name@, name@);
        }
        match position_of(&entries, name) {
            Some(j) => {
                assert(d[j as int] == name@);
                assert(d.contains(name@));
                if weigh {
                    let count = entries[j].count;
                    entries.set(j, NamedCount { name: name.clone(), count: count + 1 });
                }
                proof {
                    assert forall|m: int| 0 <= m < entries.len() && m != j implies (
                    #[trigger] entries@[m]).name@ != name@ by {
                        assert(entries@[m] == old_entries[m]);
                        assert(d[m] != d[j as int]);
                    }
                }
            },
            None => {
                proof {
                    assert forall|j: int| 0 <= j < d.len() implies d[j] != name@ by {
                        assert(entries@[j].name@ == d[j]);
                    }
                    assert(!d.contains(name@));
                    if weigh {
                        lemma_count_absent(seen, name@);
                    }
                }
                entries.push(NamedCount { name: name.clone(), count: 1 });
            },
        }
        i += 1;
    }
    proof {
        assert(all.take(i as int) =~= all);
        if weigh {
            assert(entries.deep_view() =~= tally(all));
        } else {
            assert(entries.deep_view() =~= presence(all));
        }
    }
    entries
}

/// The number that a tally holds for a name; 0 where it holds none.
pub fn count_of(counts: &Vec<NamedCount>, name: &String) -> (n: usize)
    ensures
        n == lookup(counts.deep_view(), name@),
{
    let ghost all = counts.deep_view();
    let mut j: usize = 0;
    assert(all.skip(0) =~= all);
    while j < counts.len()
        invariant
            j <= counts.len(),
            all == counts.deep_view(),
            lookup(all, name@) == lookup(all.skip(j as int), name@),
        decreases counts.len() - j,
    {
        assert(all.skip(j as int)[0] == counts@[j as int]@);
        if counts[j].name == *name {
            return counts[j].count;
        }
        assert(all.skip(j as int).skip(1) =~= all.skip(j + 1));
        j += 1;
    }
    0
}

proof fn lemma_lookup_at(counts: Seq<NamedCountView>, j: int)
    requires
        0 <= j < counts.len(),
        forall|a: int, b: int|
            0 <= a < b < counts.len() ==> (#[trigger] counts[a]).name != (#[trigger] counts[b]).name,
    ensures
        lookup(counts, counts[j].name) == counts[j].count,
    decreases j,
{
    if j > 0 {
        let rest = counts.skip(1);
        assert forall|a: int, b: int| 0 <= a < b < rest.len() implies (#[trigger] rest[a]).name != (
        #[trigger] rest[b]).name by {
            assert(rest[a] == counts[a + 1] && rest[b] == counts[b + 1]);
        }
        assert(counts[0].name != counts[j].name);
        assert(rest[j - 1] == counts[j]);
        lemma_lookup_at(rest, j - 1);
    }
}

proof fn lemma_lookup_absent(counts: Seq<NamedCountView>, name: Seq<char>)
    requires
        forall|j: int| 0 <= j < counts.len() ==> (#[trigger] counts[j]).name != name,
    ensures
        lookup(counts, name) == 0,
    decreases counts.len(),
{
    if counts.len() > 0 {
        let rest = counts.skip(1);
        assert forall|j: int| 0 <= j < rest.len() implies (#[trigger] rest[j]).name != name by {
            assert(rest[j] == counts[j + 1]);
        }
        lemma_lookup_absent(rest, name);
    }
}

/// A tally answers for every name with the number of its occurrences.
pub proof fn lemma_tally_lookup(names: Seq<Seq<char>>, name: Seq<char>)
    ensures
        lookup(tally(names), name) == count_in(names, name),
{
    let d = distinct(names);
    let t = tally(names);
    lemma_distinct_no_duplicates(names);
    lemma_distinct_contains(names, name);
    if names.contains(name) {
        let j = choose|j: int| 0 <= j < d.len() && d[j] == name;
        assert forall|a: int, b: int| 0 <= a < b < t.len() implies (#[trigger] t[a]).name != (
        #[trigger] t[b]).name by {
            assert(d[a] != d[b]);
        }
        lemma_lookup_at(t, j);
    } else {
        lemma_count_absent(names, name);
        assert forall|j: int| 0 <= j < t.len() implies (#[trigger] t[j]).name != name by {
            assert(d[j] != name);
        }
        lemma_lookup_absent(t, name);
    }
}

} // verus!
