//! Environment variables: names with their values, in the order of the names.

use crate::text::{
    comes_before, lemma_text_before_total, lemma_text_before_transitive, same, text_before,
};
use vstd::prelude::*;

verus! {

/// One variable, as character sequences: its name and its value.
pub type EntryView = (Seq<char>, Seq<char>);

/// Whether the names strictly ascend, so that none stands twice.
pub open spec fn ascending(entries: Seq<EntryView>) -> bool {
    forall|i: int, j: int|
        0 <= i < j < entries.len() ==> text_before(#[trigger] entries[i].0, #[trigger] entries[j].0)
}

/// The entries after a variable is set: it replaces the entry of its name, or takes the
/// place of its name in the order.
pub open spec fn put(entries: Seq<EntryView>, name: Seq<char>, value: Seq<char>) -> Seq<EntryView>
    decreases entries.len(),
{
    if entries.len() == 0 {
        seq![(name, value)]
    } else if entries.last().0 == name {
        entries.drop_last().push((name, value))
    } else if text_before(entries.last().0, name) {
        entries.push((name, value))
    } else {
        put(entries.drop_last(), name, value).push(entries.last())
    }
}

/// The value of each name in a list of entries; of two entries with one name the later counts.
pub open spec fn mapping(entries: Seq<EntryView>) -> Map<Seq<char>, Seq<char>>
    decreases entries.len(),
{
    if entries.len() == 0 {
        Map::empty()
    } else {
        mapping(entries.drop_last()).insert(entries.last().0, entries.last().1)
    }
}

proof fn lemma_mapping_domain(entries: Seq<EntryView>, name: Seq<char>)
    ensures
        mapping(entries).contains_key(name) <==> exists|i: int|
            0 <= i < entries.len() && #[trigger] entries[i].0 == name,
    decreases entries.len(),
{
    if entries.len() > 0 {
        let rest = entries.drop_last();
        lemma_mapping_domain(rest, name);
        if entries.last().0 == name {
            assert(entries[entries.len() - 1].0 == name);
        } else if mapping(entries).contains_key(name) {
            let i = choose|i: int| 0 <= i < rest.len() && #[trigger] rest[i].0 == name;
            assert(entries[i].0 == name);
        } else {
            assert forall|i: int| 0 <= i < entries.len() implies #[trigger] entries[i].0 != name by {
                if i < rest.len() {
                    assert(rest[i].0 == entries[i].0);
                }
            }
        }
    }
}

/// In ascending entries each entry is the mapping of its name.
pub proof fn lemma_mapping_entry(entries: Seq<EntryView>, i: int)
    requires
        ascending(entries),
        0 <= i < entries.len(),
    ensures
        mapping(entries).contains_key(entries[i].0),
        mapping(entries)[entries[i].0] == entries[i].1,
    decreases entries.len(),
{
    if i < entries.len() - 1 {
        let rest = entries.drop_last();
        assert forall|a: int, b: int| 0 <= a < b < rest.len() implies text_before(
            #[trigger] rest[a].0,
            #[trigger] rest[b].0,
        ) by {
            assert(rest[a] == entries[a] && rest[b] == entries[b]);
        }
        lemma_mapping_entry(rest, i);
        assert(rest[i] == entries[i]);
        lemma_text_before_total(entries[i].0, entries.last().0);
        assert(text_before(entries[i].0, entries[entries.len() - 1].0));
    }
}

/// Setting a variable keeps the names ascending and sets that variable alone.
pub proof fn lemma_put(entries: Seq<EntryView>, name: Seq<char>, value: Seq<char>)
    requires
        ascending(entries),
    ensures
        ascending(put(entries, name, value)),
        mapping(put(entries, name, value)) == mapping(entries).insert(name, value),
        forall|i: int|
            0 <= i < put(entries, name, value).len() ==> (#[trigger] put(entries, name, value)[i].0
                == name || exists|j: int|
                0 <= j < entries.len() && #[trigger] entries[j].0 == put(entries, name, value)[i].0),
        put(entries, name, value).len() <= entries.len() + 1,
    decreases entries.len(),
{
    let r = put(entries, name, value);
    if entries.len() == 0 {
        assert(r.drop_last() =~= Seq::<EntryView>::empty());
        assert(mapping(r.drop_last()) == Map::<Seq<char>, Seq<char>>::empty());
        assert(mapping(r) =~= mapping(entries).insert(name, value));
    } else {
        let rest = entries.drop_last();
        let last = entries.last();
        assert(last == entries[entries.len() - 1]);
        assert forall|a: int, b: int| 0 <= a < b < rest.len() implies text_before(
            #[trigger] rest[a].0,
            #[trigger] rest[b].0,
        ) by {
            assert(rest[a] == entries[a] && rest[b] == entries[b]);
        }
        if last.0 == name {
            assert(r.drop_last() =~= rest);
            assert(mapping(r) =~= mapping(entries).insert(name, value));
            assert forall|a: int, b: int| 0 <= a < b < r.len() implies text_before(
                #[trigger] r[a].0,
                #[trigger] r[b].0,
            ) by {
                assert(r[a].0 == entries[a].0 && r[b].0 == entries[b].0);
            }
            assert forall|i: int| 0 <= i < r.len() implies (#[trigger] r[i].0 == name || exists|j: int|
                0 <= j < entries.len() && #[trigger] entries[j].0 == r[i].0) by {
                assert(r[i].0 == entries[i].0);
            }
        } else if text_before(last.0, name) {
            assert(r.drop_last() =~= entries);
            assert forall|a: int, b: int| 0 <= a < b < r.len() implies text_before(
                #[trigger] r[a].0,
                #[trigger] r[b].0,
            ) by {
                assert(r[a] == entries[a]);
                if b < entries.len() {
                    assert(r[b] == entries[b]);
                } else if a < entries.len() - 1 {
                    assert(text_before(entries[a].0, entries[entries.len() - 1].0));
                    lemma_text_before_transitive(entries[a].0, last.0, name);
                }
            }
            assert forall|i: int| 0 <= i < r.len() implies (#[trigger] r[i].0 == name || exists|j: int|
                0 <= j < entries.len() && #[trigger] entries[j].0 == r[i].0) by {
                if i < entries.len() {
                    assert(r[i].0 == entries[i].0);
                }
            }
        } else {
            let inner = put(rest, name, value);
            lemma_put(rest, name, value);
            lemma_text_before_total(last.0, name);
            assert(r.drop_last() =~= inner);
            assert(mapping(r) =~= mapping(entries).insert(name, value));
            assert forall|a: int, b: int| 0 <= a < b < r.len() implies text_before(
                #[trigger] r[a].0,
                #[trigger] r[b].0,
            ) by {
                assert(r[a] == inner[a]);
                if b < inner.len() {
                    assert(r[b] == inner[b]);
                } else if inner[a].0 != name {
                    let j = choose|j: int| 0 <= j < rest.len() && #[trigger] rest[j].0 == inner[a].0;
                    assert(rest[j] == entries[j]);
                    assert(text_before(entries[j].0, entries[entries.len() - 1].0));
                }
            }
            assert forall|i: int| 0 <= i < r.len() implies (#[trigger] r[i].0 == name || exists|j: int|
                0 <= j < entries.len() && #[trigger] entries[j].0 == r[i].0) by {
                if i < inner.len() {
                    assert(r[i] == inner[i]);
                    if inner[i].0 != name {
                        let j = choose|j: int|
                            0 <= j < rest.len() && #[trigger] rest[j].0 == inner[i].0;
                        assert(entries[j].0 == r[i].0);
                    }
                } else {
                    assert(r[i].0 == entries[entries.len() - 1].0);
                }
            }
        }
    }
}

/// Ascending entries with one mapping are one list: the order in which variables were set
/// leaves no trace.
pub proof fn law_mapping_determines_entries(a: Seq<EntryView>, b: Seq<EntryView>)
    requires
        ascending(a),
        ascending(b),
        mapping(a) == mapping(b),
    ensures
        a == b,
    decreases a.len(),
{
    if a.len() == 0 {
        if b.len() > 0 {
            lemma_mapping_entry(b, 0);
        }
        assert(a =~= b);
    } else if b.len() == 0 {
        lemma_mapping_entry(a, 0);
    } else {
        let x = a.last().0;
        let y = b.last().0;
        lemma_mapping_entry(a, a.len() - 1);
        lemma_mapping_entry(b, b.len() - 1);
        lemma_mapping_domain(a, y);
        lemma_mapping_domain(b, x);
        lemma_text_before_total(x, y);
        if x != y {
            let i = choose|i: int| 0 <= i < b.len() && #[trigger] b[i].0 == x;
            let j = choose|j: int| 0 <= j < a.len() && #[trigger] a[j].0 == y;
            assert(text_before(b[i].0, b[b.len() - 1].0));
            assert(text_before(a[j].0, a[a.len() - 1].0));
        }
        let p = a.drop_last();
        let q = b.drop_last();
        assert forall|i: int, j: int| 0 <= i < j < p.len() implies text_before(
            #[trigger] p[i].0,
            #[trigger] p[j].0,
        ) by {
            assert(p[i] == a[i] && p[j] == a[j]);
        }
        assert forall|i: int, j: int| 0 <= i < j < q.len() implies text_before(
            #[trigger] q[i].0,
            #[trigger] q[j].0,
        ) by {
            assert(q[i] == b[i] && q[j] == b[j]);
        }
        lemma_mapping_domain(p, x);
        lemma_mapping_domain(q, x);
        if mapping(p).contains_key(x) {
            let i = choose|i: int| 0 <= i < p.len() && #[trigger] p[i].0 == x;
            assert(text_before(a[i].0, a[a.len() - 1].0));
        }
        if mapping(q).contains_key(x) {
            let i = choose|i: int| 0 <= i < q.len() && #[trigger] q[i].0 == x;
            assert(text_before(b[i].0, b[b.len() - 1].0));
        }
        assert(mapping(p) =~= mapping(a).remove(x));
        assert(mapping(q) =~= mapping(b).remove(x));
        law_mapping_determines_entries(p, q);
        assert(a =~= p.push(a.last()));
        assert(b =~= q.push(b.last()));
    }
}

/// The entries as character sequences.
pub open spec fn entry_views(entries: Seq<(String, String)>) -> Seq<EntryView> {
    entries.map_values(|e: (String, String)| (e.0@, e.1@))
}

/// Finds how many entries precede a name, the entry of that name among them if there is one.
fn place_of(entries: &Vec<(String, String)>, name: &str) -> (r: (usize, bool))
    ensures
        r.0 <= entries@.len(),
        r.1 ==> r.0 > 0,
        forall|value: Seq<char>| #[trigger]
            put(entry_views(entries@), name@, value) == entry_views(entries@).take(
                if r.1 {
                    r.0 - 1
                } else {
                    r.0 as int
                },
            ).push((name@, value)) + entry_views(entries@).skip(r.0 as int),
{
    let ghost all = entry_views(entries@);
    let mut k: usize = entries.len();
    assert(all.take(k as int) =~= all);
    assert forall|value: Seq<char>| #[trigger]
        put(all, name@, value) == put(all.take(k as int), name@, value) + all.skip(k as int) by {
        assert(all.skip(k as int) =~= Seq::empty());
        assert(put(all, name@, value) =~= put(all, name@, value) + all.skip(k as int));
    }
    while k > 0
        invariant
            k <= entries.len(),
            all == entry_views(entries@),
            forall|value: Seq<char>| #[trigger]
                put(all, name@, value) == put(all.take(k as int), name@, value) + all.skip(
                    k as int,
                ),
        decreases k,
    {
        assert(all.take(k as int).drop_last() =~= all.take(k - 1));
        assert(all.take(k as int).last() == all[k - 1]);
        if same(entries[k - 1].0.as_str(), name) {
            return (k, true);
        }
        if comes_before(entries[k - 1].0.as_str(), name) {
            return (k, false);
        }
        assert forall|value: Seq<char>| #[trigger]
            put(all, name@, value) == put(all.take(k - 1), name@, value) + all.skip(k - 1) by {
            assert(put(all.take(k as int), name@, value) + all.skip(k as int) =~= put(
                all.take(k - 1),
                name@,
                value,
            ) + all.skip(k - 1));
        }
        k = k - 1;
    }
    assert forall|value: Seq<char>| #[trigger]
        put(all, name@, value) == all.take(0).push((name@, value)) + all.skip(0) by {
        assert(put(all.take(0), name@, value) =~= all.take(0).push((name@, value)));
    }
    (k, false)
}

/// A set of environment variables in the order of their names.
#[derive(Debug, PartialEq, Eq)]
pub struct EnvMap {
    entries: Vec<(String, String)>,
}

impl View for EnvMap {
    type V = Seq<EntryView>;

    closed spec fn view(&self) -> Seq<EntryView> {
        entry_views(self.entries@)
    }
}

impl EnvMap {
    #[verifier::type_invariant]
    spec fn names_ascend(self) -> bool {
        ascending(self@)
    }

    /// The empty set.
    pub fn new() -> (r: EnvMap)
        ensures
            r@ == Seq::<EntryView>::empty(),
    {
        EnvMap { entries: Vec::new() }
    }

    /// How many variables there are.
    pub fn len(&self) -> (r: usize)
        ensures
            r == self@.len(),
    {
        self.entries.len()
    }

    /// The name and the value at a place in the order.
    pub fn entry(&self, i: usize) -> (r: (&str, &str))
        requires
            i < self@.len(),
        ensures
            r.0@ == self@[i as int].0,
            r.1@ == self@[i as int].1,
    {
        (self.entries[i].0.as_str(), self.entries[i].1.as_str())
    }

    /// Sets a variable.
    pub fn insert(&mut self, name: String, value: String)
        ensures
            final(self)@ == put(old(self)@, name@, value@),
            ascending(final(self)@),
            mapping(final(self)@) == mapping(old(self)@).insert(name@, value@),
    {
        let ghost before = self@;
        proof {
            use_type_invariant(&*self);
            lemma_put(before, name@, value@);
        }
        let mut entries: Vec<(String, String)> = Vec::new();
        std::mem::swap(&mut entries, &mut self.entries);
        let (k, found) = place_of(&entries, name.as_str());
        let ghost raw = entries@;
        let ghost n = name@;
        let ghost v = value@;
        if found {
            entries.set(k - 1, (name, value));
            assert(entry_views(entries@) =~= entry_views(raw).take(k - 1).push((n, v)) + entry_views(
                raw,
            ).skip(k as int));
        } else {
            entries.insert(k, (name, value));
            assert(entry_views(entries@) =~= entry_views(raw).take(k as int).push((n, v))
                + entry_views(raw).skip(k as int));
        }
        self.entries = entries;
    }

    /// The value of a variable.
    pub fn get(&self, name: &str) -> (r: Option<&str>)
        ensures
            match r {
                Some(value) => mapping(self@).contains_key(name@) && value@ == mapping(self@)[name@],
                None => !mapping(self@).contains_key(name@),
            },
    {
        proof {
            use_type_invariant(self);
            lemma_mapping_domain(self@, name@);
        }
        let mut i: usize = 0;
        while i < self.entries.len()
            invariant
                i <= self.entries.len(),
                ascending(self@),
                forall|j: int| 0 <= j < i ==> #[trigger] self@[j].0 != name@,
            decreases self.entries.len() - i,
        {
            if same(self.entries[i].0.as_str(), name) {
                proof {
                    lemma_mapping_entry(self@, i as int);
                }
                return Some(self.entries[i].1.as_str());
            }
            i = i + 1;
        }
        None
    }

    /// The names, in order.
    pub fn names(&self) -> (r: Vec<String>)
        ensures
            crate::text::texts(r@) == self@.map_values(|e: EntryView| e.0),
    {
        let mut names: Vec<String> = Vec::new();
        let mut i: usize = 0;
        while i < self.entries.len()
            invariant
                i <= self.entries.len(),
                names.len() == i,
                forall|j: int| 0 <= j < i ==> #[trigger] names@[j]@ == self@[j].0,
            decreases self.entries.len() - i,
        {
            names.push(self.entries[i].0.clone());
            i = i + 1;
        }
        assert(crate::text::texts(names@) =~= self@.map_values(|e: EntryView| e.0));
        names
    }
}

} // verus!
