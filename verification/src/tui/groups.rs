//! Which environments share a value, told by letters without showing the value.

use crate::ids::Id;
use crate::text::same;
use crate::tui::paint::Color;
use crate::tui::state::{variant_views, SecretRow};
use vstd::prelude::*;

verus! {

/// Whether at least two environments have a value.
pub open spec fn is_shared(variants: Seq<(Id, Seq<char>)>, value: Seq<char>) -> bool {
    exists|i: int, j: int|
        0 <= i < j < variants.len() && (#[trigger] variants[i]).1 == value && (
        #[trigger] variants[j]).1 == value
}

/// The values among the first `n` that are shared, each once, in the order of their first
/// appearance.
pub open spec fn shared_values(variants: Seq<(Id, Seq<char>)>, n: nat) -> Seq<Seq<char>>
    decreases n,
{
    if n == 0 {
        Seq::empty()
    } else {
        let rest = shared_values(variants, (n - 1) as nat);
        let value = variants[n - 1].1;
        if is_shared(variants, value) && !rest.contains(value) {
            rest.push(value)
        } else {
            rest
        }
    }
}

/// The letter of a group. Behind the last Latin-1 character the letters start over.
pub open spec fn group_letter(index: nat) -> char {
    ((65 + index) % 256) as u8 as char
}

/// The groups: each shared value with its letter.
pub open spec fn groups(variants: Seq<(Id, Seq<char>)>) -> Seq<(Seq<char>, char)> {
    let values = shared_values(variants, variants.len());
    Seq::new(values.len(), |i: int| (values[i], group_letter(i as nat)))
}

/// The letter of a value, if it is shared.
pub open spec fn letter_in(groups: Seq<(Seq<char>, char)>, value: Seq<char>) -> Option<char>
    decreases groups.len(),
{
    if groups.len() == 0 {
        None
    } else if groups.last().0 == value {
        Some(groups.last().1)
    } else {
        letter_in(groups.drop_last(), value)
    }
}

/// Groups with their values as character sequences.
pub open spec fn group_views(list: Seq<(String, char)>) -> Seq<(Seq<char>, char)> {
    list.map_values(|g: (String, char)| (g.0@, g.1))
}

/// The values that environments share, with their letters.
#[derive(Debug)]
pub struct ValueGroups {
    entries: Vec<(String, char)>,
}

impl View for ValueGroups {
    type V = Seq<(Seq<char>, char)>;

    closed spec fn view(&self) -> Seq<(Seq<char>, char)> {
        group_views(self.entries@)
    }
}

impl ValueGroups {
    /// How many groups there are.
    pub fn len(&self) -> (r: usize)
        ensures
            r == self@.len(),
    {
        self.entries.len()
    }

    /// The letter of a value, if it is shared.
    pub fn get(&self, value: &str) -> (r: Option<char>)
        ensures
            r == letter_in(self@, value@),
    {
        let ghost all = self@;
        let mut n: usize = self.entries.len();
        assert(all.take(n as int) =~= all);
        while n > 0
            invariant
                n <= self.entries@.len(),
                all == group_views(self.entries@),
                letter_in(all.take(n as int), value@) == letter_in(all, value@),
            decreases n,
        {
            assert(all.take(n as int).last() == all[n - 1]);
            assert(all.take(n as int).drop_last() =~= all.take(n - 1));
            if same(self.entries[n - 1].0.as_str(), value) {
                return Some(self.entries[n - 1].1);
            }
            n = n - 1;
        }
        None
    }
}

fn shared(variants: &Vec<(Id, String)>, value: &str) -> (r: bool)
    ensures
        r == is_shared(variant_views(variants@), value@),
{
    let ghost all = variant_views(variants@);
    let mut first: Option<usize> = None;
    let mut i: usize = 0;
    while i < variants.len()
        invariant
            i <= variants@.len(),
            all == variant_views(variants@),
            match first {
                Some(k) => k < i && all[k as int].1 == value@ && forall|j: int|
                    0 <= j < i && j != k ==> (#[trigger] all[j]).1 != value@,
                None => forall|j: int| 0 <= j < i ==> (#[trigger] all[j]).1 != value@,
            },
        decreases variants@.len() - i,
    {
        assert(all[i as int].1 == variants@[i as int].1@);
        if same(variants[i].1.as_str(), value) {
            if let Some(k) = first {
                assert(all[k as int].1 == value@ && all[i as int].1 == value@);
                return true;
            }
            first = Some(i);
        }
        i = i + 1;
    }
    false
}

fn has_value(entries: &Vec<(String, char)>, value: &str) -> (r: bool)
    ensures
        r == exists|i: int| 0 <= i < entries@.len() && (#[trigger] entries@[i]).0@ == value@,
{
    let mut i: usize = 0;
    while i < entries.len()
        invariant
            i <= entries@.len(),
            forall|j: int| 0 <= j < i ==> (#[trigger] entries@[j]).0@ != value@,
        decreases entries@.len() - i,
    {
        if same(entries[i].0.as_str(), value) {
            return true;
        }
        i = i + 1;
    }
    false
}

/// The values that environments share, with a letter each in the order of their first
/// appearance. A value of one environment alone has none.
pub fn value_groups(row: &SecretRow) -> (r: ValueGroups)
    ensures
        r@ == groups(row@.variants),
{
    let ghost all = row@.variants;
    let mut entries: Vec<(String, char)> = Vec::new();
    let mut next: u8 = 65;
    let mut i: usize = 0;
    while i < row.variants.len()
        invariant
            i <= row.variants@.len(),
            all == row@.variants,
            entries@.len() == shared_values(all, i as nat).len(),
            next == (65 + entries@.len()) % 256,
            forall|j: int|
                0 <= j < entries@.len() ==> (#[trigger] entries@[j]).0@ == shared_values(
                    all,
                    i as nat,
                )[j] && entries@[j].1 == group_letter(j as nat),
        decreases row.variants@.len() - i,
    {
        let value = row.variants[i].1.as_str();
        let ghost known = shared_values(all, i as nat);
        let ghost before = entries@;
        proof {
            assert(all[i as int].1 == value@);
            if exists|j: int| 0 <= j < before.len() && (#[trigger] before[j]).0@ == value@ {
                let j = choose|j: int| 0 <= j < before.len() && (#[trigger] before[j]).0@ == value@;
                assert(known[j] == value@);
            }
            if known.contains(value@) {
                let j = choose|j: int| 0 <= j < known.len() && known[j] == value@;
                assert(before[j].0@ == value@);
            }
        }
        if shared(&row.variants, value) && !has_value(&entries, value) {
            entries.push((value.to_owned(), next as char));
            next = if next == 255 {
                0
            } else {
                next + 1
            };
            proof {
                assert(shared_values(all, (i + 1) as nat) == known.push(value@));
                assert(entries@.last().1 == group_letter(before.len()));
            }
        }
        i = i + 1;
    }
    let r = ValueGroups { entries };
    assert(r@ =~= groups(all));
    r
}

/// The colour of a group.
pub open spec fn color_of(letter: char) -> Color {
    let index = (letter as u32 % 256 + 191) % 256 % 6;
    if index == 0 {
        Color::Yellow
    } else if index == 1 {
        Color::Magenta
    } else if index == 2 {
        Color::Blue
    } else if index == 3 {
        Color::Green
    } else if index == 4 {
        Color::Cyan
    } else {
        Color::LightRed
    }
}

/// The colour of a group, out of six in turn.
pub fn group_color(letter: char) -> (r: Color)
    ensures
        r == color_of(letter),
{
    let index: u32 = (letter as u32 % 256 + 191) % 256 % 6;
    if index == 0 {
        Color::Yellow
    } else if index == 1 {
        Color::Magenta
    } else if index == 2 {
        Color::Blue
    } else if index == 3 {
        Color::Green
    } else if index == 4 {
        Color::Cyan
    } else {
        Color::LightRed
    }
}

proof fn lemma_shared_values(variants: Seq<(Id, Seq<char>)>, n: nat)
    requires
        n <= variants.len(),
    ensures
        shared_values(variants, n).no_duplicates(),
        forall|v: Seq<char>| #[trigger]
            shared_values(variants, n).contains(v) ==> is_shared(variants, v),
        forall|i: int|
            0 <= i < n && is_shared(variants, (#[trigger] variants[i]).1) ==> shared_values(
                variants,
                n,
            ).contains(variants[i].1),
    decreases n,
{
    if n > 0 {
        lemma_shared_values(variants, (n - 1) as nat);
        let rest = shared_values(variants, (n - 1) as nat);
        let all = shared_values(variants, n);
        let value = variants[n - 1].1;
        assert forall|v: Seq<char>| rest.contains(v) implies all.contains(v) by {
            let k = choose|k: int| 0 <= k < rest.len() && rest[k] == v;
            assert(all[k] == v);
        }
        if is_shared(variants, value) && !rest.contains(value) {
            assert(all[all.len() - 1] == value);
            assert forall|v: Seq<char>| #[trigger] all.contains(v) implies is_shared(
                variants,
                v,
            ) by {
                let k = choose|k: int| 0 <= k < all.len() && all[k] == v;
                if k < rest.len() {
                    assert(rest[k] == v);
                    assert(rest.contains(v));
                } else {
                    assert(v == value);
                }
            }
        }
    }
}

proof fn lemma_letter_in(groups: Seq<(Seq<char>, char)>, k: int)
    requires
        0 <= k < groups.len(),
        forall|i: int, j: int|
            0 <= i < j < groups.len() ==> (#[trigger] groups[i]).0 != (#[trigger] groups[j]).0,
    ensures
        letter_in(groups, groups[k].0) == Some(groups[k].1),
    decreases groups.len(),
{
    if k < groups.len() - 1 {
        let rest = groups.drop_last();
        assert(groups[k].0 != groups[groups.len() - 1].0);
        assert forall|i: int, j: int| 0 <= i < j < rest.len() implies (#[trigger] rest[i]).0 != (
        #[trigger] rest[j]).0 by {
            assert(groups[i].0 != groups[j].0);
        }
        assert(rest[k] == groups[k]);
        lemma_letter_in(rest, k);
    }
}

proof fn lemma_letter_absent(groups: Seq<(Seq<char>, char)>, value: Seq<char>)
    requires
        forall|i: int| 0 <= i < groups.len() ==> (#[trigger] groups[i]).0 != value,
    ensures
        letter_in(groups, value) is None,
    decreases groups.len(),
{
    if groups.len() > 0 {
        let rest = groups.drop_last();
        assert(groups.last().0 != value);
        assert forall|i: int| 0 <= i < rest.len() implies (#[trigger] rest[i]).0 != value by {
            assert(groups[i].0 != value);
        }
        lemma_letter_absent(rest, value);
    }
}

/// Two environments show the same letter exactly where their values are equal, as long as
/// there are letters enough.
pub proof fn law_letters_tell_equal_values(variants: Seq<(Id, Seq<char>)>, i: int, j: int)
    requires
        0 <= i < j < variants.len(),
        groups(variants).len() <= 256,
    ensures
        ({
            let a = letter_in(groups(variants), variants[i].1);
            let b = letter_in(groups(variants), variants[j].1);
            variants[i].1 == variants[j].1 <==> a is Some && a == b
        }),
{
    let all = groups(variants);
    let values = shared_values(variants, variants.len());
    lemma_shared_values(variants, variants.len());
    assert forall|x: int, y: int| 0 <= x < y < all.len() implies (#[trigger] all[x]).0 != (
    #[trigger] all[y]).0 by {
        assert(values[x] != values[y]);
    }
    let v = variants[i].1;
    let w = variants[j].1;
    if values.contains(v) {
        let x = choose|x: int| 0 <= x < values.len() && values[x] == v;
        lemma_letter_in(all, x);
        if values.contains(w) {
            let y = choose|y: int| 0 <= y < values.len() && values[y] == w;
            lemma_letter_in(all, y);
            assert(all[x].1 == group_letter(x as nat));
            assert(all[y].1 == group_letter(y as nat));
            assert(group_letter(x as nat) == group_letter(y as nat) ==> x == y) by {
                assert(((65 + x) % 256) as u8 as char as u32 == (65 + x) % 256);
                assert(((65 + y) % 256) as u8 as char as u32 == (65 + y) % 256);
            }
        } else {
            assert forall|k: int| 0 <= k < all.len() implies (#[trigger] all[k]).0 != w by {
                assert(values[k] != w);
            }
            lemma_letter_absent(all, w);
        }
    } else {
        assert forall|k: int| 0 <= k < all.len() implies (#[trigger] all[k]).0 != v by {
            assert(values[k] != v);
        }
        lemma_letter_absent(all, v);
        assert(!is_shared(variants, v));
    }
    if v == w {
        assert(is_shared(variants, v));
        assert(values.contains(variants[i].1));
    }
}

/// Whether the same environments share values in two lists, whatever the values are.
pub open spec fn same_pattern(a: Seq<(Id, Seq<char>)>, b: Seq<(Id, Seq<char>)>) -> bool {
    &&& a.len() == b.len()
    &&& forall|i: int, j: int|
        0 <= i < a.len() && 0 <= j < a.len() ==> ((#[trigger] a[i]).1 == (#[trigger] a[j]).1 <==> b[i].1
            == b[j].1)
}

proof fn lemma_shared_alike(a: Seq<(Id, Seq<char>)>, b: Seq<(Id, Seq<char>)>, p: int)
    requires
        same_pattern(a, b),
        0 <= p < a.len(),
    ensures
        is_shared(a, a[p].1) <==> is_shared(b, b[p].1),
{
    if is_shared(a, a[p].1) {
        let (i, j) = choose|i: int, j: int|
            0 <= i < j < a.len() && (#[trigger] a[i]).1 == a[p].1 && (#[trigger] a[j]).1 == a[p].1;
        assert(b[i].1 == b[p].1 && b[j].1 == b[p].1);
    }
    if is_shared(b, b[p].1) {
        let (i, j) = choose|i: int, j: int|
            0 <= i < j < b.len() && (#[trigger] b[i]).1 == b[p].1 && (#[trigger] b[j]).1 == b[p].1;
        assert(a[i].1 == a[p].1 && a[j].1 == a[p].1);
    }
}

spec fn placed_alike(
    a: Seq<(Id, Seq<char>)>,
    b: Seq<(Id, Seq<char>)>,
    x: Seq<char>,
    y: Seq<char>,
) -> bool {
    exists|p: int| 0 <= p < a.len() && (#[trigger] a[p]).1 == x && b[p].1 == y
}

proof fn lemma_contained_alike(
    a: Seq<(Id, Seq<char>)>,
    b: Seq<(Id, Seq<char>)>,
    xs: Seq<Seq<char>>,
    ys: Seq<Seq<char>>,
    p: int,
)
    requires
        same_pattern(a, b),
        0 <= p < a.len(),
        xs.len() == ys.len(),
        forall|k: int| 0 <= k < xs.len() ==> placed_alike(a, b, #[trigger] xs[k], ys[k]),
    ensures
        forall|k: int| 0 <= k < xs.len() ==> ((#[trigger] xs[k]) == a[p].1 <==> ys[k] == b[p].1),
        xs.contains(a[p].1) <==> ys.contains(b[p].1),
{
    assert forall|k: int| 0 <= k < xs.len() implies ((#[trigger] xs[k]) == a[p].1 <==> ys[k]
        == b[p].1) by {
        assert(placed_alike(a, b, xs[k], ys[k]));
        let q = choose|q: int| 0 <= q < a.len() && (#[trigger] a[q]).1 == xs[k] && b[q].1 == ys[k];
        assert(a[q].1 == a[p].1 <==> b[q].1 == b[p].1);
    }
    if xs.contains(a[p].1) {
        let k = choose|k: int| 0 <= k < xs.len() && xs[k] == a[p].1;
        assert(ys[k] == b[p].1);
    }
    if ys.contains(b[p].1) {
        let k = choose|k: int| 0 <= k < ys.len() && ys[k] == b[p].1;
        assert(xs[k] == a[p].1);
    }
}

proof fn lemma_shared_values_alike(a: Seq<(Id, Seq<char>)>, b: Seq<(Id, Seq<char>)>, n: nat)
    requires
        same_pattern(a, b),
        n <= a.len(),
    ensures
        shared_values(a, n).len() == shared_values(b, n).len(),
        forall|k: int|
            0 <= k < shared_values(a, n).len() ==> placed_alike(
                a,
                b,
                #[trigger] shared_values(a, n)[k],
                shared_values(b, n)[k],
            ),
    decreases n,
{
    if n > 0 {
        let m = (n - 1) as nat;
        lemma_shared_values_alike(a, b, m);
        lemma_shared_alike(a, b, m as int);
        lemma_contained_alike(a, b, shared_values(a, m), shared_values(b, m), m as int);
        assert(placed_alike(a, b, a[m as int].1, b[m as int].1));
        assert forall|k: int| 0 <= k < shared_values(a, n).len() implies placed_alike(
            a,
            b,
            #[trigger] shared_values(a, n)[k],
            shared_values(b, n)[k],
        ) by {
            if k < shared_values(a, m).len() {
                assert(placed_alike(a, b, shared_values(a, m)[k], shared_values(b, m)[k]));
            }
        }
    }
}

/// The letters depend on which environments share values, not on the values.
pub proof fn law_letters_hide_values(a: Seq<(Id, Seq<char>)>, b: Seq<(Id, Seq<char>)>, p: int)
    requires
        same_pattern(a, b),
        0 <= p < a.len(),
    ensures
        letter_in(groups(a), a[p].1) == letter_in(groups(b), b[p].1),
{
    let xs = shared_values(a, a.len());
    let ys = shared_values(b, b.len());
    lemma_shared_values_alike(a, b, a.len());
    lemma_contained_alike(a, b, xs, ys, p);
    lemma_shared_values(a, a.len());
    lemma_shared_values(b, b.len());
    if xs.contains(a[p].1) {
        let k = choose|k: int| 0 <= k < xs.len() && xs[k] == a[p].1;
        assert(ys[k] == b[p].1);
        lemma_letter_of_group(a, k);
        lemma_letter_of_group(b, k);
    } else {
        assert forall|k: int| 0 <= k < xs.len() implies (#[trigger] groups(a)[k]).0 != a[p].1 by {
            assert(xs[k] != a[p].1);
        }
        assert forall|k: int| 0 <= k < ys.len() implies (#[trigger] groups(b)[k]).0 != b[p].1 by {
            assert(xs[k] != a[p].1);
        }
        lemma_letter_absent(groups(a), a[p].1);
        lemma_letter_absent(groups(b), b[p].1);
    }
}

proof fn lemma_letter_of_group(variants: Seq<(Id, Seq<char>)>, k: int)
    requires
        0 <= k < shared_values(variants, variants.len()).len(),
    ensures
        letter_in(groups(variants), shared_values(variants, variants.len())[k]) == Some(
            group_letter(k as nat),
        ),
{
    let all = groups(variants);
    let values = shared_values(variants, variants.len());
    lemma_shared_values(variants, variants.len());
    assert forall|x: int, y: int| 0 <= x < y < all.len() implies (#[trigger] all[x]).0 != (
    #[trigger] all[y]).0 by {
        assert(values[x] != values[y]);
    }
    lemma_letter_in(all, k);
}

} // verus!
