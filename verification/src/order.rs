//! The order of texts, and sorting by it.
use crate::text;
use crate::text::chars_of;
use vstd::prelude::*;
use vstd::string::*;

verus! {

broadcast use crate::text::group_views;

/// `a` comes before `b` or is `b`: the first character in which they differ decides, and a text
/// comes before its continuations.
pub open spec fn at_most(a: Seq<char>, b: Seq<char>) -> bool
    decreases a.len(),
{
    if a.len() == 0 {
        true
    } else if b.len() == 0 {
        false
    } else if a[0] != b[0] {
        a[0] < b[0]
    } else {
        at_most(a.skip(1), b.skip(1))
    }
}

/// Each text comes before the next or is the same.
pub open spec fn sorted(s: Seq<Seq<char>>) -> bool {
    forall|i: int, j: int| 0 <= i <= j < s.len() ==> at_most(#[trigger] s[i], #[trigger] s[j])
}

pub proof fn lemma_reflexive(a: Seq<char>)
    ensures
        at_most(a, a),
    decreases a.len(),
{
    if a.len() > 0 {
        lemma_reflexive(a.skip(1));
    }
}

pub proof fn lemma_total(a: Seq<char>, b: Seq<char>)
    ensures
        at_most(a, b) || at_most(b, a),
    decreases a.len(),
{
    if a.len() > 0 && b.len() > 0 && a[0] == b[0] {
        lemma_total(a.skip(1), b.skip(1));
    }
}

pub proof fn lemma_transitive(a: Seq<char>, b: Seq<char>, c: Seq<char>)
    requires
        at_most(a, b),
        at_most(b, c),
    ensures
        at_most(a, c),
    decreases a.len(),
{
    if a.len() > 0 && a[0] == b[0] && b[0] == c[0] {
        lemma_transitive(a.skip(1), b.skip(1), c.skip(1));
    }
}

pub proof fn lemma_antisymmetric(a: Seq<char>, b: Seq<char>)
    requires
        at_most(a, b),
        at_most(b, a),
    ensures
        a == b,
    decreases a.len(),
{
    if a.len() > 0 && b.len() > 0 {
        lemma_antisymmetric(a.skip(1), b.skip(1));
        assert forall|i: int| 0 <= i < a.len() implies a[i] == b[i] by {
            if i > 0 {
                assert(a[i] == a.skip(1)[i - 1]);
                assert(b[i] == b.skip(1)[i - 1]);
            }
        }
        assert(a.skip(1).len() == b.skip(1).len());
    }
    assert(a =~= b);
}

fn chars_at_most(a: &[char], b: &[char]) -> (r: bool)
    ensures
        r == at_most(a@, b@),
{
    let mut i: usize = 0;
    assert(a@.skip(0) =~= a@);
    assert(b@.skip(0) =~= b@);
    while i < a.len()
        invariant
            i <= a.len(),
            i <= b.len(),
            at_most(a@, b@) == at_most(a@.skip(i as int), b@.skip(i as int)),
        decreases a.len() - i,
    {
        if i == b.len() {
            return false;
        }
        if a[i] != b[i] {
            return a[i] < b[i];
        }
        assert(a@.skip(i as int).skip(1) =~= a@.skip(i + 1));
        assert(b@.skip(i as int).skip(1) =~= b@.skip(i + 1));
        i += 1;
    }
    true
}

/// Whether `a` comes before `b` or is `b`.
pub fn not_after(a: &str, b: &str) -> (r: bool)
    ensures
        r == at_most(a@, b@),
{
    let left = chars_of(a);
    let right = chars_of(b);
    chars_at_most(&left, &right)
}

// ---------------------------------------------------------------------------------------------
// Stable insertion by a key
// ---------------------------------------------------------------------------------------------

/// The keys of some items, in order.
pub open spec fn keys<T>(s: Seq<T>, key: spec_fn(T) -> Seq<char>) -> Seq<Seq<char>> {
    s.map_values(key)
}

/// How many items at the front of `s` have a key that is not behind `k`.
pub open spec fn place(s: Seq<Seq<char>>, k: Seq<char>) -> nat
    decreases s.len(),
{
    if s.len() > 0 && at_most(s[0], k) {
        1 + place(s.skip(1), k)
    } else {
        0
    }
}

/// `item` put into `s` behind the items whose keys are not behind its own.
pub open spec fn inserted<T>(s: Seq<T>, key: spec_fn(T) -> Seq<char>, item: T) -> Seq<T> {
    let at = place(keys(s, key), key(item)) as int;
    s.take(at).push(item) + s.skip(at)
}

/// The items in the order of their keys; items with the same key keep their order.
pub open spec fn sorted_by<T>(s: Seq<T>, key: spec_fn(T) -> Seq<char>) -> Seq<T>
    decreases s.len(),
{
    if s.len() == 0 {
        seq![]
    } else {
        inserted(sorted_by(s.drop_last(), key), key, s.last())
    }
}

pub proof fn lemma_place(s: Seq<Seq<char>>, k: Seq<char>)
    ensures
        place(s, k) <= s.len(),
        forall|i: int| 0 <= i < place(s, k) ==> at_most(#[trigger] s[i], k),
        place(s, k) < s.len() ==> !at_most(s[place(s, k) as int], k),
    decreases s.len(),
{
    if s.len() > 0 && at_most(s[0], k) {
        lemma_place(s.skip(1), k);
        assert forall|i: int| 0 <= i < place(s, k) implies at_most(#[trigger] s[i], k) by {
            if i > 0 {
                assert(s[i] == s.skip(1)[i - 1]);
            }
        }
        if place(s, k) < s.len() {
            assert(s[place(s, k) as int] == s.skip(1)[place(s.skip(1), k) as int]);
        }
    }
}

pub proof fn lemma_place_unique(s: Seq<Seq<char>>, k: Seq<char>, n: nat)
    requires
        n <= s.len(),
        forall|i: int| 0 <= i < n ==> at_most(#[trigger] s[i], k),
        n < s.len() ==> !at_most(s[n as int], k),
    ensures
        place(s, k) == n,
{
    lemma_place(s, k);
    if place(s, k) < n {
        assert(at_most(s[place(s, k) as int], k));
    } else if n < place(s, k) {
        assert(at_most(s[n as int], k));
    }
}

/// Sorting keeps every item as often as it occurs, and puts the keys in order.
pub proof fn law_sorted_by<T>(s: Seq<T>, key: spec_fn(T) -> Seq<char>)
    ensures
        sorted(keys(sorted_by(s, key), key)),
        sorted_by(s, key).to_multiset() == s.to_multiset(),
        sorted_by(s, key).len() == s.len(),
    decreases s.len(),
{
    broadcast use vstd::seq_lib::group_to_multiset_ensures;

    if s.len() == 0 {
        assert(s =~= seq![]);
    } else {
        let rest = sorted_by(s.drop_last(), key);
        let item = s.last();
        law_sorted_by(s.drop_last(), key);
        let ks = keys(rest, key);
        lemma_place(ks, key(item));
        let at = place(ks, key(item)) as int;
        let out = sorted_by(s, key);
        assert(out == rest.take(at).push(item) + rest.skip(at));
        let ko = keys(out, key);
        assert(ko =~= ks.take(at).push(key(item)) + ks.skip(at));
        assert forall|i: int, j: int| 0 <= i <= j < ko.len() implies at_most(
            #[trigger] ko[i],
            #[trigger] ko[j],
        ) by {
            let k = key(item);
            if i == j {
                lemma_reflexive(ko[i]);
            } else if j < at {
                assert(ko[i] == ks[i] && ko[j] == ks[j]);
            } else if i > at {
                assert(ko[i] == ks[i - 1] && ko[j] == ks[j - 1]);
            } else if j == at {
                assert(ko[i] == ks[i]);
            } else {
                // `j` is behind the new item, so its key is behind `k`.
                assert(ko[j] == ks[j - 1]);
                lemma_total(ks[at], k);
                assert(at_most(ks[at], ks[j - 1]));
                lemma_transitive(k, ks[at], ks[j - 1]);
                if i < at {
                    assert(ko[i] == ks[i]);
                    lemma_transitive(ks[i], k, ks[j - 1]);
                }
            }
        }
        assert(out =~= rest.insert(at, item));
        assert(s =~= s.drop_last().push(item));
    }
}

/// The place at which a key goes into a sorted list of keys.
pub fn find_place(keys: &[String], key: &str) -> (r: usize)
    ensures
        r == place(text::views(keys@), key@),
        r <= keys.len(),
{
    let mut i: usize = 0;
    while i < keys.len() && not_after(keys[i].as_str(), key)
        invariant
            i <= keys.len(),
            forall|j: int| 0 <= j < i ==> at_most(#[trigger] text::views(keys@)[j], key@),
        decreases keys.len() - i,
    {
        i += 1;
    }
    proof {
        lemma_place_unique(text::views(keys@), key@, i as nat);
    }
    i
}

/// Something with a name to be sorted by.
pub trait Named: View + Sized {
    /// The name of what the model stands for.
    spec fn name_in(model: Self::V) -> Seq<char>;

    /// The name.
    fn name_text(&self) -> (r: &str)
        ensures
            r@ == Self::name_in(self@),
    ;
}

/// The name, as a key.
pub open spec fn name_key<T: Named>() -> spec_fn(T::V) -> Seq<char> {
    |model: T::V| T::name_in(model)
}

/// The items in the order of their names; items with the same name keep their order.
pub fn sort_named<T: Named>(items: Vec<T>) -> (r: Vec<T>)
    ensures
        text::views(r@) == sorted_by(text::views(items@), name_key::<T>()),
{
    let mut rest = items;
    let mut out: Vec<T> = Vec::new();
    let ghost all = text::views(items@);
    let ghost key = name_key::<T>();
    let ghost mut done: int = 0;
    assert(all.take(0) =~= seq![]);
    while rest.len() > 0
        invariant
            0 <= done <= all.len(),
            text::views(rest@) == all.skip(done),
            key == name_key::<T>(),
            text::views(out@) == sorted_by(all.take(done), key),
        decreases rest.len(),
    {
        let ghost before_rest = text::views(rest@);
        let item = rest.remove(0);
        assert(text::views(rest@) =~= before_rest.skip(1));
        assert(item@ == before_rest[0]);
        let ghost before = text::views(out@);
        let ghost ks = keys(before, key);
        let mut at: usize = 0;
        while at < out.len() && not_after(out[at].name_text(), item.name_text())
            invariant
                at <= out.len(),
                text::views(out@) == before,
                ks == keys(before, key),
                key == name_key::<T>(),
                forall|j: int| 0 <= j < at ==> at_most(#[trigger] ks[j], key(item@)),
            decreases out.len() - at,
        {
            at += 1;
        }
        proof {
            lemma_place_unique(ks, key(item@), at as nat);
            let upto = all.take(done + 1);
            assert(upto.drop_last() =~= all.take(done));
            assert(upto.last() == item@);
            done = done + 1;
        }
        let ghost model = item@;
        out.insert(at, item);
        assert(text::views(out@) =~= before.take(at as int).push(model) + before.skip(at as int));
    }
    assert(all.take(done) =~= all);
    out
}

/// A text itself, as a key.
pub open spec fn own_key() -> spec_fn(Seq<char>) -> Seq<char> {
    |s: Seq<char>| s
}

/// The texts in order.
pub open spec fn in_order(s: Seq<Seq<char>>) -> Seq<Seq<char>> {
    sorted_by(s, own_key())
}

/// The texts in order.
pub fn sort(texts: &[String]) -> (r: Vec<String>)
    ensures
        text::views(r@) == in_order(text::views(texts@)),
        sorted(text::views(r@)),
{
    let mut out: Vec<String> = Vec::new();
    let mut i: usize = 0;
    while i < texts.len()
        invariant
            i <= texts.len(),
            text::views(out@) == in_order(text::views(texts@.take(i as int))),
        decreases texts.len() - i,
    {
        let at = find_place(&out, texts[i].as_str());
        let ghost before = text::views(out@);
        let ghost all = text::views(texts@.take(i + 1));
        assert(all.drop_last() =~= text::views(texts@.take(i as int)));
        assert(keys(before, own_key()) =~= before);
        out.insert(at, texts[i].clone());
        assert(text::views(out@) =~= before.take(at as int).push(texts@[i as int]@) + before.skip(
            at as int,
        ));
        i += 1;
    }
    assert(texts@.take(i as int) =~= texts@);
    proof {
        law_sorted_by(text::views(texts@), own_key());
        assert(keys(text::views(out@), own_key()) =~= text::views(out@));
    }
    out
}

/// Sorting texts loses none, adds none and puts them in order.
pub proof fn law_in_order(s: Seq<Seq<char>>)
    ensures
        sorted(in_order(s)),
        in_order(s).to_multiset() == s.to_multiset(),
        in_order(s).len() == s.len(),
{
    let key = |x: Seq<char>| x;
    law_sorted_by(s, key);
    assert(keys(in_order(s), key) =~= in_order(s));
}

/// What is sorted holds the same items.
pub proof fn lemma_same_items<T>(s: Seq<T>, key: spec_fn(T) -> Seq<char>, item: T)
    ensures
        sorted_by(s, key).contains(item) <==> s.contains(item),
{
    broadcast use vstd::seq_lib::group_to_multiset_ensures;

    law_sorted_by(s, key);
    assert(sorted_by(s, key).contains(item) <==> sorted_by(s, key).to_multiset().count(item) > 0);
    assert(s.contains(item) <==> s.to_multiset().count(item) > 0);
}

/// Texts are ordered by their first difference, and a text comes before what begins with it.
pub proof fn law_order_goes_by_the_first_difference(front: Seq<char>, a: Seq<char>, b: Seq<char>)
    ensures
        at_most(front, front + a),
        a.len() > 0 ==> !at_most(front + a, front),
        a.len() > 0 && b.len() > 0 && a[0] != b[0] ==> (at_most(front + a, front + b) <==> a[0]
            < b[0]),
    decreases front.len(),
{
    if front.len() == 0 {
        assert(front + a =~= a);
        assert(front + b =~= b);
    } else {
        law_order_goes_by_the_first_difference(front.skip(1), a, b);
        assert((front + a).skip(1) =~= front.skip(1) + a);
        assert((front + b).skip(1) =~= front.skip(1) + b);
    }
}

} // verus!
