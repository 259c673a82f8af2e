//! Orderings used to sort query results, and a verified stable-position insertion sort.
use vstd::prelude::*;
use crate::text::chars_of;
use vstd::multiset::Multiset;

verus! {

broadcast use vstd::seq_lib::group_to_multiset_ensures;

/// Lexicographic order on character sequences by code point (the order of `str`'s `Ord`).
pub open spec fn chars_le(a: Seq<char>, b: Seq<char>) -> bool
    decreases a.len(),
{
    if a.len() == 0 {
        true
    } else if b.len() == 0 {
        false
    } else if a[0] != b[0] {
        a[0] < b[0]
    } else {
        chars_le(a.drop_first(), b.drop_first())
    }
}

pub proof fn lemma_chars_le_total(a: Seq<char>, b: Seq<char>)
    ensures
        chars_le(a, b) || chars_le(b, a),
    decreases a.len(),
{
    if a.len() > 0 && b.len() > 0 && a[0] == b[0] {
        lemma_chars_le_total(a.drop_first(), b.drop_first());
    }
}

pub proof fn lemma_chars_le_trans(a: Seq<char>, b: Seq<char>, c: Seq<char>)
    requires
        chars_le(a, b),
        chars_le(b, c),
    ensures
        chars_le(a, c),
    decreases a.len(),
{
    if a.len() > 0 && b.len() > 0 && c.len() > 0 && a[0] == b[0] && b[0] == c[0] {
        lemma_chars_le_trans(a.drop_first(), b.drop_first(), c.drop_first());
    }
}

pub proof fn lemma_chars_le_antisym(a: Seq<char>, b: Seq<char>)
    requires
        chars_le(a, b),
        chars_le(b, a),
    ensures
        a == b,
    decreases a.len(),
{
    if a.len() > 0 && b.len() > 0 {
        lemma_chars_le_antisym(a.drop_first(), b.drop_first());
        assert(a =~= seq![a[0]] + a.drop_first());
        assert(b =~= seq![b[0]] + b.drop_first());
    }
}

/// With the first `i` characters equal, the order is decided at position `i`.
proof fn lemma_chars_le_prefix(a: Seq<char>, b: Seq<char>, i: int)
    requires
        0 <= i <= a.len(),
        i <= b.len(),
        forall|j: int| 0 <= j < i ==> a[j] == b[j],
    ensures
        chars_le(a, b) == (if i == a.len() {
            true
        } else if i == b.len() {
            false
        } else if a[i] != b[i] {
            a[i] < b[i]
        } else {
            chars_le(a.subrange(i, a.len() as int), b.subrange(i, b.len() as int))
        }),
    decreases i,
{
    if i > 0 {
        lemma_chars_le_prefix(a.drop_first(), b.drop_first(), i - 1);
        assert(a.drop_first().subrange(i - 1, a.len() - 1) =~= a.subrange(i, a.len() as int));
        assert(b.drop_first().subrange(i - 1, b.len() - 1) =~= b.subrange(i, b.len() as int));
    } else {
        assert(a.subrange(0, a.len() as int) =~= a);
        assert(b.subrange(0, b.len() as int) =~= b);
    }
}

/// `chars_le` in executable form.
pub fn vec_chars_le(a: &Vec<char>, b: &Vec<char>) -> (r: bool)
    ensures
        r == chars_le(a@, b@),
{
    let mut i: usize = 0;
    while i < a.len() && i < b.len() && a[i] == b[i]
        invariant
            i <= a@.len(),
            i <= b@.len(),
            forall|j: int| 0 <= j < i ==> a@[j] == b@[j],
        decreases a@.len() - i,
    {
        i += 1;
    }
    proof {
        lemma_chars_le_prefix(a@, b@, i as int);
    }
    if i == a.len() {
        true
    } else if i == b.len() {
        false
    } else {
        a[i] < b[i]
    }
}

/// `a <= b` for strings.
pub fn str_le(a: &str, b: &str) -> (r: bool)
    ensures
        r == chars_le(a@, b@),
{
    let x = chars_of(a);
    let y = chars_of(b);
    vec_chars_le(&x, &y)
}

/// A total preorder with an executable comparison, used as a sort key.
pub trait KeyOrd: Sized {
    spec fn key_le(&self, other: &Self) -> bool;

    fn le(&self, other: &Self) -> (r: bool)
        ensures
            r == self.key_le(other),
    ;

    proof fn lemma_total(a: &Self, b: &Self)
        ensures
            a.key_le(b) || b.key_le(a),
    ;

    proof fn lemma_trans(a: &Self, b: &Self, c: &Self)
        requires
            a.key_le(b),
            b.key_le(c),
        ensures
            a.key_le(c),
    ;
}

impl KeyOrd for String {
    open spec fn key_le(&self, other: &Self) -> bool {
        chars_le(self@, other@)
    }

    fn le(&self, other: &Self) -> (r: bool) {
        str_le(self.as_str(), other.as_str())
    }

    proof fn lemma_total(a: &Self, b: &Self) {
        lemma_chars_le_total(a@, b@);
    }

    proof fn lemma_trans(a: &Self, b: &Self, c: &Self) {
        lemma_chars_le_trans(a@, b@, c@);
    }
}

impl KeyOrd for u32 {
    open spec fn key_le(&self, other: &Self) -> bool {
        *self <= *other
    }

    fn le(&self, other: &Self) -> (r: bool) {
        *self <= *other
    }

    proof fn lemma_total(a: &Self, b: &Self) {
    }

    proof fn lemma_trans(a: &Self, b: &Self, c: &Self) {
    }
}

impl KeyOrd for usize {
    open spec fn key_le(&self, other: &Self) -> bool {
        *self <= *other
    }

    fn le(&self, other: &Self) -> (r: bool) {
        *self <= *other
    }

    proof fn lemma_total(a: &Self, b: &Self) {
    }

    proof fn lemma_trans(a: &Self, b: &Self, c: &Self) {
    }
}

impl KeyOrd for u128 {
    open spec fn key_le(&self, other: &Self) -> bool {
        *self <= *other
    }

    fn le(&self, other: &Self) -> (r: bool) {
        *self <= *other
    }

    proof fn lemma_total(a: &Self, b: &Self) {
    }

    proof fn lemma_trans(a: &Self, b: &Self, c: &Self) {
    }
}

/// Descending order on counts (larger counts first).
pub struct Desc(pub usize);

impl KeyOrd for Desc {
    open spec fn key_le(&self, other: &Self) -> bool {
        self.0 >= other.0
    }

    fn le(&self, other: &Self) -> (r: bool) {
        self.0 >= other.0
    }

    proof fn lemma_total(a: &Self, b: &Self) {
    }

    proof fn lemma_trans(a: &Self, b: &Self, c: &Self) {
    }
}

/// Lexicographic order on pairs: by the first key, ties broken by the second.
impl<A: KeyOrd, B: KeyOrd> KeyOrd for (A, B) {
    open spec fn key_le(&self, other: &Self) -> bool {
        ||| self.0.key_le(&other.0) && !other.0.key_le(&self.0)
        ||| self.0.key_le(&other.0) && other.0.key_le(&self.0) && self.1.key_le(&other.1)
    }

    fn le(&self, other: &Self) -> (r: bool) {
        let ab = self.0.le(&other.0);
        let ba = other.0.le(&self.0);
        if ab && !ba {
            true
        } else if ab && ba {
            self.1.le(&other.1)
        } else {
            false
        }
    }

    proof fn lemma_total(a: &Self, b: &Self) {
        A::lemma_total(&a.0, &b.0);
        B::lemma_total(&a.1, &b.1);
    }

    proof fn lemma_trans(a: &Self, b: &Self, c: &Self) {
        A::lemma_total(&a.0, &b.0);
        A::lemma_total(&b.0, &c.0);
        A::lemma_total(&a.0, &c.0);
        if a.0.key_le(&b.0) && b.0.key_le(&c.0) {
            A::lemma_trans(&a.0, &b.0, &c.0);
        }
        if c.0.key_le(&a.0) && a.0.key_le(&b.0) {
            A::lemma_trans(&c.0, &a.0, &b.0);
        }
        if b.0.key_le(&c.0) && c.0.key_le(&a.0) {
            A::lemma_trans(&b.0, &c.0, &a.0);
        }
        if a.1.key_le(&b.1) && b.1.key_le(&c.1) {
            B::lemma_trans(&a.1, &b.1, &c.1);
        }
    }
}

/// Every earlier key is `key_le` every later key.
pub open spec fn sorted_by_key<K: KeyOrd, T>(s: Seq<(K, T)>) -> bool {
    forall|i: int, j: int| 0 <= i < j < s.len() ==> (#[trigger] s[i]).0.key_le(&(#[trigger] s[j]).0)
}

/// Sorts `(key, item)` pairs by key; items with equal keys keep their relative order.
pub fn sort_by_key<K: KeyOrd, T>(v: Vec<(K, T)>) -> (r: Vec<(K, T)>)
    ensures
        r@.to_multiset() == v@.to_multiset(),
        r@.len() == v@.len(),
        sorted_by_key(r@),
{
    let mut src = v;
    let mut r: Vec<(K, T)> = Vec::new();
    while src.len() > 0
        invariant
            r@.to_multiset().add(src@.to_multiset()) == v@.to_multiset(),
            sorted_by_key(r@),
        decreases src@.len(),
    {
        let ghost before = src@;
        let x = src.pop().unwrap();
        proof {
            assert(before =~= src@.push(x));
        }
        // first position whose key is not strictly below x's key
        let mut p: usize = 0;
        while p < r.len() && !x.0.le(&r[p].0)
            invariant
                p <= r@.len(),
                forall|j: int| 0 <= j < p ==> (#[trigger] r@[j]).0.key_le(&x.0),
            decreases r@.len() - p,
        {
            proof {
                K::lemma_total(&x.0, &r@[p as int].0);
            }
            p += 1;
        }
        let ghost old_r = r@;
        assert(p == old_r.len() || x.0.key_le(&old_r[p as int].0));
        r.insert(p, x);
        proof {
            assert forall|i: int, j: int| 0 <= i < j < r@.len() implies (#[trigger] r@[i]).0.key_le(
                &(#[trigger] r@[j]).0,
            ) by {
                if i < p && j == p {
                } else if i < p && j > p {
                    assert(r@[j] == old_r[j - 1]);
                } else if i == p && j > p {
                    assert(r@[j] == old_r[j - 1]);
                    if p as int != j - 1 {
                        assert(old_r[p as int].0.key_le(&old_r[j - 1].0));
                    } else {
                        K::lemma_total(&old_r[p as int].0, &old_r[p as int].0);
                    }
                    K::lemma_trans(&x.0, &old_r[p as int].0, &old_r[j - 1].0);
                } else if i > p {
                    assert(r@[i] == old_r[i - 1]);
                    assert(r@[j] == old_r[j - 1]);
                }
            }
            vstd::seq_lib::to_multiset_insert(old_r, p as int, x);
        }
    }
    proof {
        assert(src@.to_multiset() =~= Multiset::empty());
        assert(r@.to_multiset().add(Multiset::empty()) =~= r@.to_multiset());
        assert(r@.to_multiset().len() == v@.to_multiset().len());
    }
    r
}

/// Equal multisets stay equal under a mapping of their elements.
pub proof fn lemma_multiset_map<A, B>(a: Seq<A>, b: Seq<A>, f: spec_fn(A) -> B)
    requires
        a.to_multiset() == b.to_multiset(),
    ensures
        a.map_values(f).to_multiset() == b.map_values(f).to_multiset(),
    decreases a.len(),
{
    if a.len() == 0 {
        assert(b.to_multiset().len() == 0);
        assert(b.len() == 0);
        assert(a.map_values(f) =~= b.map_values(f));
    } else {
        let x = a.last();
        let a0 = a.drop_last();
        assert(a =~= a0.push(x));
        assert(a.to_multiset().count(x) > 0);
        assert(b.to_multiset().count(x) > 0);
        assert(b.contains(x));
        let j = choose|j: int| 0 <= j < b.len() && b[j] == x;
        let b0 = b.remove(j);
        vstd::seq_lib::to_multiset_remove(b, j);
        assert(a0.to_multiset() =~= b0.to_multiset());
        lemma_multiset_map(a0, b0, f);
        assert(a.map_values(f) =~= a0.map_values(f).push(f(x)));
        assert(b.map_values(f).remove(j) =~= b0.map_values(f));
        vstd::seq_lib::to_multiset_remove(b.map_values(f), j);
        assert(b.map_values(f)[j] == f(x));
        assert(b.map_values(f).to_multiset().count(f(x)) > 0) by {
            assert(b.map_values(f).contains(f(x)));
        }
        assert(b.map_values(f).to_multiset() =~= b0.map_values(f).to_multiset().insert(f(x)));
    }
}

/// A property of every element carries over to a sequence with the same multiset.
pub proof fn lemma_multiset_forall<A>(a: Seq<A>, b: Seq<A>, p: spec_fn(A) -> bool)
    requires
        a.to_multiset() == b.to_multiset(),
        forall|i: int| 0 <= i < b.len() ==> #[trigger] p(b[i]),
    ensures
        forall|i: int| 0 <= i < a.len() ==> #[trigger] p(a[i]),
{
    assert forall|i: int| 0 <= i < a.len() implies #[trigger] p(a[i]) by {
        assert(a.contains(a[i]));
        assert(a.to_multiset().count(a[i]) > 0);
        assert(b.to_multiset().count(a[i]) > 0);
        assert(b.contains(a[i]));
        let j = choose|j: int| 0 <= j < b.len() && b[j] == a[i];
        assert(p(b[j]));
    }
}

/// Sorts items by keys that were computed from them with `key`; returns the items alone.
pub fn sort_by_spec_key<K: KeyOrd, T>(keyed: Vec<(K, T)>, Ghost(key): Ghost<spec_fn(T) -> K>) -> (r: Vec<T>)
    requires
        forall|i: int| 0 <= i < keyed@.len() ==> #[trigger] keyed@[i].0 == key(keyed@[i].1),
    ensures
        r@.to_multiset() == keyed@.map_values(|p: (K, T)| p.1).to_multiset(),
        r@.len() == keyed@.len(),
        forall|i: int, j: int| 0 <= i < j < r@.len() ==> key(#[trigger] r@[i]).key_le(&key(#[trigger] r@[j])),
{
    let ghost k0 = keyed@;
    let sorted = sort_by_key(keyed);
    let ghost sv = sorted@;
    proof {
        lemma_multiset_forall(sv, k0, |p: (K, T)| p.0 == key(p.1));
        lemma_multiset_map(sv, k0, |p: (K, T)| p.1);
    }
    let mut src = sorted;
    let mut rev: Vec<T> = Vec::new();
    while src.len() > 0
        invariant
            src@.len() + rev@.len() == sv.len(),
            src@ == sv.take(src@.len() as int),
            forall|i: int| 0 <= i < rev@.len() ==> #[trigger] rev@[i] == sv[sv.len() - 1 - i].1,
        decreases src@.len(),
    {
        let ghost n = src@.len();
        let x = src.pop().unwrap();
        proof {
            assert(sv.take(n as int)[n - 1] == x);
            assert(src@ =~= sv.take(n - 1));
        }
        rev.push(x.1);
    }
    let mut r: Vec<T> = Vec::new();
    while rev.len() > 0
        invariant
            rev@.len() + r@.len() == sv.len(),
            forall|i: int| 0 <= i < rev@.len() ==> #[trigger] rev@[i] == sv[sv.len() - 1 - i].1,
            r@ == sv.take(r@.len() as int).map_values(|p: (K, T)| p.1),
        decreases rev@.len(),
    {
        let ghost n = r@.len();
        let x = rev.pop().unwrap();
        proof {
            assert(x == sv[n as int].1);
        }
        r.push(x);
        proof {
            assert(sv.take(n as int + 1) =~= sv.take(n as int).push(sv[n as int]));
            assert(r@ =~= sv.take(r@.len() as int).map_values(|p: (K, T)| p.1));
        }
    }
    proof {
        assert(sv.take(sv.len() as int) =~= sv);
        assert forall|i: int, j: int| 0 <= i < j < r@.len() implies key(#[trigger] r@[i]).key_le(
            &key(#[trigger] r@[j]),
        ) by {
            assert(r@[i] == sv[i].1);
            assert(r@[j] == sv[j].1);
            assert((|p: (K, T)| p.0 == key(p.1))(sv[i]));
            assert((|p: (K, T)| p.0 == key(p.1))(sv[j]));
        }
        assert(r@.to_multiset().len() == r@.len());
    }
    r
}


/// Every earlier string is at most every later one, character by character.
pub open spec fn sorted_strs(s: Seq<Seq<char>>) -> bool {
    forall|i: int, j: int| 0 <= i < j < s.len() ==> chars_le(#[trigger] s[i], #[trigger] s[j])
}

/// `r` holds the strings of `items`, each as often, in sorted order.
pub open spec fn sorted_perm(r: Seq<Seq<char>>, items: Seq<Seq<char>>) -> bool {
    r.to_multiset() == items.to_multiset() && sorted_strs(r)
}

/// The strings of `items`, each as often, in sorted order (there is exactly one such sequence).
pub open spec fn sorted_of(items: Seq<Seq<char>>) -> Seq<Seq<char>> {
    choose|r: Seq<Seq<char>>| sorted_perm(r, items)
}

/// A sorted sequence starts with an element at most every element of the sequence.
proof fn lemma_first_is_least(a: Seq<Seq<char>>, x: Seq<char>)
    requires
        sorted_strs(a),
        a.len() > 0,
        a.contains(x),
    ensures
        chars_le(a[0], x),
{
    let j = choose|j: int| 0 <= j < a.len() && a[j] == x;
    if j > 0 {
        assert(chars_le(a[0], a[j]));
    } else {
        lemma_chars_le_total(a[0], a[0]);
    }
}

/// Two sorted sequences with the same elements, each as often, are equal: sorting gives one
/// answer.
pub proof fn lemma_sorted_perm_unique(a: Seq<Seq<char>>, b: Seq<Seq<char>>, items: Seq<Seq<char>>)
    requires
        sorted_perm(a, items),
        sorted_perm(b, items),
    ensures
        a == b,
    decreases a.len(),
{
    assert(a.to_multiset().len() == a.len());
    assert(b.to_multiset().len() == b.len());
    if a.len() > 0 {
        assert(a.to_multiset().count(a[0]) > 0);
        assert(b.to_multiset().count(a[0]) > 0);
        assert(a.to_multiset().count(b[0]) > 0);
        lemma_first_is_least(a, b[0]);
        lemma_first_is_least(b, a[0]);
        lemma_chars_le_antisym(a[0], b[0]);
        let a1 = a.drop_first();
        let b1 = b.drop_first();
        vstd::seq_lib::to_multiset_remove(a, 0);
        vstd::seq_lib::to_multiset_remove(b, 0);
        assert(a.remove(0) =~= a1);
        assert(b.remove(0) =~= b1);
        assert(sorted_strs(a1)) by {
            assert forall|i: int, j: int| 0 <= i < j < a1.len() implies chars_le(#[trigger] a1[i], #[trigger] a1[j]) by {
                assert(a1[i] == a[i + 1]);
                assert(a1[j] == a[j + 1]);
            }
        }
        assert(sorted_strs(b1)) by {
            assert forall|i: int, j: int| 0 <= i < j < b1.len() implies chars_le(#[trigger] b1[i], #[trigger] b1[j]) by {
                assert(b1[i] == b[i + 1]);
                assert(b1[j] == b[j + 1]);
            }
        }
        lemma_sorted_perm_unique(a1, b1, a1);
        assert(a =~= seq![a[0]] + a1);
        assert(b =~= seq![b[0]] + b1);
    } else {
        assert(b.len() == 0);
        assert(a =~= b);
    }
}

/// A sorted sequence with the elements of `items` is the sorted sequence of `items`.
pub proof fn lemma_sorted_of(r: Seq<Seq<char>>, items: Seq<Seq<char>>)
    requires
        sorted_perm(r, items),
    ensures
        r == sorted_of(items),
{
    let s = sorted_of(items);
    assert(sorted_perm(s, items));
    lemma_sorted_perm_unique(r, s, items);
}

/// Sorts strings in lexicographic order of their characters (as `Vec<String>::sort` orders them).
pub fn sort_strings(v: Vec<String>) -> (r: Vec<String>)
    ensures
        r.deep_view().to_multiset() == v.deep_view().to_multiset(),
        r@.len() == v@.len(),
        forall|i: int, j: int| 0 <= i < j < r@.len() ==> chars_le(#[trigger] r.deep_view()[i], #[trigger] r.deep_view()[j]),
{
    let ghost v0 = v@;
    let mut keyed: Vec<(String, String)> = Vec::new();
    for s in it: v
        invariant
            v0 == it.seq(),
            keyed@.len() == it.index(),
            forall|k: int| 0 <= k < keyed@.len() ==> #[trigger] keyed@[k].0 == keyed@[k].1,
            keyed@.map_values(|p: (String, String)| p.1) == v0.take(it.index() as int),
    {
        let ghost k = it.index();
        let c = s.clone();
        let ghost before = keyed@;
        keyed.push((c, s));
        proof {
            assert(keyed@.map_values(|p: (String, String)| p.1) =~= v0.take(k + 1));
        }
    }
    proof {
        assert(v0.take(v0.len() as int) =~= v0);
    }
    let ghost kv = keyed@;
    let r = sort_by_spec_key(keyed, Ghost(|s: String| s));
    proof {
        let items = kv.map_values(|p: (String, String)| p.1);
        lemma_multiset_map(r@, items, |s: String| s@);
        assert(r.deep_view() =~= r@.map_values(|s: String| s@));
        assert(v.deep_view() =~= v0.map_values(|s: String| s@));
        assert forall|i: int, j: int| 0 <= i < j < r@.len() implies chars_le(#[trigger] r.deep_view()[i], #[trigger] r.deep_view()[j]) by {
            assert((|s: String| s)(r@[i]).key_le(&(|s: String| s)(r@[j])));
        }
    }
    r
}
} // verus!
