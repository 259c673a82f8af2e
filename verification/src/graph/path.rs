//! Shortest call paths in the name-keyed call graph.
use vstd::prelude::*;

use crate::graph::bfs::{
    image, layer, lemma_image_insert, lemma_next_reach, lemma_reach_monotone, lemma_stable, reach, Vertex,
};
use crate::graph::call_graph::{pair_succ, pair_succ_upto, CallGraph};
use crate::graph::codebase::no_file;
use crate::text::owned;

verus! {

broadcast use {vstd::seq_lib::group_seq_properties, Seq::lemma_push_to_set_commute};

/// `p` is a non-empty sequence of names, each calling the next along `pairs`.
pub open spec fn is_call_path(pairs: Seq<(Seq<char>, Seq<char>)>, p: Seq<Seq<char>>) -> bool {
    &&& p.len() >= 1
    &&& forall|i: int| 0 <= i < p.len() - 1 ==> pairs.contains((p[i], #[trigger] p[i + 1]))
}

/// `p` is a call path from `from` to `to`.
pub open spec fn path_between(pairs: Seq<(Seq<char>, Seq<char>)>, p: Seq<Seq<char>>, from: Seq<char>, to: Seq<char>) -> bool {
    is_call_path(pairs, p) && p[0] == from && p.last() == to
}

/// The step function of the name-only graph along `pairs`.
pub open spec fn pair_steps(pairs: Seq<(Seq<char>, Seq<char>)>) -> spec_fn(Vertex) -> Seq<Vertex> {
    |v: Vertex| pair_succ(pairs, v)
}

/// The vertices of a sequence of names.
pub open spec fn vset(s: Seq<Seq<char>>) -> Set<Vertex> {
    s.map_values(|n: Seq<char>| (n, no_file())).to_set()
}

/// A name's vertex is in `vset(s)` exactly when the name is in `s`.
pub proof fn lemma_vset_contains(s: Seq<Seq<char>>, n: Seq<char>)
    ensures
        vset(s).contains((n, no_file())) <==> s.contains(n),
{
    let m = s.map_values(|x: Seq<char>| (x, no_file()));
    if s.contains(n) {
        let k = choose|k: int| 0 <= k < s.len() && s[k] == n;
        assert(m[k] == (n, no_file()));
    }
    if vset(s).contains((n, no_file())) {
        let k = choose|k: int| 0 <= k < m.len() && m[k] == (n, no_file());
        assert(s[k] == n);
    }
}

proof fn lemma_pair_in_succ_upto(pairs: Seq<(Seq<char>, Seq<char>)>, a: Seq<char>, b: Seq<char>, k: int, i: int)
    requires
        0 <= i < k <= pairs.len(),
        pairs[i] == (a, b),
    ensures
        pair_succ_upto(pairs, a, k).contains((b, no_file())),
    decreases k,
{
    if i < k - 1 {
        lemma_pair_in_succ_upto(pairs, a, b, k - 1, i);
        let rest = pair_succ_upto(pairs, a, k - 1);
        let j = choose|j: int| 0 <= j < rest.len() && rest[j] == (b, no_file());
        if pairs[k - 1].0 == a {
            assert(rest.push((pairs[k - 1].1, no_file()))[j] == (b, no_file()));
        }
    } else {
        let rest = pair_succ_upto(pairs, a, k - 1);
        assert(rest.push((b, no_file()))[rest.len() as int] == (b, no_file()));
    }
}

/// A pair is a step of the graph.
pub proof fn lemma_pair_is_step(pairs: Seq<(Seq<char>, Seq<char>)>, a: Seq<char>, b: Seq<char>)
    requires
        pairs.contains((a, b)),
    ensures
        pair_steps(pairs)((a, no_file())).contains((b, no_file())),
{
    let i = choose|i: int| 0 <= i < pairs.len() && pairs[i] == (a, b);
    lemma_pair_in_succ_upto(pairs, a, b, pairs.len() as int, i);
}

/// A call path of `k` calls ends within `k` steps of its start.
pub proof fn lemma_path_in_reach(pairs: Seq<(Seq<char>, Seq<char>)>, q: Seq<Seq<char>>)
    requires
        is_call_path(pairs, q),
    ensures
        reach(pair_steps(pairs), (q[0], no_file()), (q.len() - 1) as nat).contains((q.last(), no_file())),
    decreases q.len(),
{
    let f = pair_steps(pairs);
    if q.len() == 1 {
    } else {
        let q0 = q.drop_last();
        assert forall|i: int| 0 <= i < q0.len() - 1 implies pairs.contains((q0[i], #[trigger] q0[i + 1])) by {
            assert(q0[i + 1] == q[i + 1]);
        }
        lemma_path_in_reach(pairs, q0);
        let r0 = reach(f, (q[0], no_file()), (q.len() - 2) as nat);
        assert(r0.contains((q0.last(), no_file())));
        assert(pairs.contains((q[q.len() - 2], q[q.len() - 2 + 1])));
        lemma_pair_is_step(pairs, q[q.len() - 2], q.last());
        assert(image(f, r0).contains((q.last(), no_file())));
    }
}

/// Some pair calls `x`.
pub open spec fn is_callee(pairs: Seq<(Seq<char>, Seq<char>)>, x: Seq<char>) -> bool {
    exists|i: int| 0 <= i < pairs.len() && #[trigger] pairs[i].1 == x
}

/// A sequence of distinct names, all but the first drawn from the callees of `pairs`, is no
/// longer than one more than the number of pairs.
proof fn lemma_distinct_bound(order: Seq<Seq<char>>, pairs: Seq<(Seq<char>, Seq<char>)>)
    requires
        order.len() >= 1,
        order.no_duplicates(),
        forall|k: int| 1 <= k < order.len() ==> is_callee(pairs, #[trigger] order[k]),
    ensures
        order.len() <= pairs.len() + 1,
{
    let rest = order.drop_first();
    let targets = pairs.map_values(|p: (Seq<char>, Seq<char>)| p.1);
    assert(rest.no_duplicates());
    rest.unique_seq_to_set();
    targets.lemma_cardinality_of_set();
    assert forall|x: Seq<char>| rest.to_set().contains(x) implies targets.to_set().contains(x) by {
        let k = choose|k: int| 0 <= k < rest.len() && rest[k] == x;
        assert(order[k + 1] == x);
        assert(is_callee(pairs, order[k + 1]));
        let i = choose|i: int| 0 <= i < pairs.len() && #[trigger] pairs[i].1 == order[k + 1];
        assert(targets[i] == x);
    }
    vstd::seq_lib::seq_to_set_is_finite(targets);
    vstd::set_lib::lemma_len_subset(rest.to_set(), targets.to_set());
}

/// Is `name` among `names`?
fn find_name(names: &Vec<String>, name: &String) -> (r: bool)
    ensures
        r == names.deep_view().contains(name@),
{
    let mut i: usize = 0;
    while i < names.len()
        invariant
            i <= names@.len(),
            forall|j: int| 0 <= j < i ==> names.deep_view()[j] != name@,
        decreases names@.len() - i,
    {
        if names[i] == *name {
            assert(names.deep_view()[i as int] == name@);
            return true;
        }
        i += 1;
    }
    false
}

/// The search tree a breadth-first search builds: distinct names, each after the first linked
/// to the earlier name that calls it, one level deeper.
#[verifier::opaque]
pub open spec fn tree_ok(
    pairs: Seq<(Seq<char>, Seq<char>)>,
    order: Seq<Seq<char>>,
    parent: Seq<usize>,
    level: Seq<usize>,
) -> bool {
    &&& order.len() >= 1
    &&& parent.len() == order.len()
    &&& level.len() == order.len()
    &&& order.no_duplicates()
    &&& level[0] == 0
    &&& forall|k: int| 1 <= k < order.len() ==> #[trigger] parent[k] < k
    &&& forall|k: int| 1 <= k < order.len() ==> pairs.contains((order[parent[k] as int], #[trigger] order[k]))
    &&& forall|k: int| 1 <= k < order.len() ==> #[trigger] level[k] == level[parent[k] as int] + 1
    &&& forall|k: int| 0 <= k < order.len() ==> #[trigger] level[k] <= k
}

/// `a` is a prefix of `b`.
pub open spec fn prefix_of<A>(a: Seq<A>, b: Seq<A>) -> bool {
    a.len() <= b.len() && forall|k: int| 0 <= k < a.len() ==> #[trigger] b[k] == a[k]
}

/// Appending a name adds its vertex.
proof fn lemma_vset_push(s: Seq<Seq<char>>, n: Seq<char>)
    ensures
        vset(s.push(n)) == vset(s).insert((n, no_file())),
{
    assert(s.push(n).map_values(|x: Seq<char>| (x, no_file())) =~= s.map_values(|x: Seq<char>| (x, no_file())).push(
        (n, no_file()),
    ));
}

/// The vertices of a tree's names are those of its prefix and of its suffix.
proof fn lemma_vset_split(ov: Seq<Seq<char>>, hi: int, w: Vertex)
    requires
        0 <= hi <= ov.len(),
    ensures
        vset(ov).contains(w) <==> (vset(ov.subrange(0, hi)).contains(w) || vset(ov.subrange(hi, ov.len() as int)).contains(w)),
{
    let nm = |n: Seq<char>| (n, no_file());
    let older = ov.subrange(0, hi);
    let newer = ov.subrange(hi, ov.len() as int);
    if vset(ov).contains(w) {
        let k = choose|k: int| 0 <= k < ov.len() && ov.map_values(nm)[k] == w;
        if k < hi {
            assert(older.map_values(nm)[k] == w);
        } else {
            assert(newer.map_values(nm)[k - hi] == w);
        }
    }
    if vset(older).contains(w) {
        let k = choose|k: int| 0 <= k < older.len() && older.map_values(nm)[k] == w;
        assert(ov.map_values(nm)[k] == w);
    }
    if vset(newer).contains(w) {
        let k = choose|k: int| 0 <= k < newer.len() && newer.map_values(nm)[k] == w;
        assert(ov.map_values(nm)[hi + k] == w);
    }
}

/// Once a level is expanded, the names it added are exactly the next layer.
proof fn lemma_new_layer(f: spec_fn(Vertex) -> Seq<Vertex>, s: Vertex, d: nat, ov: Seq<Seq<char>>, hi: int)
    requires
        0 <= hi <= ov.len(),
        ov.no_duplicates(),
        vset(ov) == reach(f, s, d + 1),
        vset(ov.subrange(0, hi)) == reach(f, s, d),
    ensures
        vset(ov.subrange(hi, ov.len() as int)) == layer(f, s, d + 1),
{
    let nm = |n: Seq<char>| (n, no_file());
    let older = ov.subrange(0, hi);
    let newer = ov.subrange(hi, ov.len() as int);
    assert forall|w: Vertex| vset(newer).contains(w) <==> layer(f, s, d + 1).contains(w) by {
        lemma_vset_split(ov, hi, w);
        if vset(newer).contains(w) && vset(older).contains(w) {
            let k = choose|k: int| 0 <= k < newer.len() && newer.map_values(nm)[k] == w;
            let k2 = choose|k2: int| 0 <= k2 < older.len() && older.map_values(nm)[k2] == w;
            assert(ov[k2] == ov[hi + k]);
        }
    }
    assert(vset(newer) =~= layer(f, s, d + 1));
}

/// A search tree holds at most one name more than there are pairs.
proof fn lemma_tree_bound(pairs: Seq<(Seq<char>, Seq<char>)>, ov: Seq<Seq<char>>, parent: Seq<usize>, level: Seq<usize>)
    requires
        tree_ok(pairs, ov, parent, level),
    ensures
        ov.len() <= pairs.len() + 1,
{
    reveal(tree_ok);
    assert forall|k: int| 1 <= k < ov.len() implies is_callee(pairs, #[trigger] ov[k]) by {
        assert(pairs.contains((ov[parent[k] as int], ov[k])));
        let i = choose|i: int| 0 <= i < pairs.len() && pairs[i] == (ov[parent[k] as int], ov[k]);
        assert(pairs[i].1 == ov[k]);
    }
    lemma_distinct_bound(ov, pairs);
}

/// The tree of the start name alone.
proof fn lemma_tree_single(pairs: Seq<(Seq<char>, Seq<char>)>, n: Seq<char>)
    ensures
        tree_ok(pairs, seq![n], seq![0usize], seq![0usize]),
{
    reveal(tree_ok);
}

/// Adding a callee of `order[idx]` that the tree lacks, one level below it, keeps a tree.
proof fn lemma_tree_push(
    pairs: Seq<(Seq<char>, Seq<char>)>,
    order: Seq<Seq<char>>,
    parent: Seq<usize>,
    level: Seq<usize>,
    idx: usize,
    c: Seq<char>,
    lv: usize,
)
    requires
        tree_ok(pairs, order, parent, level),
        idx < order.len(),
        pairs.contains((order[idx as int], c)),
        !order.contains(c),
        lv == level[idx as int] + 1,
    ensures
        tree_ok(pairs, order.push(c), parent.push(idx), level.push(lv)),
        level.len() == order.len(),
        parent.len() == order.len(),
{
    reveal(tree_ok);
    let o2 = order.push(c);
    let p2 = parent.push(idx);
    let l2 = level.push(lv);
    assert forall|k: int| 1 <= k < o2.len() implies pairs.contains((o2[p2[k] as int], #[trigger] o2[k])) by {
        if k < order.len() {
            assert(p2[k] == parent[k]);
            assert(o2[parent[k] as int] == order[parent[k] as int]);
        }
    }
    assert forall|k: int| 1 <= k < o2.len() implies #[trigger] l2[k] == l2[p2[k] as int] + 1 by {
        if k < order.len() {
            assert(p2[k] == parent[k]);
            assert(l2[parent[k] as int] == level[parent[k] as int]);
        }
    }
    assert forall|k: int| 0 <= k < o2.len() implies #[trigger] l2[k] <= k by {
        if k == order.len() {
            assert(level[idx as int] <= idx);
        }
    }
}

/// The shape facts of a tree.
proof fn lemma_tree_shape(pairs: Seq<(Seq<char>, Seq<char>)>, order: Seq<Seq<char>>, parent: Seq<usize>, level: Seq<usize>)
    requires
        tree_ok(pairs, order, parent, level),
    ensures
        order.len() >= 1,
        level.len() == order.len(),
        parent.len() == order.len(),
        order.no_duplicates(),
{
    reveal(tree_ok);
}

/// The names of `v` in reverse order.
fn reversed(v: &Vec<String>) -> (r: Vec<String>)
    ensures
        r.deep_view() == v.deep_view().reverse(),
{
    let n = v.len();
    let mut r: Vec<String> = Vec::new();
    let mut i: usize = 0;
    while i < n
        invariant
            n == v@.len(),
            i <= n,
            r@.len() == i,
            forall|k: int| 0 <= k < i ==> #[trigger] r.deep_view()[k] == v.deep_view()[n - 1 - k],
        decreases n - i,
    {
        let ghost old_r = r.deep_view();
        r.push(v[n - 1 - i].clone());
        proof {
            assert(r.deep_view() =~= old_r.push(v.deep_view()[n - 1 - i]));
        }
        i += 1;
    }
    assert(r.deep_view() =~= v.deep_view().reverse());
    r
}

/// A chain read backwards, each name called by the next, is a call path once reversed.
proof fn lemma_reverse_chain(pairs: Seq<(Seq<char>, Seq<char>)>, rv: Seq<Seq<char>>)
    requires
        rv.len() >= 1,
        forall|i: int| 0 <= i < rv.len() - 1 ==> pairs.contains((#[trigger] rv[i + 1], rv[i])),
    ensures
        is_call_path(pairs, rv.reverse()),
        rv.reverse()[0] == rv.last(),
        rv.reverse().last() == rv[0],
{
    let n = rv.len() as int;
    let pv = rv.reverse();
    assert forall|k: int| 0 <= k < pv.len() - 1 implies pairs.contains((pv[k], #[trigger] pv[k + 1])) by {
        assert(pv[k] == rv[n - 1 - k]);
        assert(pv[k + 1] == rv[n - 1 - (k + 1)]);
        assert(rv[(n - 2 - k) + 1] == rv[n - 1 - k]);
    }
}

/// Follows parent links from `end` back to the first name; returns the path in calling order.
fn build_path(
    order: &Vec<String>,
    parent: &Vec<usize>,
    level: &Vec<usize>,
    end: usize,
    Ghost(pairs): Ghost<Seq<(Seq<char>, Seq<char>)>>,
) -> (p: Vec<String>)
    requires
        end < order@.len(),
        tree_ok(pairs, order.deep_view(), parent@, level@),
    ensures
        path_between(pairs, p.deep_view(), order.deep_view()[0], order.deep_view()[end as int]),
        p@.len() == level@[end as int] + 1,
{
    let ghost ov = order.deep_view();
    proof {
        reveal(tree_ok);
    }
    let mut rev: Vec<String> = Vec::new();
    rev.push(order[end].clone());
    let mut cur = end;
    proof {
        assert(rev.deep_view()[0] == ov[end as int]);
    }
    while cur != 0
        invariant
            ov == order.deep_view(),
            cur < order@.len(),
            tree_ok(pairs, ov, parent@, level@),
            rev@.len() == level@[end as int] - level@[cur as int] + 1,
            rev@.len() >= 1,
            rev.deep_view()[0] == ov[end as int],
            rev.deep_view().last() == ov[cur as int],
            forall|i: int| 0 <= i < rev@.len() - 1 ==> pairs.contains((#[trigger] rev.deep_view()[i + 1], rev.deep_view()[i])),
        decreases cur,
    {
        let ghost old_rev = rev.deep_view();
        let ghost c0 = cur;
        proof {
            reveal(tree_ok);
        }
        cur = parent[cur];
        rev.push(order[cur].clone());
        proof {
            assert(rev.deep_view() =~= old_rev.push(ov[cur as int]));
            assert forall|i: int| 0 <= i < rev@.len() - 1 implies pairs.contains((#[trigger] rev.deep_view()[i + 1], rev.deep_view()[i])) by {
                if i == rev@.len() - 2 {
                    assert(rev.deep_view()[i] == ov[c0 as int]);
                } else {
                    assert(rev.deep_view()[i] == old_rev[i]);
                }
            }
        }
    }
    proof {
        reveal(tree_ok);
        lemma_reverse_chain(pairs, rev.deep_view());
    }
    reversed(&rev)
}

/// One more pair adds its callee to the successors of its caller.
proof fn lemma_succ_upto_step(pairs: Seq<(Seq<char>, Seq<char>)>, key: Seq<char>, j: int)
    requires
        0 <= j < pairs.len(),
    ensures
        pairs[j].0 == key ==> pair_succ_upto(pairs, key, j + 1).to_set() == pair_succ_upto(pairs, key, j).to_set().insert(
            (pairs[j].1, no_file()),
        ),
        pairs[j].0 != key ==> pair_succ_upto(pairs, key, j + 1) == pair_succ_upto(pairs, key, j),
{
}

/// What holds while `expand` walks the pairs of `order[idx]`: the tree grew from `o0` by callees
/// of `o0[idx]` met among the first `j` pairs, all one level below it, none of them `target`.
#[verifier::opaque]
spec fn expand_inv(
    pv: Seq<(Seq<char>, Seq<char>)>,
    o0: Seq<Seq<char>>,
    l0: Seq<usize>,
    idx: usize,
    target: Seq<char>,
    j: int,
    ov: Seq<Seq<char>>,
    par: Seq<usize>,
    lev: Seq<usize>,
) -> bool {
    &&& 0 <= idx < o0.len()
    &&& l0.len() == o0.len()
    &&& 0 <= j <= pv.len()
    &&& tree_ok(pv, ov, par, lev)
    &&& lev.len() == ov.len()
    &&& par.len() == ov.len()
    &&& prefix_of(o0, ov)
    &&& prefix_of(l0, lev)
    &&& forall|k: int| o0.len() <= k < ov.len() ==> #[trigger] lev[k] == l0[idx as int] + 1
    &&& !ov.contains(target)
    &&& vset(ov) == vset(o0).union(pair_succ_upto(pv, o0[idx as int], j).to_set())
}

proof fn lemma_expand_start(
    pv: Seq<(Seq<char>, Seq<char>)>,
    o0: Seq<Seq<char>>,
    p0: Seq<usize>,
    l0: Seq<usize>,
    idx: usize,
    target: Seq<char>,
)
    requires
        0 <= idx < o0.len(),
        tree_ok(pv, o0, p0, l0),
        !o0.contains(target),
    ensures
        expand_inv(pv, o0, l0, idx, target, 0, o0, p0, l0),
{
    reveal(expand_inv);
    lemma_tree_shape(pv, o0, p0, l0);
    assert(vset(o0) =~= vset(o0).union(pair_succ_upto(pv, o0[idx as int], 0).to_set()));
}

proof fn lemma_expand_facts(
    pv: Seq<(Seq<char>, Seq<char>)>,
    o0: Seq<Seq<char>>,
    l0: Seq<usize>,
    idx: usize,
    target: Seq<char>,
    j: int,
    ov: Seq<Seq<char>>,
    par: Seq<usize>,
    lev: Seq<usize>,
)
    requires
        expand_inv(pv, o0, l0, idx, target, j, ov, par, lev),
    ensures
        0 <= idx < o0.len() <= ov.len(),
        0 <= j <= pv.len(),
        ov[idx as int] == o0[idx as int],
        lev.len() == ov.len(),
        lev[idx as int] <= idx,
        tree_ok(pv, ov, par, lev),
        prefix_of(o0, ov),
        prefix_of(l0, lev),
        forall|k: int| o0.len() <= k < ov.len() ==> #[trigger] lev[k] == l0[idx as int] + 1,
        !ov.contains(target),
        vset(ov) == vset(o0).union(pair_succ_upto(pv, o0[idx as int], j).to_set()),
{
    reveal(expand_inv);
    reveal(tree_ok);
}

/// A pair that is not a call of `o0[idx as int]`, or whose callee the tree holds, changes nothing.
proof fn lemma_expand_skip(
    pv: Seq<(Seq<char>, Seq<char>)>,
    o0: Seq<Seq<char>>,
    l0: Seq<usize>,
    idx: usize,
    target: Seq<char>,
    j: int,
    ov: Seq<Seq<char>>,
    par: Seq<usize>,
    lev: Seq<usize>,
)
    requires
        expand_inv(pv, o0, l0, idx, target, j, ov, par, lev),
        j < pv.len(),
        pv[j].0 != o0[idx as int] || ov.contains(pv[j].1),
    ensures
        expand_inv(pv, o0, l0, idx, target, j + 1, ov, par, lev),
{
    reveal(expand_inv);
    lemma_succ_upto_step(pv, o0[idx as int], j);
    if pv[j].0 == o0[idx as int] {
        lemma_vset_contains(ov, pv[j].1);
    }
    assert(vset(ov) =~= vset(o0).union(pair_succ_upto(pv, o0[idx as int], j + 1).to_set()));
}

/// Adding the callee of a pair of `o0[idx as int]` that the tree lacks.
proof fn lemma_expand_add(
    pv: Seq<(Seq<char>, Seq<char>)>,
    o0: Seq<Seq<char>>,
    l0: Seq<usize>,
    idx: usize,
    target: Seq<char>,
    j: int,
    ov: Seq<Seq<char>>,
    par: Seq<usize>,
    lev: Seq<usize>,
    lv: usize,
)
    requires
        expand_inv(pv, o0, l0, idx, target, j, ov, par, lev),
        j < pv.len(),
        pv[j].0 == o0[idx as int],
        !ov.contains(pv[j].1),
        lv == lev[idx as int] + 1,
    ensures
        tree_ok(pv, ov.push(pv[j].1), par.push(idx), lev.push(lv)),
        lev.push(lv).len() == ov.push(pv[j].1).len(),
        prefix_of(o0, ov.push(pv[j].1)),
        prefix_of(l0, lev.push(lv)),
        forall|k: int| o0.len() <= k < ov.len() + 1 ==> #[trigger] lev.push(lv)[k] == l0[idx as int] + 1,
        pv[j].1 != target ==> expand_inv(pv, o0, l0, idx, target, j + 1, ov.push(pv[j].1), par.push(idx), lev.push(lv)),
{
    reveal(expand_inv);
    let c = pv[j].1;
    lemma_tree_shape(pv, ov, par, lev);
    assert(ov[idx as int] == o0[idx as int]);
    assert(pv.contains((ov[idx as int], c))) by {
        assert(pv[j] == (ov[idx as int], c));
    }
    lemma_tree_push(pv, ov, par, lev, idx, c, lv);
    let o2 = ov.push(c);
    let l2 = lev.push(lv);
    assert(lev[idx as int] == l0[idx as int]);
    assert forall|k: int| o0.len() <= k < ov.len() + 1 implies #[trigger] l2[k] == l0[idx as int] + 1 by {
        if k < ov.len() {
            assert(l2[k] == lev[k]);
        }
    }
    if c != target {
        lemma_succ_upto_step(pv, o0[idx as int], j);
        lemma_vset_push(ov, c);
        assert(vset(o2) =~= vset(o0).union(pair_succ_upto(pv, o0[idx as int], j + 1).to_set()));
        assert(!o2.contains(target)) by {
            if o2.contains(target) {
                let w = choose|w: int| 0 <= w < o2.len() && o2[w] == target;
                if w < ov.len() {
                    assert(ov[w] == target);
                }
            }
        }
    }
}

/// Adds to the search tree the callees of `order[idx]` that it does not hold yet, in pair order,
/// each one level below `order[idx]`. Stops right after adding `target`, and reports its index.
fn expand(
    pairs: &Vec<(String, String)>,
    order: &mut Vec<String>,
    parent: &mut Vec<usize>,
    level: &mut Vec<usize>,
    idx: usize,
    target: &String,
) -> (found: Option<usize>)
    requires
        idx < old(order)@.len(),
        tree_ok(pairs.deep_view(), old(order).deep_view(), old(parent)@, old(level)@),
        !old(order).deep_view().contains(target@),
    ensures
        tree_ok(pairs.deep_view(), final(order).deep_view(), final(parent)@, final(level)@),
        final(level)@.len() == final(order)@.len(),
        prefix_of(old(order).deep_view(), final(order).deep_view()),
        prefix_of(old(level)@, final(level)@),
        forall|k: int| old(order)@.len() <= k < final(order)@.len() ==> #[trigger] final(level)@[k] == old(level)@[idx as int] + 1,
        match found {
            Some(k) => {
                &&& k == final(order)@.len() - 1
                &&& final(order).deep_view()[k as int] == target@
            },
            None => {
                &&& !final(order).deep_view().contains(target@)
                &&& vset(final(order).deep_view()) == vset(old(order).deep_view()).union(
                    pair_succ(pairs.deep_view(), (old(order).deep_view()[idx as int], no_file())).to_set(),
                )
            },
        },
{
    let ghost pv = pairs.deep_view();
    let ghost o0 = order.deep_view();
    let ghost l0 = level@;
    let ghost t = target@;
    let n = order.len();
    proof {
        lemma_expand_start(pv, o0, parent@, l0, idx, t);
    }
    let mut j: usize = 0;
    while j < pairs.len()
        invariant
            pv == pairs.deep_view(),
            t == target@,
            n == o0.len(),
            o0 == old(order).deep_view(),
            l0 == old(level)@,
            expand_inv(pv, o0, l0, idx, t, j as int, order.deep_view(), parent@, level@),
        decreases pv.len() - j,
    {
        let ghost ov = order.deep_view();
        let ghost pb = parent@;
        let ghost lb = level@;
        proof {
            lemma_expand_facts(pv, o0, l0, idx, t, j as int, ov, pb, lb);
        }
        if pairs[j].0 == order[idx] && !find_name(order, &pairs[j].1) {
            let c = pairs[j].1.clone();
            let is_target = c == *target;
            let lv = level[idx] + 1;
            proof {
                lemma_expand_add(pv, o0, l0, idx, t, j as int, ov, pb, lb, lv);
            }
            order.push(c);
            parent.push(idx);
            level.push(lv);
            proof {
                assert(order.deep_view() =~= ov.push(pv[j as int].1));
            }
            if is_target {
                return Some(order.len() - 1);
            }
        } else {
            proof {
                lemma_expand_skip(pv, o0, l0, idx, t, j as int, ov, pb, lb);
            }
        }
        j += 1;
    }
    proof {
        lemma_expand_facts(pv, o0, l0, idx, t, j as int, order.deep_view(), parent@, level@);
    }
    None
}

/// Invariant bookkeeping after one call of `expand` on `order[idx]` that did not meet the target.
proof fn lemma_expanded(
    f: spec_fn(Vertex) -> Seq<Vertex>,
    pairs: Seq<(Seq<char>, Seq<char>)>,
    reach_d: Set<Vertex>,
    before: Seq<Seq<char>>,
    ov: Seq<Seq<char>>,
    lo: int,
    idx: int,
)
    requires
        f == pair_steps(pairs),
        0 <= lo <= idx < before.len(),
        prefix_of(before, ov),
        vset(before) == reach_d.union(image(f, vset(before.subrange(lo, idx)))),
        vset(ov) == vset(before).union(pair_succ(pairs, (before[idx], no_file())).to_set()),
    ensures
        vset(ov) == reach_d.union(image(f, vset(ov.subrange(lo, idx + 1)))),
{
    let cv = (before[idx], no_file());
    let done = vset(before.subrange(lo, idx));
    assert(ov.subrange(lo, idx + 1) =~= before.subrange(lo, idx).push(before[idx]));
    lemma_vset_push(before.subrange(lo, idx), before[idx]);
    lemma_image_insert(f, done, cv);
    assert(f(cv) == pair_succ(pairs, cv));
    assert(vset(ov) =~= reach_d.union(image(f, vset(ov.subrange(lo, idx + 1)))));
}

/// A path found at level `d + 1` is no longer than any other path between the same names.
proof fn lemma_found_shortest(
    f: spec_fn(Vertex) -> Seq<Vertex>,
    pairs: Seq<(Seq<char>, Seq<char>)>,
    s: Vertex,
    from: Seq<char>,
    to: Seq<char>,
    d: nat,
    older: Seq<Seq<char>>,
)
    requires
        f == pair_steps(pairs),
        s == (from, no_file()),
        vset(older) == reach(f, s, d),
        !older.contains(to),
    ensures
        forall|q: Seq<Seq<char>>| path_between(pairs, q, from, to) ==> d + 2 <= q.len(),
{
    assert forall|q: Seq<Seq<char>>| path_between(pairs, q, from, to) implies d + 2 <= q.len() by {
        lemma_path_in_reach(pairs, q);
        if q.len() - 1 <= d {
            lemma_reach_monotone(f, s, (q.len() - 1) as nat, d);
            lemma_vset_contains(older, to);
        }
    }
}

/// When the search ends with nothing left to expand and the target unseen, no path exists.
proof fn lemma_unreachable(
    f: spec_fn(Vertex) -> Seq<Vertex>,
    pairs: Seq<(Seq<char>, Seq<char>)>,
    s: Vertex,
    from: Seq<char>,
    to: Seq<char>,
    d: nat,
    ov: Seq<Seq<char>>,
)
    requires
        f == pair_steps(pairs),
        s == (from, no_file()),
        vset(ov) == reach(f, s, d),
        layer(f, s, d).is_empty(),
        !ov.contains(to),
    ensures
        forall|q: Seq<Seq<char>>| !path_between(pairs, q, from, to),
{
    assert forall|q: Seq<Seq<char>>| !path_between(pairs, q, from, to) by {
        if path_between(pairs, q, from, to) {
            lemma_path_in_reach(pairs, q);
            let k = (q.len() - 1) as nat;
            if k <= d {
                lemma_reach_monotone(f, s, k, d);
            } else {
                lemma_stable(f, s, d, k);
            }
            lemma_vset_contains(ov, to);
        }
    }
}

impl CallGraph {
    /// A shortest call path from `from` to `to` along the callee edges, or `None` when `to`
    /// cannot be reached from `from`.
    pub fn find_path(&self, from: &str, to: &str) -> (r: Option<Vec<String>>)
        ensures
            match r {
                Some(p) => {
                    &&& path_between(self@.callees, p.deep_view(), from@, to@)
                    &&& forall|q: Seq<Seq<char>>| path_between(self@.callees, q, from@, to@) ==> p@.len() <= q.len()
                },
                None => forall|q: Seq<Seq<char>>| !path_between(self@.callees, q, from@, to@),
            },
    {
        let ghost pairs = self@.callees;
        let ghost f = pair_steps(pairs);
        let ghost s = (from@, no_file());
        let start = owned(from);
        let target = owned(to);
        if start == target {
            let mut p: Vec<String> = Vec::new();
            p.push(start);
            proof {
                assert(path_between(pairs, p.deep_view(), from@, to@));
            }
            return Some(p);
        }
        let mut order: Vec<String> = Vec::new();
        order.push(start);
        let mut parent: Vec<usize> = Vec::new();
        parent.push(0);
        let mut level: Vec<usize> = Vec::new();
        level.push(0);
        let mut d: usize = 0;
        let mut lo: usize = 0;
        let mut hi: usize = 1;
        proof {
            assert(order.deep_view() =~= seq![from@]);
            lemma_tree_single(pairs, from@);
            assert(parent@ =~= seq![0usize]);
            assert(level@ =~= seq![0usize]);
            assert(order.deep_view().map_values(|n: Seq<char>| (n, no_file())) =~= seq![s]);
            assert(seq![s].contains(s));
            assert(vset(order.deep_view()) =~= reach(f, s, 0));
            assert(order.deep_view().subrange(0, 1) =~= order.deep_view());
            assert(vset(order.deep_view().subrange(0, 1)) =~= layer(f, s, 0));
            assert(!order.deep_view().contains(to@)) by {
                if order.deep_view().contains(to@) {
                    assert(order.deep_view()[0] == to@);
                }
            }
        }
        while lo < hi
            invariant
                pairs == self@.callees,
                f == pair_steps(pairs),
                s == (from@, no_file()),
                target@ == to@,
                from@ != to@,
                tree_ok(pairs, order.deep_view(), parent@, level@),
                level@.len() == order@.len(),
                hi == order@.len(),
                lo <= hi,
                d <= lo,
                order.deep_view()[0] == from@,
                !order.deep_view().contains(to@),
                vset(order.deep_view()) == reach(f, s, d as nat),
                vset(order.deep_view().subrange(lo as int, hi as int)) == layer(f, s, d as nat),
                forall|k: int| lo <= k < hi ==> #[trigger] level@[k] == d,
                order@.len() <= pairs.len() + 1,
            decreases pairs.len() + 1 - lo,
        {
            let ghost reach_d = reach(f, s, d as nat);
            proof {
                lemma_next_reach(f, s, d as nat);
                assert(order.deep_view().subrange(0, hi as int) =~= order.deep_view());
                assert(order.deep_view().subrange(lo as int, lo as int) =~= Seq::<Seq<char>>::empty());
                assert(vset(Seq::<Seq<char>>::empty()) =~= Set::<Vertex>::empty());
                assert(image(f, Set::<Vertex>::empty()) =~= Set::<Vertex>::empty());
                assert(vset(order.deep_view()) =~= reach_d.union(image(f, Set::<Vertex>::empty())));
            }
            let mut idx = lo;
            while idx < hi
                invariant
                    pairs == self@.callees,
                    f == pair_steps(pairs),
                    s == (from@, no_file()),
                    target@ == to@,
                    reach_d == reach(f, s, d as nat),
                    reach(f, s, (d + 1) as nat) == reach_d.union(image(f, layer(f, s, d as nat))),
                    tree_ok(pairs, order.deep_view(), parent@, level@),
                    level@.len() == order@.len(),
                    lo <= idx <= hi,
                    hi <= order@.len(),
                    d <= lo,
                    order.deep_view()[0] == from@,
                    !order.deep_view().contains(to@),
                    vset(order.deep_view().subrange(0, hi as int)) == reach_d,
                    vset(order.deep_view().subrange(lo as int, hi as int)) == layer(f, s, d as nat),
                    vset(order.deep_view()) == reach_d.union(image(f, vset(order.deep_view().subrange(lo as int, idx as int)))),
                    forall|k: int| lo <= k < hi ==> #[trigger] level@[k] == d,
                    forall|k: int| hi <= k < order@.len() ==> #[trigger] level@[k] == d + 1,
                decreases hi - idx,
            {
                let ghost before = order.deep_view();
                let ghost lbefore = level@;
                let found = expand(&self.callees, &mut order, &mut parent, &mut level, idx, &target);
                proof {
                    let ov = order.deep_view();
                    assert(ov.subrange(0, hi as int) =~= before.subrange(0, hi as int));
                    assert(ov.subrange(lo as int, hi as int) =~= before.subrange(lo as int, hi as int));
                    assert(ov.subrange(lo as int, idx as int) =~= before.subrange(lo as int, idx as int));
                    assert(ov[0] == before[0]);
                    assert forall|k: int| lo <= k < hi implies #[trigger] level@[k] == d by {
                        assert(level@[k] == lbefore[k]);
                    }
                    assert forall|k: int| hi <= k < order@.len() implies #[trigger] level@[k] == d + 1 by {
                        if k < before.len() {
                            assert(level@[k] == lbefore[k]);
                        }
                    }
                }
                match found {
                    Some(k) => {
                        let p = build_path(&order, &parent, &level, k, Ghost(pairs));
                        proof {
                            lemma_found_shortest(f, pairs, s, from@, to@, d as nat, before.subrange(0, hi as int));
                        }
                        return Some(p);
                    },
                    None => {
                        proof {
                            lemma_expanded(f, pairs, reach_d, before, order.deep_view(), lo as int, idx as int);
                        }
                    },
                }
                idx += 1;
            }
            proof {
                let ov = order.deep_view();
                assert(ov.subrange(lo as int, hi as int) =~= ov.subrange(lo as int, idx as int));
                lemma_tree_shape(pairs, ov, parent@, level@);
                lemma_new_layer(f, s, d as nat, ov, hi as int);
                lemma_tree_bound(pairs, ov, parent@, level@);
            }
            d = d + 1;
            lo = hi;
            hi = order.len();
        }
        proof {
            assert(layer(f, s, d as nat) =~= Set::empty()) by {
                assert(order.deep_view().subrange(lo as int, hi as int) =~= Seq::<Seq<char>>::empty());
                assert(vset(Seq::<Seq<char>>::empty()) =~= Set::<Vertex>::empty());
            }
            lemma_unreachable(f, pairs, s, from@, to@, d as nat, order.deep_view());
        }
        None
    }
}

} // verus!
