//! Breadth-first traversal over a graph given by a successor function, with its
//! reachability specification.
use vstd::prelude::*;

verus! {

broadcast use {vstd::seq_lib::group_seq_properties, Seq::lemma_push_to_set_commute};

/// A vertex as the specifications see it: a function name and a file path
/// (the empty path where files play no part).
pub type Vertex = (Seq<char>, Seq<char>);

/// A graph that can list the successors of a vertex.
pub trait Successors {
    spec fn succ(&self, v: Vertex) -> Seq<Vertex>;

    fn successors(&self, v: &(String, String)) -> (r: Vec<(String, String)>)
        ensures
            r.deep_view() == self.succ(v.deep_view()),
    ;
}

/// The vertices one step away from some vertex of `s`.
pub open spec fn image(f: spec_fn(Vertex) -> Seq<Vertex>, s: Set<Vertex>) -> Set<Vertex> {
    Set::new(|w: Vertex| exists|v: Vertex| s.contains(v) && #[trigger] f(v).contains(w))
}

/// The vertices reachable from `start` in at most `k` steps (`start` included).
pub open spec fn reach(f: spec_fn(Vertex) -> Seq<Vertex>, start: Vertex, k: nat) -> Set<Vertex>
    decreases k,
{
    if k == 0 {
        set![start]
    } else {
        let r = reach(f, start, (k - 1) as nat);
        r.union(image(f, r))
    }
}

/// The vertices at distance exactly `k` from `start`.
pub open spec fn layer(f: spec_fn(Vertex) -> Seq<Vertex>, start: Vertex, k: nat) -> Set<Vertex> {
    if k == 0 {
        set![start]
    } else {
        reach(f, start, k).difference(reach(f, start, (k - 1) as nat))
    }
}

/// What a traversal of depth `depth` from `start` reports: every vertex within
/// `depth` steps of `start`, `start` itself excepted.
pub open spec fn within(f: spec_fn(Vertex) -> Seq<Vertex>, start: Vertex, depth: nat) -> Set<Vertex> {
    reach(f, start, depth).remove(start)
}

pub proof fn lemma_reach_monotone(f: spec_fn(Vertex) -> Seq<Vertex>, start: Vertex, i: nat, j: nat)
    requires
        i <= j,
    ensures
        reach(f, start, i).subset_of(reach(f, start, j)),
    decreases j,
{
    if i < j {
        lemma_reach_monotone(f, start, i, (j - 1) as nat);
    }
}

pub proof fn lemma_start_reached(f: spec_fn(Vertex) -> Seq<Vertex>, start: Vertex, k: nat)
    ensures
        reach(f, start, k).contains(start),
{
    lemma_reach_monotone(f, start, 0, k);
}

/// One more step only adds the successors of the newest layer.
pub proof fn lemma_next_reach(f: spec_fn(Vertex) -> Seq<Vertex>, start: Vertex, d: nat)
    ensures
        reach(f, start, d + 1) == reach(f, start, d).union(image(f, layer(f, start, d))),
{
    let r = reach(f, start, d);
    let l = layer(f, start, d);
    assert forall|w: Vertex| image(f, r).contains(w) implies r.union(image(f, l)).contains(w) by {
        let v = choose|v: Vertex| r.contains(v) && #[trigger] f(v).contains(w);
        if !l.contains(v) {
            assert(d > 0);
            let r0 = reach(f, start, (d - 1) as nat);
            assert(r0.contains(v));
            assert(image(f, r0).contains(w));
        } else {
            assert(image(f, l).contains(w));
        }
    }
    assert forall|w: Vertex| image(f, l).contains(w) implies image(f, r).contains(w) by {
        let v = choose|v: Vertex| l.contains(v) && #[trigger] f(v).contains(w);
        assert(r.contains(v));
    }
    assert(reach(f, start, d + 1) =~= r.union(image(f, l)));
}

/// Once a layer is empty, nothing more is ever reached.
pub proof fn lemma_stable(f: spec_fn(Vertex) -> Seq<Vertex>, start: Vertex, d: nat, k: nat)
    requires
        layer(f, start, d).is_empty(),
        d <= k,
    ensures
        reach(f, start, k) == reach(f, start, d),
    decreases k - d,
{
    if d < k {
        lemma_next_reach(f, start, d);
        assert(image(f, layer(f, start, d)) =~= Set::empty());
        assert(reach(f, start, d + 1) =~= reach(f, start, d));
        assert(layer(f, start, d + 1) =~= Set::empty());
        lemma_stable(f, start, d + 1, k);
    }
}

/// Adding one vertex to a set adds its successors to the set's image.
pub proof fn lemma_image_insert(f: spec_fn(Vertex) -> Seq<Vertex>, done: Set<Vertex>, v: Vertex)
    ensures
        image(f, done.insert(v)) == image(f, done).union(f(v).to_set()),
{
    let done2 = done.insert(v);
    assert forall|w: Vertex| image(f, done2).contains(w) implies image(f, done).union(f(v).to_set()).contains(w) by {
        let u = choose|u: Vertex| done2.contains(u) && #[trigger] f(u).contains(w);
        if u != v {
            assert(done.contains(u));
            assert(image(f, done).contains(w));
        }
    }
    assert forall|w: Vertex| image(f, done).union(f(v).to_set()).contains(w) implies image(f, done2).contains(w) by {
        if image(f, done).contains(w) {
            let u = choose|u: Vertex| done.contains(u) && #[trigger] f(u).contains(w);
            assert(done2.contains(u));
        } else {
            assert(done2.contains(v));
            assert(f(v).contains(w));
        }
    }
    assert(image(f, done2) =~= image(f, done).union(f(v).to_set()));
}

/// `r` lists nearer vertices first: whatever lies within `k` steps of `s`, every vertex listed
/// before it does too.
pub open spec fn nearer_first(f: spec_fn(Vertex) -> Seq<Vertex>, s: Vertex, r: Seq<Vertex>) -> bool {
    forall|a: int, b: int, k: nat|
        #![trigger r[a], reach(f, s, k).contains(r[b])]
        0 <= a < b < r.len() && reach(f, s, k).contains(r[b]) ==> reach(f, s, k).contains(r[a])
}

/// Appending a vertex first reached in `d + 1` steps to a list of vertices within `d + 1` steps
/// keeps nearer vertices first.
proof fn lemma_push_nearer(f: spec_fn(Vertex) -> Seq<Vertex>, s: Vertex, rs: Seq<Vertex>, w: Vertex, d: nat)
    requires
        nearer_first(f, s, rs),
        forall|q: int| 0 <= q < rs.len() ==> reach(f, s, d + 1).contains(#[trigger] rs[q]),
        !reach(f, s, d).contains(w),
        reach(f, s, d + 1).contains(w),
    ensures
        nearer_first(f, s, rs.push(w)),
        forall|q: int| 0 <= q < rs.push(w).len() ==> reach(f, s, d + 1).contains(#[trigger] rs.push(w)[q]),
{
    let r2 = rs.push(w);
    assert forall|a: int, b: int, k: nat|
        #![trigger r2[a], reach(f, s, k).contains(r2[b])]
        0 <= a < b < r2.len() && reach(f, s, k).contains(r2[b]) implies reach(f, s, k).contains(r2[a]) by {
        if b < rs.len() {
            assert(r2[a] == rs[a]);
            assert(r2[b] == rs[b]);
        } else {
            assert(r2[b] == w);
            assert(r2[a] == rs[a]);
            if k <= d {
                lemma_reach_monotone(f, s, k, d);
                assert(reach(f, s, d).contains(w));
            } else {
                lemma_reach_monotone(f, s, d + 1, k);
                assert(reach(f, s, d + 1).contains(rs[a]));
            }
        }
    }
    assert forall|q: int| 0 <= q < r2.len() implies reach(f, s, d + 1).contains(#[trigger] r2[q]) by {
        if q < rs.len() {
            assert(r2[q] == rs[q]);
        }
    }
}

/// Is `v` among `vs`?
pub fn contains_vertex(vs: &Vec<(String, String)>, v: &(String, String)) -> (r: bool)
    ensures
        r == vs.deep_view().contains(v.deep_view()),
{
    let mut i: usize = 0;
    while i < vs.len()
        invariant
            i <= vs@.len(),
            forall|j: int| 0 <= j < i ==> vs.deep_view()[j] != v.deep_view(),
        decreases vs@.len() - i,
    {
        if vs[i].0 == v.0 && vs[i].1 == v.1 {
            assert(vs.deep_view()[i as int] == v.deep_view());
            return true;
        }
        i += 1;
    }
    false
}

/// A copy of a vertex.
pub fn copy_vertex(v: &(String, String)) -> (r: (String, String))
    ensures
        r.deep_view() == v.deep_view(),
{
    (v.0.clone(), v.1.clone())
}

/// Level-by-level breadth-first traversal from `start` up to `depth` steps. Reports each vertex
/// within `depth` steps of `start` exactly once, `start` excepted, nearer vertices first.
pub fn bfs<G: Successors>(g: &G, start: &(String, String), depth: usize) -> (r: Vec<(String, String)>)
    ensures
        r.deep_view().no_duplicates(),
        r.deep_view().to_set() == within(|v: Vertex| g.succ(v), start.deep_view(), depth as nat),
        nearer_first(|v: Vertex| g.succ(v), start.deep_view(), r.deep_view()),
{
    let ghost s = start.deep_view();
    let ghost f = |v: Vertex| g.succ(v);
    let mut visited: Vec<(String, String)> = Vec::new();
    visited.push(copy_vertex(start));
    let mut frontier: Vec<(String, String)> = Vec::new();
    frontier.push(copy_vertex(start));
    let mut results: Vec<(String, String)> = Vec::new();
    let mut d: usize = 0;
    proof {
        assert(visited.deep_view() =~= seq![s]);
        assert(frontier.deep_view() =~= seq![s]);
        assert(seq![s].contains(s));
        assert(seq![s].to_set() =~= set![s]);
        assert(visited.deep_view().to_set() =~= reach(f, s, 0));
        assert(frontier.deep_view().to_set() =~= layer(f, s, 0));
        assert(visited.deep_view() =~= seq![s] + results.deep_view());
    }
    while d < depth && frontier.len() > 0
        invariant
            f == (|v: Vertex| g.succ(v)),
            d <= depth,
            visited.deep_view().no_duplicates(),
            visited.deep_view() == seq![s] + results.deep_view(),
            visited.deep_view().to_set() == reach(f, s, d as nat),
            frontier.deep_view().to_set() == layer(f, s, d as nat),
            nearer_first(f, s, results.deep_view()),
        decreases depth - d,
    {
        let ghost reach_d = reach(f, s, d as nat);
        let ghost old_len = visited@.len();
        proof {
            lemma_start_reached(f, s, d as nat);
            lemma_reach_monotone(f, s, d as nat, (d + 1) as nat);
            assert forall|q: int| 0 <= q < results.deep_view().len() implies reach(f, s, (d + 1) as nat).contains(
                #[trigger] results.deep_view()[q],
            ) by {
                assert(visited.deep_view()[q + 1] == results.deep_view()[q]);
                assert(visited.deep_view().to_set().contains(results.deep_view()[q]));
            }
        }
        let mut next: Vec<(String, String)> = Vec::new();
        let mut i: usize = 0;
        while i < frontier.len()
            invariant
                f == (|v: Vertex| g.succ(v)),
                i <= frontier@.len(),
                old_len <= visited@.len(),
                visited.deep_view().no_duplicates(),
                visited.deep_view() == seq![s] + results.deep_view(),
                visited.deep_view().subrange(0, old_len as int).to_set() == reach_d,
                visited.deep_view().to_set() == reach_d.union(
                    image(f, frontier.deep_view().subrange(0, i as int).to_set()),
                ),
                next.deep_view() == visited.deep_view().subrange(old_len as int, visited@.len() as int),
                reach_d == reach(f, s, d as nat),
                frontier.deep_view().to_set() == layer(f, s, d as nat),
                nearer_first(f, s, results.deep_view()),
                forall|q: int| 0 <= q < results.deep_view().len() ==> reach(f, s, (d + 1) as nat).contains(#[trigger] results.deep_view()[q]),
            decreases frontier@.len() - i,
        {
            let ws = g.successors(&frontier[i]);
            let ghost fv = frontier.deep_view()[i as int];
            let ghost done = frontier.deep_view().subrange(0, i as int).to_set();
            assert(fv == frontier@[i as int].deep_view());
            assert(ws.deep_view() == g.succ(fv));
            assert(f(fv) == g.succ(fv));
            assert(frontier.deep_view().to_set().contains(fv));
            assert(reach(f, s, d as nat).contains(fv));
            let mut j: usize = 0;
            while j < ws.len()
                invariant
                    f == (|v: Vertex| g.succ(v)),
                    j <= ws@.len(),
                    old_len <= visited@.len(),
                    visited.deep_view().no_duplicates(),
                    visited.deep_view() == seq![s] + results.deep_view(),
                    visited.deep_view().subrange(0, old_len as int).to_set() == reach_d,
                    visited.deep_view().to_set() == reach_d.union(image(f, done)).union(
                        ws.deep_view().subrange(0, j as int).to_set(),
                    ),
                    next.deep_view() == visited.deep_view().subrange(
                        old_len as int,
                        visited@.len() as int,
                    ),
                    ws.deep_view() == f(fv),
                    reach_d == reach(f, s, d as nat),
                    reach(f, s, d as nat).contains(fv),
                    nearer_first(f, s, results.deep_view()),
                    forall|q: int| 0 <= q < results.deep_view().len() ==> reach(f, s, (d + 1) as nat).contains(#[trigger] results.deep_view()[q]),
                decreases ws@.len() - j,
            {
                let ghost before = visited.deep_view();
                let ghost nbefore = next.deep_view();
                let ghost wj = ws.deep_view()[j as int];
                let ghost rbefore = results.deep_view();
                if !contains_vertex(&visited, &ws[j]) {
                    proof {
                        assert(f(fv).contains(wj));
                        assert(image(f, reach(f, s, d as nat)).contains(wj));
                        assert(reach(f, s, (d + 1) as nat).contains(wj));
                        if reach_d.contains(wj) {
                            let k = choose|k: int| 0 <= k < old_len && before[k] == wj;
                            assert(before.subrange(0, old_len as int)[k] == wj);
                            assert(before.subrange(0, old_len as int).to_set().contains(wj));
                            assert(before.contains(wj));
                        }
                        lemma_push_nearer(f, s, rbefore, wj, d as nat);
                    }
                    visited.push(copy_vertex(&ws[j]));
                    results.push(copy_vertex(&ws[j]));
                    next.push(copy_vertex(&ws[j]));
                    proof {
                        assert(results.deep_view() =~= rbefore.push(wj));
                        assert(visited.deep_view() =~= before.push(wj));
                        assert(visited.deep_view().subrange(0, old_len as int) =~= before.subrange(
                            0,
                            old_len as int,
                        ));
                        assert(visited.deep_view().to_set() =~= before.to_set().insert(wj));
                        assert(visited.deep_view() =~= seq![s] + results.deep_view());
                        assert(next.deep_view() =~= nbefore.push(wj));
                        assert(next.deep_view() =~= visited.deep_view().subrange(
                            old_len as int,
                            visited@.len() as int,
                        ));
                    }
                } else {
                    proof {
                        assert(before.to_set().contains(wj));
                    }
                }
                proof {
                    assert(ws.deep_view().subrange(0, j + 1) =~= ws.deep_view().subrange(
                        0,
                        j as int,
                    ).push(wj));
                    assert(visited.deep_view().to_set() =~= reach_d.union(image(f, done)).union(
                        ws.deep_view().subrange(0, j + 1).to_set(),
                    ));
                }
                j += 1;
            }
            proof {
                assert(ws.deep_view().subrange(0, ws@.len() as int) =~= ws.deep_view());
                let done2 = frontier.deep_view().subrange(0, i + 1).to_set();
                assert(frontier.deep_view().subrange(0, i + 1) =~= frontier.deep_view().subrange(
                    0,
                    i as int,
                ).push(fv));
                assert(done2 =~= done.insert(fv));
                lemma_image_insert(f, done, fv);
                assert(image(f, done2) =~= image(f, done).union(f(fv).to_set()));
                assert(visited.deep_view().to_set() =~= reach_d.union(image(f, done2)));
            }
            i += 1;
        }
        proof {
            assert(frontier.deep_view().subrange(0, frontier@.len() as int) =~= frontier.deep_view());
            lemma_next_reach(f, s, d as nat);
            let vd = visited.deep_view();
            let prefix = vd.subrange(0, old_len as int);
            assert(vd =~= prefix + next.deep_view());
            assert forall|w: Vertex| next.deep_view().to_set().contains(w) <==> layer(
                f,
                s,
                (d + 1) as nat,
            ).contains(w) by {
                if next.deep_view().to_set().contains(w) {
                    let k = choose|k: int| 0 <= k < next.deep_view().len() && next.deep_view()[k] == w;
                    assert(vd[old_len + k] == w);
                    if prefix.to_set().contains(w) {
                        let k2 = choose|k2: int| 0 <= k2 < prefix.len() && prefix[k2] == w;
                        assert(vd[k2] == w);
                    }
                }
                if layer(f, s, (d + 1) as nat).contains(w) {
                    assert(vd.to_set().contains(w));
                    let k = choose|k: int| 0 <= k < vd.len() && vd[k] == w;
                    if k < old_len {
                        assert(prefix[k] == w);
                        assert(prefix.to_set().contains(w));
                    } else {
                        assert(next.deep_view()[k - old_len] == w);
                    }
                }
            }
            assert(next.deep_view().to_set() =~= layer(f, s, (d + 1) as nat));
        }
        frontier = next;
        d += 1;
    }
    proof {
        if d < depth {
            assert(frontier.deep_view().to_set() =~= Set::empty());
            lemma_stable(f, s, d as nat, depth as nat);
        }
        let vd = visited.deep_view();
        let rd = results.deep_view();
        assert forall|i: int, j: int| 0 <= i < j < rd.len() implies rd[i] != rd[j] by {
            assert(vd[i + 1] == rd[i]);
            assert(vd[j + 1] == rd[j]);
        }
        assert forall|w: Vertex| rd.to_set().contains(w) <==> within(f, s, depth as nat).contains(w) by {
            if rd.to_set().contains(w) {
                let k = choose|k: int| 0 <= k < rd.len() && rd[k] == w;
                assert(vd[k + 1] == w);
                assert(vd[0] == s);
            }
            if within(f, s, depth as nat).contains(w) {
                let k = choose|k: int| 0 <= k < vd.len() && vd[k] == w;
                assert(vd[0] == s);
                assert(rd[k - 1] == w);
            }
        }
        assert(rd.to_set() =~= within(f, s, depth as nat));
    }
    results
}

} // verus!
