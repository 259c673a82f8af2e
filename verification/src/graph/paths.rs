//! The order of file paths: component by component, as `Path`'s `Ord` compares them. Repeated
//! separators and `.` components (but a leading one) do not count, as in `Path::components`.
use vstd::prelude::*;

use crate::order::KeyOrd;
use crate::text::chars_of;

verus! {

/// Lexicographic order on sequences of numbers.
pub open spec fn nums_le(a: Seq<u64>, b: Seq<u64>) -> bool
    decreases a.len(),
{
    if a.len() == 0 {
        true
    } else if b.len() == 0 {
        false
    } else if a[0] != b[0] {
        a[0] < b[0]
    } else {
        nums_le(a.drop_first(), b.drop_first())
    }
}

proof fn lemma_nums_le_total(a: Seq<u64>, b: Seq<u64>)
    ensures
        nums_le(a, b) || nums_le(b, a),
    decreases a.len(),
{
    if a.len() > 0 && b.len() > 0 && a[0] == b[0] {
        lemma_nums_le_total(a.drop_first(), b.drop_first());
    }
}

proof fn lemma_nums_le_trans(a: Seq<u64>, b: Seq<u64>, c: Seq<u64>)
    requires
        nums_le(a, b),
        nums_le(b, c),
    ensures
        nums_le(a, c),
    decreases a.len(),
{
    if a.len() > 0 && b.len() > 0 && c.len() > 0 && a[0] == b[0] && b[0] == c[0] {
        lemma_nums_le_trans(a.drop_first(), b.drop_first(), c.drop_first());
    }
}

/// With the first `i` numbers equal, the order is decided at position `i`.
proof fn lemma_nums_le_prefix(a: Seq<u64>, b: Seq<u64>, i: int)
    requires
        0 <= i <= a.len(),
        i <= b.len(),
        forall|j: int| 0 <= j < i ==> a[j] == b[j],
    ensures
        nums_le(a, b) == (if i == a.len() {
            true
        } else if i == b.len() {
            false
        } else if a[i] != b[i] {
            a[i] < b[i]
        } else {
            nums_le(a.subrange(i, a.len() as int), b.subrange(i, b.len() as int))
        }),
    decreases i,
{
    if i > 0 {
        lemma_nums_le_prefix(a.drop_first(), b.drop_first(), i - 1);
        assert(a.drop_first().subrange(i - 1, a.len() - 1) =~= a.subrange(i, a.len() as int));
        assert(b.drop_first().subrange(i - 1, b.len() - 1) =~= b.subrange(i, b.len() as int));
    } else {
        assert(a.subrange(0, a.len() as int) =~= a);
        assert(b.subrange(0, b.len() as int) =~= b);
    }
}

fn vec_nums_le(a: &Vec<u64>, b: &Vec<u64>) -> (r: bool)
    ensures
        r == nums_le(a@, b@),
{
    let mut i: usize = 0;
    while i < a.len() && i < b.len() && a[i] == b[i]
        invariant
            i <= a@.len(),
            i <= b@.len(),
            forall|j: int| 0 <= j < i ==> a@[j] == b@[j],
        decreases a@.len() - i,
    {
        i += 1;
    }
    proof {
        lemma_nums_le_prefix(a@, b@, i as int);
    }
    if i == a.len() {
        true
    } else if i == b.len() {
        false
    } else {
        a[i] < b[i]
    }
}

/// The pieces of `p` between its `/` separators (empty pieces included).
pub open spec fn path_pieces(p: Seq<char>) -> Seq<Seq<char>>
    decreases p.len(),
{
    if p.len() == 0 {
        seq![Seq::<char>::empty()]
    } else {
        let r = path_pieces(p.drop_last());
        if p.last() == '/' {
            r.push(Seq::empty())
        } else {
            r.update(r.len() - 1, r.last().push(p.last()))
        }
    }
}

/// A normal component as numbers: `..` (a parent directory) before every name, and a name
/// character by character, after the marks of the root and of a leading `.`.
pub open spec fn component_nums(s: Seq<char>) -> Seq<u64> {
    if s == ".."@ {
        seq![3u64]
    } else {
        s.map_values(|c: char| ((c as u32) as u64 + 4) as u64)
    }
}

/// The numbers a piece adds to the key: none for an empty piece or `.`, else the component
/// followed by the separator mark 0.
pub open spec fn piece_nums(s: Seq<char>) -> Seq<u64> {
    if s.len() == 0 || s == "."@ {
        Seq::empty()
    } else {
        component_nums(s).push(0)
    }
}

/// The numbers of the pieces `ps`, in order.
pub open spec fn pieces_nums(ps: Seq<Seq<char>>) -> Seq<u64>
    decreases ps.len(),
{
    if ps.len() == 0 {
        Seq::empty()
    } else {
        pieces_nums(ps.drop_last()) + piece_nums(ps.last())
    }
}

/// The key of a path: a root (a leading `/`) or a leading `.` first, then its other
/// components, so that comparing keys compares the paths component by component.
#[verifier::opaque]
pub open spec fn path_key(p: Seq<char>) -> Seq<u64> {
    let head: Seq<u64> = if p.len() > 0 && p[0] == '/' {
        seq![1u64, 0u64]
    } else if path_pieces(p)[0] == "."@ {
        seq![2u64, 0u64]
    } else {
        Seq::empty()
    };
    head + pieces_nums(path_pieces(p))
}

/// `a` sorts before or with `b` as paths.
pub open spec fn path_le(a: Seq<char>, b: Seq<char>) -> bool {
    nums_le(path_key(a), path_key(b))
}

proof fn lemma_pieces_nonempty(p: Seq<char>)
    ensures
        path_pieces(p).len() >= 1,
    decreases p.len(),
{
    if p.len() > 0 {
        lemma_pieces_nonempty(p.drop_last());
    }
}

/// The pieces of a path between its `/` separators.
pub fn pieces_of(cs: &Vec<char>) -> (r: Vec<Vec<char>>)
    ensures
        r@.map_values(|v: Vec<char>| v@) == path_pieces(cs@),
{
    let mut r: Vec<Vec<char>> = Vec::new();
    r.push(Vec::new());
    let mut i: usize = 0;
    proof {
        assert(cs@.take(0) =~= Seq::<char>::empty());
        assert(r@.map_values(|v: Vec<char>| v@) =~= seq![Seq::<char>::empty()]);
    }
    while i < cs.len()
        invariant
            i <= cs@.len(),
            r@.len() >= 1,
            r@.map_values(|v: Vec<char>| v@) == path_pieces(cs@.take(i as int)),
        decreases cs@.len() - i,
    {
        let c = cs[i];
        let ghost before = r@.map_values(|v: Vec<char>| v@);
        proof {
            assert(cs@.take(i + 1).drop_last() =~= cs@.take(i as int));
            assert(cs@.take(i + 1).last() == c);
        }
        if c == '/' {
            r.push(Vec::new());
            proof {
                assert(r@.map_values(|v: Vec<char>| v@) =~= before.push(Seq::empty()));
            }
        } else {
            let k = r.len() - 1;
            let mut last = r.pop().unwrap();
            let ghost lv = last@;
            last.push(c);
            r.push(last);
            proof {
                assert(before.last() == lv);
                assert(r@.map_values(|v: Vec<char>| v@) =~= before.update(k as int, lv.push(c)));
            }
        }
        i += 1;
    }
    proof {
        assert(cs@.take(cs@.len() as int) =~= cs@);
    }
    r
}

fn piece_nums_exec(s: &Vec<char>, out: &mut Vec<u64>)
    ensures
        final(out)@ == old(out)@ + piece_nums(s@),
{
    if s.len() == 0 {
        assert(out@ =~= old(out)@ + piece_nums(s@));
        return;
    }
    let dot = s.len() == 1 && s[0] == '.';
    proof {
        reveal_strlit(".");
        reveal_strlit("..");
        if dot {
            assert(s@ =~= "."@);
        } else {
            assert(s@ != "."@);
        }
    }
    if dot {
        assert(out@ =~= old(out)@ + piece_nums(s@));
        return;
    }
    let dotdot = s.len() == 2 && s[0] == '.' && s[1] == '.';
    proof {
        if dotdot {
            assert(s@ =~= ".."@);
        } else {
            assert(s@ != ".."@);
        }
    }
    if dotdot {
        out.push(3);
        out.push(0);
        assert(out@ =~= old(out)@ + piece_nums(s@));
        return;
    }
    let ghost o0 = out@;
    let mut i: usize = 0;
    while i < s.len()
        invariant
            i <= s@.len(),
            s@ != ".."@,
            out@ == o0 + s@.take(i as int).map_values(|c: char| ((c as u32) as u64 + 4) as u64),
        decreases s@.len() - i,
    {
        let c = s[i];
        out.push((c as u32) as u64 + 4);
        i += 1;
        proof {
            assert(s@.take(i as int) =~= s@.take(i - 1).push(c));
            assert(out@ =~= o0 + s@.take(i as int).map_values(|c: char| ((c as u32) as u64 + 4) as u64));
        }
    }
    out.push(0);
    proof {
        assert(s@.take(s@.len() as int) =~= s@);
        assert(out@ =~= old(out)@ + piece_nums(s@));
    }
}

fn path_key_nums(p: &str) -> (r: Vec<u64>)
    ensures
        r@ == path_key(p@),
{
    let cs = chars_of(p);
    let pieces = pieces_of(&cs);
    let ghost pv = pieces@.map_values(|v: Vec<char>| v@);
    proof {
        lemma_pieces_nonempty(cs@);
    }
    let mut out: Vec<u64> = Vec::new();
    if cs.len() > 0 && cs[0] == '/' {
        out.push(1);
        out.push(0);
    } else {
        let f = &pieces[0];
        proof {
            assert(pv[0] == f@);
            reveal_strlit(".");
        }
        if f.len() == 1 && f[0] == '.' {
            proof {
                assert(f@ =~= "."@);
            }
            out.push(2);
            out.push(0);
        } else {
            proof {
                assert(f@ != "."@);
            }
        }
    }
    let ghost head = out@;
    let mut j: usize = 0;
    while j < pieces.len()
        invariant
            j <= pv.len(),
            pv == pieces@.map_values(|v: Vec<char>| v@),
            out@ == head + pieces_nums(pv.take(j as int)),
        decreases pv.len() - j,
    {
        proof {
            assert(pv.take(j + 1).drop_last() =~= pv.take(j as int));
            assert(pv.take(j + 1).last() == pieces@[j as int]@);
        }
        piece_nums_exec(&pieces[j], &mut out);
        j += 1;
        proof {
            assert(out@ =~= head + pieces_nums(pv.take(j as int)));
        }
    }
    proof {
        reveal(path_key);
        assert(pv.take(pv.len() as int) =~= pv);
        assert(cs@ == p@);
        assert(out@ =~= path_key(p@));
    }
    out
}

/// `path_le` in executable form.
pub fn path_le_exec(a: &str, b: &str) -> (r: bool)
    ensures
        r == path_le(a@, b@),
{
    let x = path_key_nums(a);
    let y = path_key_nums(b);
    vec_nums_le(&x, &y)
}

/// A path used as a sort key.
pub struct PathKey(pub String);

impl KeyOrd for PathKey {
    open spec fn key_le(&self, other: &Self) -> bool {
        path_le(self.0@, other.0@)
    }

    fn le(&self, other: &Self) -> (r: bool) {
        path_le_exec(self.0.as_str(), other.0.as_str())
    }

    proof fn lemma_total(a: &Self, b: &Self) {
        lemma_nums_le_total(path_key(a.0@), path_key(b.0@));
    }

    proof fn lemma_trans(a: &Self, b: &Self, c: &Self) {
        lemma_nums_le_trans(path_key(a.0@), path_key(b.0@), path_key(c.0@));
    }
}

} // verus!
