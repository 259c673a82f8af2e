//! The per-file cache of parsed file graphs, keyed by the BLAKE3 hash of each file's bytes:
//! where its blobs live, and which blobs to drop when it holds more than it should. The oldest
//! blobs (by modification time, which a cache hit refreshes) go first.
use vstd::prelude::*;

use crate::order::{lemma_multiset_map, sort_by_spec_key, KeyOrd};
use crate::text::{chars_of, owned, push_str};

verus! {

broadcast use {vstd::seq_lib::group_seq_properties, Seq::lemma_filter_push};

/// The directory, under a project, where the tool keeps its data.
pub const DATA_DIR_NAME: &'static str = ".cofe-graph";

/// `name` under the directory `base`.
pub open spec fn join_path(base: Seq<char>, name: Seq<char>) -> Seq<char> {
    if base.len() == 0 {
        name
    } else if base.last() == '/' {
        base + name
    } else {
        base + seq!['/'] + name
    }
}

/// `name` under the directory `base`.
pub fn join_path_exec(base: &str, name: &str) -> (r: String)
    ensures
        r@ == join_path(base@, name@),
{
    let bc = chars_of(base);
    let mut r = owned(base);
    if bc.len() > 0 && bc[bc.len() - 1] != '/' {
        push_str(&mut r, "/");
    }
    push_str(&mut r, name);
    proof {
        reveal_strlit("/");
    }
    r
}

/// The part of a path after its last `/`.
pub open spec fn last_component(path: Seq<char>) -> Seq<char>
    decreases path.len(),
{
    if path.len() == 0 {
        path
    } else if path.last() == '/' {
        Seq::empty()
    } else {
        last_component(path.drop_last()).push(path.last())
    }
}

/// The file named by `path` has the extension `ext` (a dot-free word): its name ends with a dot
/// and `ext`, after at least one more character.
pub open spec fn has_extension(path: Seq<char>, ext: Seq<char>) -> bool {
    let n = last_component(path);
    &&& n.len() >= ext.len() + 2
    &&& n[n.len() - ext.len() - 1] == '.'
    &&& n.skip(n.len() - ext.len()) == ext
}

/// The characters of the last component of `path`.
fn last_component_exec(path: &str) -> (r: Vec<char>)
    ensures
        r@ == last_component(path@),
{
    let cs = chars_of(path);
    let mut start: usize = 0;
    let mut i: usize = 0;
    while i < cs.len()
        invariant
            i <= cs@.len(),
            start <= i,
            last_component(cs@.take(i as int)) == cs@.subrange(start as int, i as int),
        decreases cs@.len() - i,
    {
        proof {
            assert(cs@.take(i + 1).drop_last() =~= cs@.take(i as int));
        }
        if cs[i] == '/' {
            start = i + 1;
            proof {
                assert(cs@.subrange(start as int, i + 1) =~= Seq::<char>::empty());
            }
        } else {
            proof {
                assert(cs@.subrange(start as int, i + 1) =~= cs@.subrange(start as int, i as int).push(cs@[i as int]));
            }
        }
        i += 1;
    }
    proof {
        assert(cs@.take(cs@.len() as int) =~= cs@);
    }
    let mut r: Vec<char> = Vec::new();
    let mut k: usize = start;
    while k < cs.len()
        invariant
            start <= k <= cs@.len(),
            r@ == cs@.subrange(start as int, k as int),
        decreases cs@.len() - k,
    {
        r.push(cs[k]);
        k += 1;
    }
    r
}

/// Does the file named by `path` have the extension `ext`?
pub fn has_extension_exec(path: &str, ext: &str) -> (r: bool)
    ensures
        r == has_extension(path@, ext@),
{
    let n = last_component_exec(path);
    let es = chars_of(ext);
    if es.len() > n.len() || n.len() - es.len() < 2 {
        return false;
    }
    let off = n.len() - es.len();
    if n[off - 1] != '.' {
        return false;
    }
    let mut k: usize = 0;
    while k < es.len()
        invariant
            es@ == ext@,
            n@ == last_component(path@),
            n@.len() == off + es@.len(),
            off + es@.len() <= usize::MAX,
            k <= es@.len(),
            forall|j: int| 0 <= j < k ==> n@[off + j] == es@[j],
        decreases es@.len() - k,
    {
        if n[off + k] != es[k] {
            proof {
                assert(n@.skip(off as int)[k as int] != ext@[k as int]);
            }
            return false;
        }
        k += 1;
    }
    proof {
        assert(n@.skip(off as int) =~= ext@);
    }
    true
}

/// Where the cache of a project keeps its data.
pub struct Cache {
    /// The project's data directory
    pub dir: String,
    /// The directory of the cached file graphs
    pub blobs_dir: String,
}

/// Cache entries ordered from the oldest.
pub open spec fn by_time(t: Seq<(Seq<char>, u128)>) -> bool {
    forall|i: int, j: int| 0 <= i < j < t.len() ==> (#[trigger] t[i]).1 <= (#[trigger] t[j]).1
}

/// The listed files that are cache blobs.
pub open spec fn blob_entries(entries: Seq<(Seq<char>, u128)>) -> Seq<(Seq<char>, u128)> {
    entries.filter(|e: (Seq<char>, u128)| has_extension(e.0, "fgraph"@))
}

impl Cache {
    /// The cache of the project at `base`: `<base>/.cofe-graph`, with its blobs under
    /// `cache/blobs` there.
    pub fn at(base: &str) -> (r: Cache)
        ensures
            r.dir@ == join_path(base@, DATA_DIR_NAME@),
            r.blobs_dir@ == join_path(join_path(r.dir@, "cache"@), "blobs"@),
    {
        let dir = join_path_exec(base, DATA_DIR_NAME);
        let cache_dir = join_path_exec(dir.as_str(), "cache");
        let blobs_dir = join_path_exec(cache_dir.as_str(), "blobs");
        Cache { dir, blobs_dir }
    }

    /// The blob holding the file graph stored under `key`.
    pub fn blob_path(&self, key: &str) -> (r: String)
        ensures
            r@ == join_path(self.blobs_dir@, key@ + ".fgraph"@),
    {
        let mut name = owned(key);
        push_str(&mut name, ".fgraph");
        join_path_exec(self.blobs_dir.as_str(), name.as_str())
    }

    /// Of the files listed in the blob directory with their modification times, the blobs to
    /// remove so that at most `max_entries` remain: the oldest ones (all of them when
    /// `max_entries` is 0).
    pub fn evict_if_needed(&self, entries: Vec<(String, u128)>, max_entries: usize) -> (r: Vec<String>)
        ensures
            blob_entries(entries.deep_view()).len() <= max_entries ==> r@.len() == 0,
            blob_entries(entries.deep_view()).len() > max_entries ==> exists|t: Seq<(Seq<char>, u128)>|
                t.to_multiset() == blob_entries(entries.deep_view()).to_multiset() && by_time(t) && r.deep_view()
                    == t.take(blob_entries(entries.deep_view()).len() - max_entries).map_values(
                    |e: (Seq<char>, u128)| e.0,
                ),
    {
        let ghost ev = entries.deep_view();
        let ghost pred = |e: (Seq<char>, u128)| has_extension(e.0, "fgraph"@);
        let ghost key = |e: (String, u128)| e.1;
        let mut keyed: Vec<(u128, (String, u128))> = Vec::new();
        let mut src = entries;
        let ghost sv = src.deep_view();
        let mut i: usize = 0;
        while i < src.len()
            invariant
                i <= sv.len(),
                sv == src.deep_view(),
                sv == ev,
                pred == (|e: (Seq<char>, u128)| has_extension(e.0, "fgraph"@)),
                key == (|e: (String, u128)| e.1),
                forall|k: int| 0 <= k < keyed@.len() ==> #[trigger] keyed@[k].0 == key(keyed@[k].1),
                keyed@.map_values(|p: (u128, (String, u128))| p.1.deep_view()) == sv.take(i as int).filter(pred),
            decreases sv.len() - i,
        {
            let ghost before = keyed@.map_values(|p: (u128, (String, u128))| p.1.deep_view());
            proof {
                assert(sv.take(i + 1) =~= sv.take(i as int).push(sv[i as int]));
            }
            if has_extension_exec(src[i].0.as_str(), "fgraph") {
                let e = (src[i].0.clone(), src[i].1);
                keyed.push((e.1, e));
                proof {
                    assert(keyed@.map_values(|p: (u128, (String, u128))| p.1.deep_view()) =~= before.push(sv[i as int]));
                }
            }
            i += 1;
        }
        proof {
            assert(sv.take(sv.len() as int) =~= sv);
        }
        if keyed.len() <= max_entries {
            return Vec::new();
        }
        let ghost kv = keyed@;
        let sorted = sort_by_spec_key(keyed, Ghost(key));
        let ghost t = sorted@.map_values(|x: (String, u128)| x.deep_view());
        proof {
            let items = kv.map_values(|p: (u128, (String, u128))| p.1);
            lemma_multiset_map(sorted@, items, |x: (String, u128)| x.deep_view());
            assert(items.map_values(|x: (String, u128)| x.deep_view()) =~= kv.map_values(
                |p: (u128, (String, u128))| p.1.deep_view(),
            ));
            assert forall|a: int, b: int| 0 <= a < b < t.len() implies (#[trigger] t[a]).1 <= (#[trigger] t[b]).1 by {
                assert(key(sorted@[a]).key_le(&key(sorted@[b])));
            }
        }
        let remove = sorted.len() - max_entries;
        let mut r: Vec<String> = Vec::new();
        let mut j: usize = 0;
        while j < remove
            invariant
                remove <= sorted@.len(),
                j <= remove,
                t == sorted@.map_values(|x: (String, u128)| x.deep_view()),
                r.deep_view() == t.take(j as int).map_values(|e: (Seq<char>, u128)| e.0),
            decreases remove - j,
        {
            let ghost before = r.deep_view();
            r.push(sorted[j].0.clone());
            j += 1;
            proof {
                assert(t.take(j as int) =~= t.take(j - 1).push(t[j - 1]));
                assert(r.deep_view() =~= before.push(t[j - 1].0));
            }
        }
        proof {
            assert(by_time(t));
            assert(t.len() == blob_entries(ev).len());
        }
        r
    }
}

} // verus!
