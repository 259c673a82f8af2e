//! Annotations written by the tools: notes on files, and notes on symbols keyed by the hash of
//! the text they describe, so that a note on a function disappears once the function changes.
use vstd::prelude::*;

use crate::hash::{short_hash, source_hash};

pub mod by_content;
pub mod types;

pub use types::{FileAnnotation, FileAnnotationV, SymbolAnnotation};

verus! {

/// The value stored under `k`: the last entry with that key.
pub open spec fn lookup<V>(s: Seq<(Seq<char>, V)>, k: Seq<char>) -> Option<V>
    decreases s.len(),
{
    if s.len() == 0 {
        None
    } else if s.last().0 == k {
        Some(s.last().1)
    } else {
        lookup(s.drop_last(), k)
    }
}

/// No key occurs twice.
pub open spec fn unique_keys<V>(s: Seq<(Seq<char>, V)>) -> bool {
    forall|i: int, j: int| 0 <= i < j < s.len() ==> s[i].0 != s[j].0
}

/// `s` with `v` stored under `k`: replacing the entry with that key in place, or added last.
pub open spec fn upsert<V>(s: Seq<(Seq<char>, V)>, k: Seq<char>, v: V) -> Seq<(Seq<char>, V)> {
    if exists|i: int| 0 <= i < s.len() && s[i].0 == k {
        let i = choose|i: int| 0 <= i < s.len() && s[i].0 == k;
        s.update(i, (k, v))
    } else {
        s.push((k, v))
    }
}

/// With unique keys, an entry's key finds its value.
pub proof fn lemma_lookup_at<V>(s: Seq<(Seq<char>, V)>, i: int)
    requires
        unique_keys(s),
        0 <= i < s.len(),
    ensures
        lookup(s, s[i].0) == Some(s[i].1),
    decreases s.len(),
{
    if i < s.len() - 1 {
        assert(s.last().0 != s[i].0);
        assert(s.drop_last()[i] == s[i]);
        lemma_lookup_at(s.drop_last(), i);
    }
}

/// A key that no entry has finds nothing.
pub proof fn lemma_lookup_absent<V>(s: Seq<(Seq<char>, V)>, k: Seq<char>)
    requires
        forall|i: int| 0 <= i < s.len() ==> s[i].0 != k,
    ensures
        lookup(s, k) == None::<V>,
    decreases s.len(),
{
    if s.len() > 0 {
        assert(s.last().0 != k);
        lemma_lookup_absent(s.drop_last(), k);
    }
}

/// Storing a value keeps keys unique; reading its key gives it back, and every other key reads
/// as before.
pub proof fn lemma_upsert<V>(s: Seq<(Seq<char>, V)>, k: Seq<char>, v: V)
    requires
        unique_keys(s),
    ensures
        unique_keys(upsert(s, k, v)),
        lookup(upsert(s, k, v), k) == Some(v),
        forall|k2: Seq<char>| k2 != k ==> lookup(upsert(s, k, v), k2) == lookup(s, k2),
{
    let t = upsert(s, k, v);
    assert(unique_keys(t));
    if exists|i: int| 0 <= i < s.len() && s[i].0 == k {
        let i = choose|i: int| 0 <= i < s.len() && s[i].0 == k;
        lemma_lookup_at(t, i);
        assert forall|k2: Seq<char>| k2 != k implies lookup(t, k2) == lookup(s, k2) by {
            if exists|j: int| 0 <= j < s.len() && s[j].0 == k2 {
                let j = choose|j: int| 0 <= j < s.len() && s[j].0 == k2;
                lemma_lookup_at(s, j);
                lemma_lookup_at(t, j);
            } else {
                lemma_lookup_absent(s, k2);
                lemma_lookup_absent(t, k2);
            }
        }
    } else {
        lemma_lookup_at(t, s.len() as int);
        assert forall|k2: Seq<char>| k2 != k implies lookup(t, k2) == lookup(s, k2) by {
            assert(t.drop_last() =~= s);
        }
    }
}

/// Storing under a key that is present replaces that entry.
pub proof fn lemma_upsert_at<V>(s: Seq<(Seq<char>, V)>, i: int, k: Seq<char>, v: V)
    requires
        unique_keys(s),
        0 <= i < s.len(),
        s[i].0 == k,
    ensures
        upsert(s, k, v) == s.update(i, (k, v)),
{
    let c = choose|c: int| 0 <= c < s.len() && s[c].0 == k;
    if c != i {
        assert(s[c].0 == s[i].0);
    }
}

/// Where the key of `k` sits, if anywhere.
pub(crate) fn key_index<V>(s: &Vec<(String, V)>, k: &str) -> (r: Option<usize>)
    ensures
        match r {
            Some(i) => i < s@.len() && s@[i as int].0@ == k@,
            None => forall|i: int| 0 <= i < s@.len() ==> s@[i].0@ != k@,
        },
{
    let key = crate::text::owned(k);
    let mut i: usize = 0;
    while i < s.len()
        invariant
            i <= s@.len(),
            key@ == k@,
            forall|j: int| 0 <= j < i ==> s@[j].0@ != k@,
        decreases s@.len() - i,
    {
        if s[i].0 == key {
            return Some(i);
        }
        i += 1;
    }
    None
}

/// The notes of a project.
pub struct AnnotationStore {
    /// File notes, keyed by file path
    pub files: Vec<(String, FileAnnotation)>,
    /// Symbol notes: symbol name, then the short hash of the annotated text, then the note
    pub symbols: Vec<(String, Vec<(String, SymbolAnnotation)>)>,
    /// Where the notes are kept on disk, when they came from there
    pub path: Option<String>,
}

pub struct AnnotationStoreV {
    pub files: Seq<(Seq<char>, FileAnnotationV)>,
    pub symbols: Seq<(Seq<char>, Seq<(Seq<char>, Seq<char>)>)>,
    /// Where the notes are kept on disk, if anywhere
    pub path: Option<Seq<char>>,
}

impl View for AnnotationStore {
    type V = AnnotationStoreV;

    open spec fn view(&self) -> AnnotationStoreV {
        AnnotationStoreV { files: self.files.deep_view(), symbols: self.symbols.deep_view(), path: self.path.deep_view() }
    }
}

impl AnnotationStoreV {
    /// Keys are unique at every level.
    pub open spec fn wf(self) -> bool {
        &&& unique_keys(self.files)
        &&& unique_keys(self.symbols)
        &&& forall|i: int| 0 <= i < self.symbols.len() ==> unique_keys(#[trigger] self.symbols[i].1)
    }

    /// The note on `name` for the text whose short hash is `hash`.
    pub open spec fn symbol_note(self, name: Seq<char>, hash: Seq<char>) -> Option<Seq<char>> {
        match lookup(self.symbols, name) {
            Some(m) => lookup(m, hash),
            None => None,
        }
    }
}

impl AnnotationStore {
    /// An empty store, kept at `path` when one is given.
    pub fn new(path: Option<String>) -> (r: Self)
        ensures
            r@.wf(),
            r@.files.len() == 0,
            r@.symbols.len() == 0,
            r.path == path,
    {
        AnnotationStore { files: Vec::new(), symbols: Vec::new(), path }
    }

    /// The note on `name` written for a text equal to `source`.
    pub fn get_symbol(&self, name: &str, source: &str) -> (r: Option<&SymbolAnnotation>)
        requires
            self@.wf(),
        ensures
            r.deep_view() == self@.symbol_note(name@, source_hash(source@)),
    {
        let hash = short_hash(source);
        self.symbol_note(name, hash.as_str())
    }

    /// The note on `name` for the text whose short hash is `hash`.
    pub fn symbol_note(&self, name: &str, hash: &str) -> (r: Option<&SymbolAnnotation>)
        requires
            self@.wf(),
        ensures
            r.deep_view() == self@.symbol_note(name@, hash@),
    {
        match key_index(&self.symbols, name) {
            None => {
                proof {
                    lemma_lookup_absent(self@.symbols, name@);
                }
                None
            },
            Some(i) => {
                proof {
                    lemma_lookup_at(self@.symbols, i as int);
                }
                let m = &self.symbols[i].1;
                assert(unique_keys(self@.symbols[i as int].1));
                match key_index(m, hash) {
                    None => {
                        proof {
                            lemma_lookup_absent(m.deep_view(), hash@);
                        }
                        None
                    },
                    Some(j) => {
                        proof {
                            lemma_lookup_at(m.deep_view(), j as int);
                        }
                        Some(&m[j].1)
                    },
                }
            },
        }
    }

    /// The note on the file `file`.
    pub fn file_note(&self, file: &str) -> (r: Option<&FileAnnotation>)
        requires
            self@.wf(),
        ensures
            r.deep_view() == lookup(self@.files, file@),
    {
        match key_index(&self.files, file) {
            None => {
                proof {
                    lemma_lookup_absent(self@.files, file@);
                }
                None
            },
            Some(i) => {
                proof {
                    lemma_lookup_at(self@.files, i as int);
                }
                Some(&self.files[i].1)
            },
        }
    }

    /// Stores the note on `file`, replacing an earlier one.
    pub fn set_file(&mut self, file: String, ann: FileAnnotation)
        requires
            old(self)@.wf(),
        ensures
            final(self)@.wf(),
            final(self)@.files == upsert(old(self)@.files, file@, ann.deep_view()),
            final(self)@.symbols == old(self)@.symbols,
            final(self).path == old(self).path,
    {
        let ghost k = file@;
        let ghost v = ann.deep_view();
        proof {
            lemma_upsert(self@.files, k, v);
        }
        match key_index(&self.files, file.as_str()) {
            Some(i) => {
                let ghost fv = self@.files;
                self.files.set(i, (file, ann));
                proof {
                    lemma_upsert_at(fv, i as int, k, v);
                    assert(self@.files =~= fv.update(i as int, (k, v)));
                }
            },
            None => {
                let ghost fv = self@.files;
                self.files.push((file, ann));
                proof {
                    assert(self@.files =~= fv.push((k, v)));
                }
            },
        }
    }

    /// Stores the note on `name` for the text whose short hash is `hash`, replacing an earlier
    /// note for that same text.
    pub fn set_symbol(&mut self, name: String, hash: String, ann: SymbolAnnotation)
        requires
            old(self)@.wf(),
        ensures
            final(self)@.wf(),
            final(self)@.files == old(self)@.files,
            final(self).path == old(self).path,
            final(self)@.symbol_note(name@, hash@) == Some(ann.deep_view()),
            forall|n: Seq<char>, h: Seq<char>|
                n != name@ || h != hash@ ==> final(self)@.symbol_note(n, h) == old(self)@.symbol_note(n, h),
    {
        let ghost sv = self@.symbols;
        let ghost nk = name@;
        let ghost hk = hash@;
        let ghost av = ann.deep_view();
        match key_index(&self.symbols, name.as_str()) {
            Some(i) => {
                let mut inner: Vec<(String, SymbolAnnotation)> = Vec::new();
                let mut name_slot = String::new();
                std::mem::swap(&mut inner, &mut self.symbols[i].1);
                std::mem::swap(&mut name_slot, &mut self.symbols[i].0);
                let ghost iv = inner.deep_view();
                assert(iv == sv[i as int].1);
                assert(unique_keys(iv));
                match key_index(&inner, hash.as_str()) {
                    Some(j) => {
                        inner.set(j, (hash, ann));
                        proof {
                            assert(inner.deep_view() =~= iv.update(j as int, (hk, av)));
                            lemma_upsert_at(iv, j as int, hk, av);
                        }
                    },
                    None => {
                        inner.push((hash, ann));
                        proof {
                            assert(inner.deep_view() =~= iv.push((hk, av)));
                        }
                    },
                }
                let ghost nv = inner.deep_view();
                proof {
                    assert(nv == upsert(iv, hk, av));
                    lemma_upsert(iv, hk, av);
                }
                self.symbols.set(i, (name_slot, inner));
                proof {
                    let t = self@.symbols;
                    assert(t =~= sv.update(i as int, (nk, nv)));
                    assert(unique_keys(t)) by {
                        assert forall|a: int, b: int| 0 <= a < b < t.len() implies t[a].0 != t[b].0 by {
                            assert(t[a].0 == sv[a].0);
                            assert(t[b].0 == sv[b].0);
                        }
                    }
                    assert forall|a: int| 0 <= a < t.len() implies unique_keys(#[trigger] t[a].1) by {
                        if a != i {
                            assert(t[a] == sv[a]);
                        }
                    }
                    lemma_lookup_at(t, i as int);
                    lemma_lookup_at(sv, i as int);
                    assert forall|n: Seq<char>, h: Seq<char>| n != nk || h != hk implies self@.symbol_note(n, h)
                        == old(self)@.symbol_note(n, h) by {
                        if n == nk {
                        } else if exists|c: int| 0 <= c < sv.len() && sv[c].0 == n {
                            let c = choose|c: int| 0 <= c < sv.len() && sv[c].0 == n;
                            lemma_lookup_at(sv, c);
                            lemma_lookup_at(t, c);
                        } else {
                            lemma_lookup_absent(sv, n);
                            lemma_lookup_absent(t, n);
                        }
                    }
                }
            },
            None => {
                let mut inner: Vec<(String, SymbolAnnotation)> = Vec::new();
                inner.push((hash, ann));
                proof {
                    assert(inner.deep_view() =~= seq![(hk, av)]);
                }
                self.symbols.push((name, inner));
                proof {
                    let t = self@.symbols;
                    assert(t =~= sv.push((nk, seq![(hk, av)])));
                    assert(unique_keys(t));
                    lemma_lookup_at(t, sv.len() as int);
                    lemma_lookup_at(seq![(hk, av)], 0);
                    assert forall|a: int| 0 <= a < t.len() implies unique_keys(#[trigger] t[a].1) by {
                        if a < sv.len() {
                            assert(t[a] == sv[a]);
                        }
                    }
                    assert forall|n: Seq<char>, h: Seq<char>| n != nk || h != hk implies self@.symbol_note(n, h)
                        == old(self)@.symbol_note(n, h) by {
                        if n == nk {
                            assert forall|c: int| 0 <= c < sv.len() implies sv[c].0 != n by {
                                assert(sv[c].0 == old(self).symbols@[c].0@);
                            }
                            lemma_lookup_absent(sv, n);
                            let one = seq![(hk, av)];
                            assert(one.drop_last() =~= Seq::<(Seq<char>, Seq<char>)>::empty());
                            assert(lookup(one.drop_last(), h) == None::<Seq<char>>);
                            assert(lookup(one, h) == None::<Seq<char>>);
                            assert(lookup(t, n) == Some(one));
                        } else {
                            assert(t.drop_last() =~= sv);
                        }
                    }
                }
            },
        }
    }
}

} // verus!
