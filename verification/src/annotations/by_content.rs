//! File summaries keyed by the BLAKE3 hash of the file's content: a summary stays attached to
//! the exact content it was written for and is no longer found once the file changes.
use vstd::prelude::*;

use crate::annotations::{key_index, lemma_lookup_absent, lemma_lookup_at, lemma_upsert, lemma_upsert_at, lookup, unique_keys, upsert};

verus! {

/// The entries stored one after the other.
pub open spec fn upsert_all(s: Seq<(Seq<char>, Seq<char>)>, entries: Seq<(Seq<char>, Seq<char>)>) -> Seq<(Seq<char>, Seq<char>)>
    decreases entries.len(),
{
    if entries.len() == 0 {
        s
    } else {
        let before = upsert_all(s, entries.drop_last());
        upsert(before, entries.last().0, entries.last().1)
    }
}

/// File summaries by content hash.
pub struct AnnotationStore {
    /// (content hash, summary), each hash at most once
    pub files: Vec<(String, String)>,
}

impl View for AnnotationStore {
    type V = Seq<(Seq<char>, Seq<char>)>;

    open spec fn view(&self) -> Seq<(Seq<char>, Seq<char>)> {
        self.files.deep_view()
    }
}

impl AnnotationStore {
    /// The store holding the entries read back from disk, in their order (a later entry for the
    /// same hash wins); empty when nothing could be read.
    pub fn load(entries: Option<Vec<(String, String)>>) -> (r: Self)
        ensures
            unique_keys(r@),
            r@ == match entries {
                Some(e) => upsert_all(Seq::empty(), e.deep_view()),
                None => Seq::empty(),
            },
    {
        let mut store = AnnotationStore { files: Vec::new() };
        match entries {
            None => store,
            Some(e) => {
                let ghost ev = e.deep_view();
                let mut i: usize = 0;
                while i < e.len()
                    invariant
                        i <= ev.len(),
                        ev == e.deep_view(),
                        unique_keys(store@),
                        store@ == upsert_all(Seq::empty(), ev.take(i as int)),
                    decreases ev.len() - i,
                {
                    let summary = e[i].1.clone();
                    proof {
                        assert(ev[i as int] == (e@[i as int].0@, summary@));
                        assert(ev.take(i + 1).drop_last() =~= ev.take(i as int));
                    }
                    store.upsert_file(e[i].0.as_str(), summary);
                    i += 1;
                }
                proof {
                    assert(ev.take(ev.len() as int) =~= ev);
                }
                store
            },
        }
    }

    /// Stores `summary` for the content hash `sha`, replacing an earlier one.
    pub fn upsert_file(&mut self, sha: &str, summary: String)
        requires
            unique_keys(old(self)@),
        ensures
            unique_keys(final(self)@),
            final(self)@ == upsert(old(self)@, sha@, summary@),
    {
        let ghost fv = self@;
        proof {
            lemma_upsert(fv, sha@, summary@);
        }
        let key = crate::text::owned(sha);
        match key_index(&self.files, sha) {
            Some(i) => {
                self.files.set(i, (key, summary));
                proof {
                    lemma_upsert_at(fv, i as int, sha@, summary@);
                    assert(self@ =~= fv.update(i as int, (sha@, summary@)));
                }
            },
            None => {
                self.files.push((key, summary));
                proof {
                    assert(self@ =~= fv.push((sha@, summary@)));
                }
            },
        }
    }

    /// The summary stored for the content hash `sha`.
    pub fn get_file_annotation(&self, sha: &str) -> (r: Option<&str>)
        requires
            unique_keys(self@),
        ensures
            r.deep_view() == lookup(self@, sha@),
    {
        match key_index(&self.files, sha) {
            None => {
                proof {
                    lemma_lookup_absent(self@, sha@);
                }
                None
            },
            Some(i) => {
                proof {
                    lemma_lookup_at(self@, i as int);
                }
                Some(self.files[i].1.as_str())
            },
        }
    }
}

} // verus!
