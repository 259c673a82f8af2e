//! File summaries keyed by content hash: writing one for a file's current bytes, reading it
//! back while the file is unchanged, and listing the indexed files that have none.
use vstd::prelude::*;

use crate::annotations::by_content::AnnotationStore;
use crate::annotations::{key_index, lemma_lookup_absent, lemma_lookup_at, lookup, unique_keys, upsert};
use crate::cache::{join_path, join_path_exec};
use crate::hash::{blake3_hex, content_key};
use crate::order::{lemma_sorted_of, sort_strings, sorted_of};
use crate::text::{chars_of, contains_ci, lower_chars, lower_contains, owned};
use crate::tools::search::{rel_file, rel_file_spec};

verus! {

broadcast use {vstd::seq_lib::group_seq_properties, Seq::lemma_filter_push};

pub struct AnnotateParams {
    /// Relative file path as returned by other tools (e.g. "src/main.c")
    pub file: String,
    /// Human-readable summary of what this file does
    pub summary: String,
}

pub struct GetAnnotationParams {
    /// Relative file path as returned by other tools (e.g. "src/main.c")
    pub file: String,
}

pub struct ListUnannotatedFilesParams {
    /// Optional filename substring filter to narrow results (case-insensitive)
    pub filename_filter: Option<String>,
}

/// What `annotate` stored: the file and the content hash the summary is kept under.
pub struct AnnotateReceipt {
    pub file: String,
    pub sha: String,
}

/// Stores `params.summary` for the current content of `params.file`, whose bytes the caller
/// read as `contents`; the summary is kept under the BLAKE3 hash of those bytes.
pub fn annotate(store: &mut AnnotationStore, params: AnnotateParams, contents: &[u8]) -> (r: AnnotateReceipt)
    requires
        unique_keys(old(store)@),
    ensures
        unique_keys(final(store)@),
        r.file@ == params.file@,
        r.sha@ == blake3_hex(contents@),
        final(store)@ == upsert(old(store)@, r.sha@, params.summary@),
{
    let AnnotateParams { file, summary } = params;
    let sha = content_key(contents);
    store.upsert_file(sha.as_str(), summary);
    AnnotateReceipt { file, sha }
}

/// `rel` resolved against the directory `base` (an absolute `rel` stands for itself).
pub open spec fn resolve(base: Seq<char>, rel: Seq<char>) -> Seq<char> {
    if rel.len() > 0 && rel[0] == '/' {
        rel
    } else {
        join_path(base, rel)
    }
}

/// What is known of a file's summary.
pub enum AnnotationLookup {
    /// The file is not in the index
    NotIndexed,
    /// No summary for the file's indexed content
    Missing,
    /// The summary for the file's indexed content
    Found(String),
}

/// The summary stored for the indexed content of `params.file` (relative to `base`);
/// `file_shas` holds the content hash of each indexed file, by absolute path.
pub fn get_annotation(
    store: &AnnotationStore,
    file_shas: &Vec<(String, String)>,
    base: &str,
    params: GetAnnotationParams,
) -> (r: AnnotationLookup)
    requires
        unique_keys(store@),
        unique_keys(file_shas.deep_view()),
    ensures
        match lookup(file_shas.deep_view(), resolve(base@, params.file@)) {
            None => r is NotIndexed,
            Some(sha) => match lookup(store@, sha) {
                Some(s) => r matches AnnotationLookup::Found(x) && x@ == s,
                None => r is Missing,
            },
        },
{
    let fc = chars_of(params.file.as_str());
    let abs = if fc.len() > 0 && fc[0] == '/' {
        owned(params.file.as_str())
    } else {
        join_path_exec(base, params.file.as_str())
    };
    match key_index(file_shas, abs.as_str()) {
        None => {
            proof {
                lemma_lookup_absent(file_shas.deep_view(), abs@);
            }
            AnnotationLookup::NotIndexed
        },
        Some(i) => {
            proof {
                lemma_lookup_at(file_shas.deep_view(), i as int);
            }
            match store.get_file_annotation(file_shas[i].1.as_str()) {
                Some(s) => AnnotationLookup::Found(owned(s)),
                None => AnnotationLookup::Missing,
            }
        },
    }
}

/// The indexed files (relative to `base`) matching the filter that have no summary for their
/// indexed content.
pub open spec fn unannotated_rel(
    st: Seq<(Seq<char>, Seq<char>)>,
    shas: Seq<(Seq<char>, Seq<char>)>,
    base: Seq<char>,
    filter: Option<Seq<char>>,
) -> Seq<Seq<char>> {
    shas.filter(
        |e: (Seq<char>, Seq<char>)|
            (match filter {
                Some(f) => contains_ci(rel_file_spec(base, e.0), f),
                None => true,
            }) && lookup(st, e.1) is None,
    ).map_values(|e: (Seq<char>, Seq<char>)| rel_file_spec(base, e.0))
}

/// The indexed files without a summary for their indexed content, as paths relative to `base`,
/// sorted; `filename_filter` keeps those whose relative path contains it (ignoring case).
pub fn list_unannotated_files(
    store: &AnnotationStore,
    file_shas: &Vec<(String, String)>,
    base: &str,
    params: ListUnannotatedFilesParams,
) -> (r: Vec<String>)
    requires
        unique_keys(store@),
    ensures
        r.deep_view() == sorted_of(
            unannotated_rel(store@, file_shas.deep_view(), base@, params.filename_filter.deep_view()),
        ),
{
    let ghost fv = file_shas.deep_view();
    let ghost filt = params.filename_filter.deep_view();
    let ghost pred = |e: (Seq<char>, Seq<char>)|
        (match filt {
            Some(f) => contains_ci(rel_file_spec(base@, e.0), f),
            None => true,
        }) && lookup(store@, e.1) is None;
    let ghost relf = |e: (Seq<char>, Seq<char>)| rel_file_spec(base@, e.0);
    let q = match &params.filename_filter {
        Some(f) => lower_chars(f.as_str()),
        None => Vec::new(),
    };
    let mut missing: Vec<String> = Vec::new();
    let mut i: usize = 0;
    while i < file_shas.len()
        invariant
            i <= fv.len(),
            fv == file_shas.deep_view(),
            unique_keys(store@),
            filt == params.filename_filter.deep_view(),
            params.filename_filter matches Some(f) ==> q@ == crate::text::lowercase(f@),
            pred == (|e: (Seq<char>, Seq<char>)|
                (match filt {
                    Some(f) => contains_ci(rel_file_spec(base@, e.0), f),
                    None => true,
                }) && lookup(store@, e.1) is None),
            relf == (|e: (Seq<char>, Seq<char>)| rel_file_spec(base@, e.0)),
            missing.deep_view() == fv.take(i as int).filter(pred).map_values(relf),
        decreases fv.len() - i,
    {
        let rel = rel_file(base, file_shas[i].0.as_str());
        proof {
            assert(fv.take(i + 1) =~= fv.take(i as int).push(fv[i as int]));
        }
        let keep = match &params.filename_filter {
            Some(_) => lower_contains(rel.as_str(), &q),
            None => true,
        };
        if keep && store.get_file_annotation(file_shas[i].1.as_str()).is_none() {
            let ghost before = missing.deep_view();
            missing.push(rel);
            proof {
                assert(missing.deep_view() =~= before.push(relf(fv[i as int])));
            }
        }
        i += 1;
    }
    proof {
        assert(fv.take(fv.len() as int) =~= fv);
    }
    let ghost mv = missing.deep_view();
    let r = sort_strings(missing);
    proof {
        lemma_sorted_of(r.deep_view(), mv);
    }
    r
}

} // verus!
