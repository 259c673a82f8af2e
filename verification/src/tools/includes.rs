//! `#include` lookups in either direction: what files matching a name include, or which files
//! include a matching header.
use vstd::prelude::*;

use crate::graph::call_graph::{includers_of, CallGraph};
use crate::graph::paths::path_le;
use crate::graph::types::{IncludeEdge, IncludeEdgeV};
use crate::server::tools::includes::{by_path, files_matching};
use crate::text::{owned, push_str, str_eq};

verus! {

broadcast use vstd::seq_lib::group_seq_properties;

pub struct IncludesParams {
    /// Search term: filename substring (outbound) or header name substring (inbound)
    pub target: String,
    /// "outbound" — list #includes in files matching target; "inbound" — find files that
    /// #include target header
    pub direction: String,
}

/// The include entries found, by direction.
pub enum IncludesAnswer<'a> {
    /// The include lists of the files matching the target, ordered by path
    Outbound(Vec<&'a (String, Vec<IncludeEdge>)>),
    /// The directives naming a matching header, with the including file, ordered by file
    Inbound(Vec<(&'a String, &'a IncludeEdge)>),
}

/// Follows `#include` directives out of the files matching `params.target` ("outbound") or
/// into the headers matching it ("inbound").
pub fn includes<'a>(graph: &'a CallGraph, params: IncludesParams) -> (r: Result<IncludesAnswer<'a>, String>)
    ensures
        params.direction@ == "outbound"@ ==> ({
            let m = files_matching(graph@.includes, params.target@);
            if m.len() == 0 {
                r matches Err(e) && e@ == "No indexed files matching '"@ + params.target@ + "'"@
            } else {
                r matches Ok(IncludesAnswer::Outbound(v)) && v.deep_view().to_multiset() == m.to_multiset() && by_path(
                    v.deep_view(),
                )
            }
        }),
        params.direction@ == "inbound"@ ==> ({
            let m = includers_of(graph@.includes, params.target@);
            if m.len() == 0 {
                r matches Err(e) && e@ == "No files include '"@ + params.target@ + "'"@
            } else {
                r matches Ok(IncludesAnswer::Inbound(v)) && v.deep_view().to_multiset() == m.to_multiset() && by_path(
                    v.deep_view(),
                )
            }
        }),
        params.direction@ != "outbound"@ && params.direction@ != "inbound"@ ==> (r matches Err(e) && e@
            == "direction must be 'outbound' or 'inbound', got '"@ + params.direction@ + "'"@),
{
    let IncludesParams { target, direction } = params;
    proof {
        reveal_strlit("outbound");
        reveal_strlit("inbound");
    }
    if str_eq(direction.as_str(), "outbound") {
        let v = graph.get_includes(target.as_str());
        proof {
            assert(v.deep_view().to_multiset().len() == v.deep_view().len());
            assert(files_matching(graph@.includes, target@).to_multiset().len() == files_matching(graph@.includes, target@).len());
        }
        if v.len() == 0 {
            let mut e = owned("No indexed files matching '");
            push_str(&mut e, target.as_str());
            push_str(&mut e, "'");
            return Err(e);
        }
        Ok(IncludesAnswer::Outbound(v))
    } else if str_eq(direction.as_str(), "inbound") {
        proof {
            assert("inbound"@ != "outbound"@) by {
                assert("inbound"@.len() != "outbound"@.len());
            }
        }
        let v = graph.get_includers(target.as_str());
        proof {
            assert(v.deep_view().to_multiset().len() == v.deep_view().len());
            assert(includers_of(graph@.includes, target@).to_multiset().len() == includers_of(graph@.includes, target@).len());
        }
        if v.len() == 0 {
            let mut e = owned("No files include '");
            push_str(&mut e, target.as_str());
            push_str(&mut e, "'");
            return Err(e);
        }
        Ok(IncludesAnswer::Inbound(v))
    } else {
        let mut e = owned("direction must be 'outbound' or 'inbound', got '");
        push_str(&mut e, direction.as_str());
        push_str(&mut e, "'");
        Err(e)
    }
}

} // verus!
