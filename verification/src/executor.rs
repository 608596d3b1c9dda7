//! Execute a resolved query plan against the backend, with a single
//! broadening fallback: when a specific plan finds nothing, scan its whole
//! category once.

use vstd::prelude::*;
use crate::doc::{Document, DocView};
use crate::error::MemoryError;
use crate::nl::ResolvedQuery;
use crate::store::{
    MemoryBackend, spec_has_index, spec_items_map, spec_query, spec_query_index, views_of,
};

verus! {

/// The category any plan variant targets.
pub open spec fn q_category(q: ResolvedQuery) -> Seq<char> {
    match q {
        ResolvedQuery::IndexLookup { category, .. } => category@,
        ResolvedQuery::PartitionScan { category, .. } => category@,
        ResolvedQuery::ExactLookup { category, .. } => category@,
    }
}

/// A full-category scan with no key prefix: the broadest plan there is.
pub open spec fn unbounded_scan(q: ResolvedQuery) -> bool {
    q matches ResolvedQuery::PartitionScan { key_prefix: None, .. }
}

/// The index-lookup plan names an index the backend lacks.
pub open spec fn plan_index_missing(b: MemoryBackend, q: ResolvedQuery) -> bool {
    q matches ResolvedQuery::IndexLookup { index_name, .. } && !spec_has_index(
        b.indexes@,
        index_name@,
    )
}

/// The views of the items the plan itself yields.
pub open spec fn spec_plan_result(b: MemoryBackend, q: ResolvedQuery, limit: int) -> Seq<
    DocView,
> {
    match q {
        ResolvedQuery::ExactLookup { category, key } => {
            if spec_items_map(b.items@).dom().contains((category@, key@)) {
                seq![spec_items_map(b.items@)[(category@, key@)]]
            } else {
                Seq::empty()
            }
        },
        ResolvedQuery::PartitionScan { category, key_prefix } => views_of(
            spec_query(
                b.items@,
                category@,
                match key_prefix {
                    Some(p) => Some(p@),
                    None => None,
                },
                limit,
            ),
        ),
        ResolvedQuery::IndexLookup { category, index_name, key_value } => {
            let j = choose|j: int|
                0 <= j < b.indexes@.len() && (#[trigger] b.indexes@[j]).name@ == index_name@;
            views_of(spec_query_index(b.items@, b.indexes@[j], key_value@, limit))
        },
    }
}

/// The views the fallback scan yields: the plan's whole category.
pub open spec fn spec_fallback_result(b: MemoryBackend, q: ResolvedQuery, limit: int) -> Seq<
    DocView,
> {
    views_of(spec_query(b.items@, q_category(q), None, limit))
}

/// Execute the plan itself: exact lookup, partition scan, or index lookup.
pub fn execute_resolved_query(
    backend: &MemoryBackend,
    resolved: &ResolvedQuery,
    limit: usize,
) -> (r: Result<Vec<Document>, MemoryError>)
    requires
        backend.wf(),
    ensures
        plan_index_missing(*backend, *resolved) ==> (r matches Err(MemoryError::Index(_))),
        !plan_index_missing(*backend, *resolved) ==> (r matches Ok(v) && views_of(v@)
            == spec_plan_result(*backend, *resolved, limit as int)),
{
    match resolved {
        ResolvedQuery::IndexLookup { index_name, key_value, .. } => {
            let out = backend.query_index(index_name.as_str(), key_value.as_str(), Some(limit));
            proof {
                if !plan_index_missing(*backend, *resolved) {
                    let j = choose|j: int|
                        0 <= j < backend.indexes@.len() && (#[trigger] backend.indexes@[j]).name@
                            == index_name@;
                    match &out {
                        Ok(v) => {
                            let jj = choose|jj: int|
                                0 <= jj < backend.indexes@.len() && (
                                #[trigger] backend.indexes@[jj]).name@ == index_name@
                                    && views_of(v@) == views_of(
                                    spec_query_index(
                                        backend.items@,
                                        backend.indexes@[jj],
                                        key_value@,
                                        limit as int,
                                    ),
                                );
                            assert(backend.indexes@[j] == backend.indexes@[jj]);
                        },
                        Err(_) => {},
                    }
                }
            }
            out
        },
        ResolvedQuery::PartitionScan { category, key_prefix } => {
            match key_prefix {
                Some(p) => backend.query(category.as_str(), Some(p.as_str()), limit),
                None => backend.query(category.as_str(), None, limit),
            }
        },
        ResolvedQuery::ExactLookup { category, key } => {
            let mut out: Vec<Document> = Vec::new();
            match backend.get_item(category.as_str(), key.as_str()) {
                Some(d) => {
                    out.push(d);
                    proof {
                        assert(views_of(out@) =~= spec_plan_result(
                            *backend,
                            *resolved,
                            limit as int,
                        ));
                    }
                },
                None => {
                    proof {
                        assert(views_of(out@) =~= spec_plan_result(
                            *backend,
                            *resolved,
                            limit as int,
                        ));
                    }
                },
            }
            Ok(out)
        },
    }
}

/// Execute a plan, broadening once: when the plan yields nothing and was
/// not already an unbounded scan, scan its whole category. The second
/// component reports whether the broadened scan produced the result.
///
/// The fallback can run at most once, and never for a plan that is
/// already an unbounded partition scan.
pub fn execute_with_fallback(
    backend: &MemoryBackend,
    resolved: &ResolvedQuery,
    limit: usize,
) -> (r: Result<(Vec<Document>, bool), MemoryError>)
    requires
        backend.wf(),
    ensures
        plan_index_missing(*backend, *resolved) ==> (r matches Err(MemoryError::Index(_))),
        !plan_index_missing(*backend, *resolved) ==> (r matches Ok(p) && {
            let first = spec_plan_result(*backend, *resolved, limit as int);
            let fb = spec_fallback_result(*backend, *resolved, limit as int);
            &&& views_of(p.0@) == (if first.len() > 0 || unbounded_scan(*resolved) {
                first
            } else {
                fb
            })
            &&& p.1 == (first.len() == 0 && !unbounded_scan(*resolved) && fb.len() > 0)
        }),
{
    let items = match execute_resolved_query(backend, resolved, limit) {
        Ok(v) => v,
        Err(e) => {
            return Err(e);
        },
    };
    if items.len() > 0 {
        proof {
            assert(views_of(items@).len() == items@.len());
        }
        return Ok((items, false));
    }
    proof {
        assert(views_of(items@).len() == 0);
    }
    if let ResolvedQuery::PartitionScan { key_prefix: None, .. } = resolved {
        return Ok((items, false));
    }
    let category = match resolved {
        ResolvedQuery::IndexLookup { category, .. } => category,
        ResolvedQuery::PartitionScan { category, .. } => category,
        ResolvedQuery::ExactLookup { category, .. } => category,
    };
    let fallback_items = match backend.query(category.as_str(), None, limit) {
        Ok(v) => v,
        Err(e) => {
            return Err(e);
        },
    };
    let has_results = fallback_items.len() > 0;
    proof {
        assert(views_of(fallback_items@).len() == fallback_items@.len());
    }
    Ok((fallback_items, has_results))
}

/// The broadening fallback never fires for an unbounded partition scan,
/// whatever the store holds: the reported flag is false there.
pub proof fn lemma_no_broaden_on_unbounded(b: MemoryBackend, q: ResolvedQuery, limit: int)
    requires
        unbounded_scan(q),
    ensures
        !(spec_plan_result(b, q, limit).len() == 0 && !unbounded_scan(q)
            && spec_fallback_result(b, q, limit).len() > 0),
{
}

} // verus!
