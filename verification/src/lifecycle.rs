//! Lifecycle operations: composing the final document of a write, with
//! TTL policy applied; promotion from short-term to long-term memory; and
//! pruning of expired items.

use vstd::prelude::*;
use vstd::string::StringExecFns;
use crate::doc::{AttrValue, Document, DocView, JsonVal, spec_get_attr, spec_has_attr};
use crate::error::MemoryError;
use crate::store::{
    MemoryBackend, PartitionSchemaInfo, doc_cat, doc_key, doc_matches_query, item_keyed,
    no_dup_pairs, pair_of, spec_all_predefined_present, spec_attr_str, spec_cat_filter, spec_items_map,
    spec_query, views_of, distinct_views, tokens_sound,
};
use crate::text::str_eq;
use crate::time::rfc3339_epoch_of;
use crate::ttl::{
    category_default_ttl, compute_expires_at, parse_ttl, spec_is_expired, spec_ttl_ok,
    auto_ttl_from_date, is_expired_at,
};
use crate::time::now_epoch_seconds;

verus! {

/// The attributes carried over into a stored item: everything but the
/// system-managed names (and, when an expiry is being stamped, any caller
/// `expires_at`).
pub open spec fn keep_store_attr(p: (Seq<char>, JsonVal), stamping_expiry: bool) -> bool {
    p.0 != "category"@ && p.0 != "key"@ && p.0 != "created_at"@ && (stamping_expiry ==> p.0
        != "expires_at"@)
}

/// The final document of a write: identity first, the caller's attributes,
/// then the stamped timestamps.
pub open spec fn spec_composed_item(
    category: Seq<char>,
    key: Seq<char>,
    attrs: DocView,
    created: Seq<char>,
    expires: Option<Seq<char>>,
) -> DocView {
    seq![
        ("category"@, JsonVal::Str(category)),
        ("key"@, JsonVal::Str(key)),
    ] + attrs.filter(|p: (Seq<char>, JsonVal)| keep_store_attr(p, expires is Some)) + seq![
        ("created_at"@, JsonVal::Str(created)),
    ] + (match expires {
        Some(e) => seq![("expires_at"@, JsonVal::Str(e))],
        None => Seq::<(Seq<char>, JsonVal)>::empty(),
    })
}

/// Compose the stored document from its parts.
fn compose_item(
    category: &str,
    key: &str,
    attrs: &Document,
    created: String,
    expires: Option<String>,
) -> (r: Document)
    ensures
        r@ == spec_composed_item(
            category@,
            key@,
            attrs@,
            created@,
            match expires {
                Some(e) => Some(e@),
                None => None,
            },
        ),
{
    let ghost expires_view: Option<Seq<char>> = match &expires {
        Some(e) => Some(e@),
        None => None,
    };
    let stamping = expires.is_some();
    let mut d = Document::new();
    d.push_attr(String::from_str("category"), AttrValue::Str(String::from_str(category)));
    d.push_attr(String::from_str("key"), AttrValue::Str(String::from_str(key)));
    proof {
        assert(d@ =~= seq![
            ("category"@, JsonVal::Str(category@)),
            ("key"@, JsonVal::Str(key@)),
        ]);
    }
    let ghost head = d@;
    let n = attrs.len();
    let mut i: usize = 0;
    proof {
        assert(attrs@.subrange(0, 0) =~= Seq::<(Seq<char>, JsonVal)>::empty());
        assert(d@ =~= head + attrs@.subrange(0, 0).filter(
            |p: (Seq<char>, JsonVal)| keep_store_attr(p, expires_view is Some),
        ));
    }
    while i < n
        invariant
            n == attrs@.len(),
            i <= n,
            stamping == (expires_view is Some),
            d@ == head + attrs@.subrange(0, i as int).filter(
                |p: (Seq<char>, JsonVal)| keep_store_attr(p, expires_view is Some),
            ),
        decreases n - i,
    {
        let ghost prev = attrs@.subrange(0, i as int);
        let (name, value) = attrs.pair_at(i);
        proof {
            assert(attrs@.subrange(0, i + 1) =~= prev.push(attrs@[i as int]));
            reveal_with_fuel(Seq::filter, 2);
            assert(prev.push(attrs@[i as int]).drop_last() =~= prev);
        }
        let keep = !(str_eq(name.as_str(), "category") || str_eq(name.as_str(), "key")
            || str_eq(name.as_str(), "created_at") || (stamping && str_eq(
            name.as_str(),
            "expires_at",
        )));
        if keep {
            d.push_attr(name, value);
            proof {
                assert((name@, value@) == attrs@[i as int]);
                assert(d@ =~= head + attrs@.subrange(0, i + 1).filter(
                    |p: (Seq<char>, JsonVal)| keep_store_attr(p, expires_view is Some),
                ));
            }
        } else {
            proof {
                assert(d@ =~= head + attrs@.subrange(0, i + 1).filter(
                    |p: (Seq<char>, JsonVal)| keep_store_attr(p, expires_view is Some),
                ));
            }
        }
        i = i + 1;
    }
    proof {
        assert(attrs@.subrange(0, n as int) =~= attrs@);
    }
    d.push_attr(String::from_str("created_at"), AttrValue::Str(created));
    match expires {
        Some(e) => {
            d.push_attr(String::from_str("expires_at"), AttrValue::Str(e));
            proof {
                assert(d@ =~= spec_composed_item(
                    category@,
                    key@,
                    attrs@,
                    created@,
                    expires_view,
                ));
            }
        },
        None => {
            proof {
                assert(d@ =~= spec_composed_item(
                    category@,
                    key@,
                    attrs@,
                    created@,
                    expires_view,
                ));
            }
        },
    }
    d
}

/// How the stamped document relates to its inputs under the TTL policy:
/// an explicit TTL, or a category default, stamps some parseable expiry;
/// an `events` date stamps the end of that day; otherwise nothing is
/// stamped and any caller expiry stands.
pub open spec fn spec_store_policy(
    category: Seq<char>,
    key: Seq<char>,
    attrs: DocView,
    ttl: Option<Seq<char>>,
    d: DocView,
    created: Seq<char>,
) -> bool {
    let stamped = exists|e: Seq<char>|
        rfc3339_epoch_of(e) is Some && d == spec_composed_item(
            category,
            key,
            attrs,
            created,
            Some(e),
        );
    match ttl {
        Some(_) => stamped,
        None => {
            if category == "scratchpad"@ || category == "sessions"@ || category
                == "interactions"@ {
                stamped
            } else if category == "events"@ {
                match spec_attr_str(attrs, "date"@) {
                    Some(ds) => match crate::ttl::spec_parse_ymd(ds) {
                        Some(ymd) => if crate::time::spec_valid_ymd(ymd.0, ymd.1, ymd.2) {
                            d == spec_composed_item(
                                category,
                                key,
                                attrs,
                                created,
                                Some(crate::time::end_of_day_utc_of(ymd.0, ymd.1, ymd.2)),
                            )
                        } else {
                            d == spec_composed_item(category, key, attrs, created, None)
                        },
                        None => d == spec_composed_item(category, key, attrs, created, None),
                    },
                    _ => d == spec_composed_item(category, key, attrs, created, None),
                }
            } else {
                d == spec_composed_item(category, key, attrs, created, None)
            }
        },
    }
}

/// Build the final document of a write: start from `{category, key}`,
/// copy the caller's attributes, stamp a fresh `created_at`, and apply the
/// TTL policy: explicit TTL first, then the category defaults, then an
/// `events` date, else no expiry.
pub fn build_store_item(
    category: &str,
    key: &str,
    attributes: &Document,
    ttl: Option<&str>,
) -> (r: Result<Document, MemoryError>)
    ensures
        r is Err <==> (ttl matches Some(t) && !spec_ttl_ok(t@)),
        r is Err ==> r matches Err(MemoryError::InvalidParams(_)),
        r matches Ok(d) ==> exists|created: Seq<char>|
            rfc3339_epoch_of(created) is Some && spec_store_policy(
                category@,
                key@,
                attributes@,
                match ttl {
                    Some(t) => Some(t@),
                    None => None,
                },
                d@,
                created,
            ),
{
    let expires: Option<String> = match ttl {
        Some(t) => match parse_ttl(t) {
            Ok(dur) => Some(compute_expires_at(dur)),
            Err(e) => {
                return Err(MemoryError::InvalidParams(e));
            },
        },
        None => match category_default_ttl(category) {
            Some(dur) => {
                proof {
                    assert(dur.wf());
                }
                Some(compute_expires_at(dur))
            },
            None => if str_eq(category, "events") {
                auto_ttl_from_date(attributes)
            } else {
                None
            },
        },
    };
    let created = crate::time::rfc3339_seconds_from_now(0);
    let ghost created_view = created@;
    let d = compose_item(category, key, attributes, created, expires);
    proof {
        assert(spec_store_policy(
            category@,
            key@,
            attributes@,
            match ttl {
                Some(t) => Some(t@),
                None => None,
            },
            d@,
            created_view,
        ));
    }
    Ok(d)
}

/// What a same-category promotion stores: the item with its expiry gone
/// and a fresh `created_at`.
pub open spec fn spec_promoted_same(item: DocView, created: Seq<char>) -> DocView {
    item.filter(
        |p: (Seq<char>, JsonVal)| p.0 != "expires_at"@ && p.0 != "created_at"@,
    ).push(("created_at"@, JsonVal::Str(created)))
}

/// The promoted document carries no expiry.
pub proof fn lemma_promoted_has_no_expiry(item: DocView, created: Seq<char>)
    ensures
        !spec_has_attr(spec_promoted_same(item, created), "expires_at"@),
{
    broadcast use vstd::seq_lib::group_filter_ensures;

    let p = spec_promoted_same(item, created);
    reveal_strlit("expires_at");
    reveal_strlit("created_at");
    assert("created_at"@[0] == 'c');
    assert("expires_at"@[0] == 'e');
    let inner = item.filter(
        |q: (Seq<char>, JsonVal)| q.0 != "expires_at"@ && q.0 != "created_at"@,
    );
    assert forall|i: int| 0 <= i < p.len() implies p[i].0 != "expires_at"@ by {
        if i < p.len() - 1 {
            assert(p[i] == inner[i]);
            assert(inner[i].0 != "expires_at"@);
        } else {
            assert(p[i].0 == "created_at"@);
        }
    }
}

/// Promote a memory: load it, strip its expiry, stamp a fresh
/// `created_at`, and store it back; with a target category, store the
/// moved copy under the target and delete the original.
///
/// After a same-category promotion the item stored under the key carries
/// no `expires_at`.
pub fn promote_item(
    backend: &mut MemoryBackend,
    category: &str,
    key: &str,
    to_category: Option<&str>,
) -> (r: Result<(), MemoryError>)
    requires
        old(backend).wf(),
    ensures
        final(backend).wf(),
        final(backend).schemas@ == old(backend).schemas@,
        final(backend).indexes@ == old(backend).indexes@,
        final(backend).table_name@ == old(backend).table_name@,
        r is Ok <==> spec_items_map(old(backend).items@).dom().contains((category@, key@)),
        r is Err ==> final(backend).items@ == old(backend).items@ && r matches Err(
            MemoryError::InvalidParams(_),
        ),
        r is Ok && (match to_category {
            Some(t) => t@ == category@,
            None => true,
        }) ==> exists|created: Seq<char>|
            rfc3339_epoch_of(created) is Some && spec_items_map(final(backend).items@)
                == spec_items_map(old(backend).items@).insert(
                (category@, key@),
                spec_promoted_same(
                    spec_items_map(old(backend).items@)[(category@, key@)],
                    created,
                ),
            ),
        r is Ok && (to_category matches Some(t) && t@ != category@) ==> exists|
            created: Seq<char>,
        |
            rfc3339_epoch_of(created) is Some && spec_items_map(final(backend).items@)
                == spec_items_map(old(backend).items@).insert(
                (
                    (match to_category {
                        Some(t) => t@,
                        None => category@,
                    }),
                    key@,
                ),
                spec_composed_item(
                    match to_category {
                        Some(t) => t@,
                        None => category@,
                    },
                    key@,
                    crate::doc::spec_remove_attr(
                        spec_items_map(old(backend).items@)[(category@, key@)],
                        "expires_at"@,
                    ),
                    created,
                    None,
                ),
            ).remove((category@, key@)),
{
    proof {
        reveal_strlit("category");
        reveal_strlit("key");
        reveal_strlit("created_at");
        reveal_strlit("expires_at");
        assert("category"@.len() == 8);
        assert("key"@.len() == 3);
        assert("created_at"@.len() == 10);
        assert("expires_at"@.len() == 10);
        assert("created_at"@[0] == 'c');
        assert("expires_at"@[0] == 'e');
    }
    let ghost olditems = backend.items@;
    let item = match backend.get_item(category, key) {
        Some(i) => i,
        None => {
            return Err(MemoryError::InvalidParams(String::from_str("memory not found")));
        },
    };
    proof {
        crate::store::lemma_sorted_no_dup(olditems);
        crate::store::lemma_items_map_dom(olditems, (category@, key@));
        let i = choose|i: int|
            0 <= i < olditems.len() && pair_of((#[trigger] olditems[i])@) == (category@, key@);
        crate::store::lemma_items_map_index(olditems, i);
        assert(item@ == olditems[i]@);
        assert(pair_of(item@) == (category@, key@));
        assert(item_keyed(item@));
    }
    let same = match to_category {
        Some(t) => str_eq(t, category),
        None => true,
    };
    let created = crate::time::rfc3339_seconds_from_now(0);
    let ghost created_view = created@;
    if same {
        let base = item.without_attrs("expires_at", "created_at");
        let mut promoted = base;
        promoted.push_attr(String::from_str("created_at"), AttrValue::Str(created));
        proof {
            assert(promoted@ == spec_promoted_same(item@, created_view));
            lemma_get_attr_push_other(base@, "created_at"@, created_view, "category"@);
            lemma_get_attr_push_other(base@, "created_at"@, created_view, "key"@);
            assert(spec_get_attr(base@, "category"@) == spec_get_attr(item@, "category"@));
            assert(spec_get_attr(base@, "key"@) == spec_get_attr(item@, "key"@));
            assert(promoted@ == base@.push(("created_at"@, JsonVal::Str(created_view))));
            assert(doc_cat(promoted@) == category@);
            assert(doc_key(promoted@) == key@);
            assert(item_keyed(promoted@));
        }
        match backend.put_item(promoted) {
            Ok(()) => Ok(()),
            Err(e) => {
                proof {
                    assert(false);
                }
                Err(e)
            },
        }
    } else {
        // Move: compose the copy under the target category, store it, and
        // delete the original.
        let target = match to_category {
            Some(t) => t,
            None => {
                proof {
                    assert(false);
                }
                category
            },
        };
        let cleaned = item.without_attr("expires_at");
        let moved = compose_item(target, key, &cleaned, created, None);
        proof {
            let m = moved@;
            assert(m[0] == ("category"@, JsonVal::Str(target@)));
            assert(m[1] == ("key"@, JsonVal::Str(key@)));
            assert(spec_get_attr(m, "category"@) == Some(JsonVal::Str(target@)));
            assert(m.drop_first()[0] == m[1]);
            assert(spec_get_attr(m, "key"@) == spec_get_attr(m.drop_first(), "key"@));
            assert(spec_get_attr(m.drop_first(), "key"@) == Some(JsonVal::Str(key@)));
            assert(doc_cat(m) == target@);
            assert(doc_key(m) == key@);
            assert(item_keyed(m));
        }
        match backend.put_item(moved) {
            Ok(()) => {},
            Err(e) => {
                proof {
                    assert(false);
                }
                return Err(e);
            },
        }
        match backend.delete_item(category, key) {
            Ok(()) => Ok(()),
            Err(e) => {
                proof {
                    assert(false);
                }
                Err(e)
            },
        }
    }
}

/// Store a re-categorization driven by the schema-directed parse: the
/// caller parses the item's content against the target category's schema
/// and hands the parsed document here. The parsed document is stored
/// under the target category (and its own `key`, when it names one, else
/// the old key), with a fresh `created_at` and no expiry; the original
/// item is deleted.
pub fn promote_parsed(
    backend: &mut MemoryBackend,
    category: &str,
    key: &str,
    to_category: &str,
    parsed: &Document,
) -> (r: Result<(), MemoryError>)
    requires
        old(backend).wf(),
        to_category@ != category@,
    ensures
        final(backend).wf(),
        final(backend).schemas@ == old(backend).schemas@,
        final(backend).indexes@ == old(backend).indexes@,
        final(backend).table_name@ == old(backend).table_name@,
        r is Ok <==> spec_items_map(old(backend).items@).dom().contains((category@, key@)),
        r is Err ==> final(backend).items@ == old(backend).items@ && r matches Err(
            MemoryError::InvalidParams(_),
        ),
        r is Ok ==> exists|created: Seq<char>|
            rfc3339_epoch_of(created) is Some && spec_items_map(final(backend).items@)
                == spec_items_map(old(backend).items@).insert(
                (
                    to_category@,
                    match spec_attr_str(parsed@, "key"@) {
                        Some(k2) => k2,
                        None => key@,
                    },
                ),
                spec_composed_item(
                    to_category@,
                    match spec_attr_str(parsed@, "key"@) {
                        Some(k2) => k2,
                        None => key@,
                    },
                    crate::doc::spec_remove_attr(parsed@, "expires_at"@),
                    created,
                    None,
                ),
            ).remove((category@, key@)),
{
    match backend.get_item(category, key) {
        Some(_) => {},
        None => {
            return Err(MemoryError::InvalidParams(String::from_str("memory not found")));
        },
    }
    let new_key = match parsed.get_str("key") {
        Some(k2) => k2,
        None => String::from_str(key),
    };
    let created = crate::time::rfc3339_seconds_from_now(0);
    let ghost created_view = created@;
    let cleaned = parsed.without_attr("expires_at");
    let moved = compose_item(to_category, new_key.as_str(), &cleaned, created, None);
    proof {
        reveal_strlit("category");
        reveal_strlit("key");
        assert("category"@.len() == 8);
        assert("key"@.len() == 3);
        let m = moved@;
        assert(m[0] == ("category"@, JsonVal::Str(to_category@)));
        assert(m[1] == ("key"@, JsonVal::Str(new_key@)));
        assert(spec_get_attr(m, "category"@) == Some(JsonVal::Str(to_category@)));
        assert(m.drop_first()[0] == m[1]);
        assert(spec_get_attr(m, "key"@) == spec_get_attr(m.drop_first(), "key"@));
        assert(spec_get_attr(m.drop_first(), "key"@) == Some(JsonVal::Str(new_key@)));
        assert(doc_cat(m) == to_category@);
        assert(doc_key(m) == new_key@);
        assert(item_keyed(m));
    }
    match backend.put_item(moved) {
        Ok(()) => {},
        Err(e) => {
            proof {
                assert(false);
            }
            return Err(e);
        },
    }
    match backend.delete_item(category, key) {
        Ok(()) => Ok(()),
        Err(e) => {
            proof {
                assert(false);
            }
            Err(e)
        },
    }
}

/// A pushed attribute of another name does not change a lookup.
proof fn lemma_get_attr_push_other(d: DocView, pushed: Seq<char>, v: Seq<char>, name: Seq<char>)
    requires
        pushed != name,
    ensures
        spec_get_attr(d.push((pushed, JsonVal::Str(v))), name) == spec_get_attr(d, name),
    decreases d.len(),
{
    let e = (pushed, JsonVal::Str(v));
    if d.len() == 0 {
        reveal_with_fuel(spec_get_attr, 3);
        assert(d.push(e)[0] == e);
        assert(d.push(e).drop_first() =~= Seq::<(Seq<char>, JsonVal)>::empty());
        assert(spec_get_attr(d.push(e), name) is None);
    } else {
        assert(d.push(e)[0] == d[0]);
        assert(d.push(e).drop_first() =~= d.drop_first().push(e));
        lemma_get_attr_push_other(d.drop_first(), pushed, v, name);
    }
}


/// Nothing was invented and nothing alive was lost: the new contents are
/// a sub-map of the old, and every item not yet expired at the moment
/// survives unchanged.
pub open spec fn spec_prune_ok(
    oldm: Map<(Seq<char>, Seq<char>), DocView>,
    newm: Map<(Seq<char>, Seq<char>), DocView>,
    now: int,
) -> bool {
    &&& forall|p: (Seq<char>, Seq<char>)|
        #[trigger] newm.dom().contains(p) ==> oldm.dom().contains(p) && newm[p] == oldm[p]
    &&& forall|p: (Seq<char>, Seq<char>)|
        #[trigger] oldm.dom().contains(p) && !spec_is_expired(oldm[p], now) ==> newm.dom().contains(
            p,
        ) && newm[p] == oldm[p]
}

/// The document is one of the category's first-thousand query window.
pub open spec fn spec_in_target_window(items: Seq<Document>, cat: Seq<char>, d: DocView) -> bool {
    exists|j: int|
        0 <= j < spec_query(items, cat, None, 1000).len() && (#[trigger] spec_query(
            items,
            cat,
            None,
            1000,
        )[j])@ == d
}

/// Every pair the prune removed held a document lying in some target
/// category's first-thousand query window: nothing outside the queried
/// windows is touched.
pub open spec fn spec_prune_scoped(
    items: Seq<Document>,
    targets: Seq<Seq<char>>,
    oldm: Map<(Seq<char>, Seq<char>), DocView>,
    newm: Map<(Seq<char>, Seq<char>), DocView>,
) -> bool {
    forall|p: (Seq<char>, Seq<char>)|
        #[trigger] oldm.dom().contains(p) && !newm.dom().contains(p) ==> exists|tt: int|
            0 <= tt < targets.len() && spec_in_target_window(items, #[trigger] targets[tt], oldm[p])
}

/// The target category names of a prune call: the one given category, or
/// every schema prefix.
pub open spec fn spec_prune_targets(
    category: Option<&str>,
    schemas: Seq<PartitionSchemaInfo>,
) -> Seq<Seq<char>> {
    match category {
        Some(c) => seq![c@],
        None => crate::store::spec_schema_prefixes(schemas),
    }
}

/// Every item of the category's first-thousand query window that is
/// expired at the moment is absent from the map.
pub open spec fn spec_prune_target(
    items: Seq<Document>,
    cat: Seq<char>,
    now: int,
    m: Map<(Seq<char>, Seq<char>), DocView>,
) -> bool {
    forall|j: int|
        0 <= j < spec_query(items, cat, None, 1000).len() && spec_is_expired(
            (#[trigger] spec_query(items, cat, None, 1000)[j])@,
            now,
        ) ==> !m.dom().contains(pair_of(spec_query(items, cat, None, 1000)[j]@))
}

/// Delete the items expired at a given moment in one category, or in
/// every category with a schema. Returns how many were deleted: exactly
/// the shrinkage of the stored map. Only items expired at the moment are
/// deleted, every item not yet expired survives unchanged, every expired
/// item within each target category's first-thousand query window is gone
/// afterwards, and nothing outside those queried windows is touched.
pub fn prune_expired_at(backend: &mut MemoryBackend, category: Option<&str>, now: i64) -> (r:
    Result<usize, MemoryError>)
    requires
        old(backend).wf(),
    ensures
        final(backend).wf(),
        final(backend).schemas@ == old(backend).schemas@,
        final(backend).indexes@ == old(backend).indexes@,
        final(backend).table_name@ == old(backend).table_name@,
        r matches Ok(n) && n as int == spec_items_map(old(backend).items@).dom().len()
            - spec_items_map(final(backend).items@).dom().len(),
        spec_prune_ok(
            spec_items_map(old(backend).items@),
            spec_items_map(final(backend).items@),
            now as int,
        ),
        spec_prune_scoped(
            old(backend).items@,
            spec_prune_targets(category, old(backend).schemas@),
            spec_items_map(old(backend).items@),
            spec_items_map(final(backend).items@),
        ),
        match category {
            Some(c) => spec_prune_target(
                old(backend).items@,
                c@,
                now as int,
                spec_items_map(final(backend).items@),
            ),
            None => forall|s: int|
                0 <= s < old(backend).schemas@.len() ==> spec_prune_target(
                    old(backend).items@,
                    (#[trigger] old(backend).schemas@[s]).prefix@,
                    now as int,
                    spec_items_map(final(backend).items@),
                ),
        },
{
    let total_items = backend.items.len();
    let ghost old_items = backend.items@;
    let ghost oldm = spec_items_map(old_items);
    proof {
        crate::store::lemma_items_map_size(old_items);
        crate::store::lemma_sorted_no_dup(old_items);
    }
    let mut targets: Vec<String> = Vec::new();
    match category {
        Some(c) => {
            targets.push(String::from_str(c));
        },
        None => {
            let m = backend.schemas.len();
            let mut i: usize = 0;
            while i < m
                invariant
                    m == backend.schemas@.len(),
                    i <= m,
                    targets@.len() == i,
                    forall|j: int|
                        0 <= j < i ==> (#[trigger] targets@[j])@ == backend.schemas@[j].prefix@,
                decreases m - i,
            {
                targets.push(backend.schemas[i].prefix.clone());
                i = i + 1;
            }
        },
    }
    proof {
        // Distinct target names: one given category, or the schema
        // prefixes, which the invariant keeps distinct.
        assert forall|x: int, y: int|
            0 <= x < y < targets@.len() implies (#[trigger] targets@[x])@ != (
        #[trigger] targets@[y])@ by {
            assert(backend.schemas@[x].prefix@ != backend.schemas@[y].prefix@);
        }
        // The target names, as views, are exactly the prune targets.
        assert(crate::nl::str_views(targets@) =~= spec_prune_targets(
            category,
            old(backend).schemas@,
        ));
    }
    let mut count: usize = 0;
    let tn = targets.len();
    let mut t: usize = 0;
    while t < tn
        invariant
            backend.wf(),
            tn == targets@.len(),
            t <= tn,
            backend.schemas@ == old(backend).schemas@,
            backend.indexes@ == old(backend).indexes@,
            backend.table_name@ == old(backend).table_name@,
            old_items == old(backend).items@,
            oldm == spec_items_map(old_items),
            no_dup_pairs(old_items),
            oldm.dom().finite(),
            oldm.dom().len() <= total_items,
            total_items == old_items.len(),
            spec_prune_ok(oldm, spec_items_map(backend.items@), now as int),
            crate::nl::str_views(targets@) == spec_prune_targets(category, old(backend).schemas@),
            spec_prune_scoped(
                old_items,
                spec_prune_targets(category, old(backend).schemas@),
                oldm,
                spec_items_map(backend.items@),
            ),
            count as int == oldm.dom().len() - spec_items_map(backend.items@).dom().len(),
            forall|tt: int|
                0 <= tt < t ==> spec_prune_target(
                    old_items,
                    (#[trigger] targets@[tt])@,
                    now as int,
                    spec_items_map(backend.items@),
                ),
            forall|tt: int|
                t <= tt < tn ==> spec_cat_filter(backend.items@, (#[trigger] targets@[tt])@, None)
                    == spec_cat_filter(old_items, (#[trigger] targets@[tt])@, None),
            forall|x: int, y: int|
                0 <= x < y < tn ==> (#[trigger] targets@[x])@ != (#[trigger] targets@[y])@,
        decreases tn - t,
    {
        let cat = targets[t].clone();
        let ghost entry_items = backend.items@;
        let items = match backend.query(cat.as_str(), None, 1000) {
            Ok(v) => v,
            Err(e) => {
                proof {
                    assert(false);
                }
                return Err(e);
            },
        };
        let ghost window = spec_query(old_items, cat@, None, 1000);
        proof {
            assert(cat@ == targets@[t as int]@);
            assert(spec_cat_filter(entry_items, cat@, None) == spec_cat_filter(
                old_items,
                cat@,
                None,
            ));
            assert(spec_query(entry_items, cat@, None, 1000) == window);
            assert(views_of(items@) == views_of(window));
            assert(views_of(items@).len() == items@.len());
            assert(views_of(window).len() == window.len());
            assert(items@.len() == window.len());
        }
        let kn = items.len();
        let mut k: usize = 0;
        while k < kn
            invariant
                backend.wf(),
                backend.schemas@ == old(backend).schemas@,
                backend.indexes@ == old(backend).indexes@,
                backend.table_name@ == old(backend).table_name@,
                kn == items@.len(),
                k <= kn,
                old_items == old(backend).items@,
                oldm == spec_items_map(old_items),
                no_dup_pairs(old_items),
                oldm.dom().finite(),
                oldm.dom().len() <= total_items,
                total_items == old_items.len(),
                tn == targets@.len(),
                t < tn,
                cat@ == targets@[t as int]@,
                window == spec_query(old_items, cat@, None, 1000),
                views_of(items@) == views_of(window),
                kn == window.len(),
                spec_prune_ok(oldm, spec_items_map(backend.items@), now as int),
                crate::nl::str_views(targets@) == spec_prune_targets(
                    category,
                    old(backend).schemas@,
                ),
                spec_prune_scoped(
                    old_items,
                    spec_prune_targets(category, old(backend).schemas@),
                    oldm,
                    spec_items_map(backend.items@),
                ),
                count as int == oldm.dom().len() - spec_items_map(backend.items@).dom().len(),
                forall|tt: int|
                    0 <= tt < t ==> spec_prune_target(
                        old_items,
                        (#[trigger] targets@[tt])@,
                        now as int,
                        spec_items_map(backend.items@),
                    ),
                forall|tt: int|
                    t < tt < tn ==> spec_cat_filter(
                        backend.items@,
                        (#[trigger] targets@[tt])@,
                        None,
                    ) == spec_cat_filter(old_items, (#[trigger] targets@[tt])@, None),
                forall|x: int, y: int|
                    0 <= x < y < tn ==> (#[trigger] targets@[x])@ != (#[trigger] targets@[y])@,
                forall|j: int|
                    0 <= j < k && spec_is_expired((#[trigger] window[j])@, now as int)
                        ==> !spec_items_map(backend.items@).dom().contains(
                        pair_of(window[j]@),
                    ),
            decreases kn - k,
        {
            proof {
                broadcast use vstd::seq_lib::group_filter_ensures;

                assert(views_of(items@)[k as int] == items@[k as int]@);
                assert(views_of(window)[k as int] == window[k as int]@);
                assert(items@[k as int]@ == window[k as int]@);
                let f = spec_cat_filter(old_items, cat@, None);
                if f.len() <= 1000 {
                    assert(window[k as int] == f[k as int]);
                } else {
                    assert(window[k as int] == f.take(1000)[k as int]);
                    assert(f.take(1000)[k as int] == f[k as int]);
                }
                assert(doc_matches_query(window[k as int], cat@, None));
            }
            let expired = is_expired_at(&items[k], now);
            if expired {
                let icat = items[k].get_str("category");
                let ikey = items[k].get_str("key");
                match (icat, ikey) {
                    (Some(c), Some(y)) => {
                        proof {
                            assert((c@, y@) == pair_of(window[k as int]@));
                        }
                        let ghost before_items = backend.items@;
                        let ghost beforem = spec_items_map(before_items);
                        match backend.get_item(c.as_str(), y.as_str()) {
                            Some(cur) => {
                                proof {
                                    // The stored value equals the old
                                    // value, which is the window element,
                                    // so it too is expired at this moment.
                                    assert(beforem.dom().contains((c@, y@)));
                                    assert(oldm.dom().contains((c@, y@)) && beforem[(c@, y@)]
                                        == oldm[(c@, y@)]);
                                    crate::store::lemma_cat_filter_elem(
                                        old_items,
                                        cat@,
                                        None,
                                        k as int,
                                    );
                                    let i0 = choose|i: int|
                                        0 <= i < old_items.len() && #[trigger] old_items[i]
                                            == spec_cat_filter(old_items, cat@, None)[k as int];
                                    crate::store::lemma_items_map_index(old_items, i0);
                                    assert(oldm[(c@, y@)] == window[k as int]@);
                                    assert(spec_is_expired(cur@, now as int));
                                }
                                if is_expired_at(&cur, now) {
                                    match backend.delete_item(c.as_str(), y.as_str()) {
                                        Ok(()) => {},
                                        Err(_) => {
                                            proof {
                                                assert(false);
                                            }
                                        },
                                    }
                                    proof {
                                        broadcast use vstd::set::group_set_axioms;

                                        crate::store::lemma_items_map_size(before_items);
                                        assert(spec_items_map(backend.items@) == beforem.remove(
                                            (c@, y@),
                                        ));
                                        assert(spec_items_map(backend.items@).dom()
                                            =~= beforem.dom().remove((c@, y@)));
                                        assert(spec_items_map(backend.items@).dom().len()
                                            == beforem.dom().len() - 1);
                                        assert((count + 1) as int <= oldm.dom().len());
                                        // The removed pair lay in this
                                        // target's window.
                                        let ghost tgts = spec_prune_targets(
                                            category,
                                            old(backend).schemas@,
                                        );
                                        assert(tgts[t as int] == crate::nl::str_views(
                                            targets@,
                                        )[t as int]);
                                        assert(tgts[t as int] == cat@);
                                        assert((spec_query(old_items, cat@, None, 1000)[
                                        k as int])@ == oldm[(c@, y@)]);
                                        assert(spec_in_target_window(
                                            old_items,
                                            cat@,
                                            oldm[(c@, y@)],
                                        ));
                                        assert forall|p: (Seq<char>, Seq<char>)|
                                            #[trigger] oldm.dom().contains(p)
                                                && !spec_items_map(
                                                backend.items@,
                                            ).dom().contains(p) implies exists|tt: int|
                                            0 <= tt < tgts.len() && spec_in_target_window(
                                                old_items,
                                                #[trigger] tgts[tt],
                                                oldm[p],
                                            ) by {
                                            if beforem.dom().contains(p) {
                                                assert(p == (c@, y@));
                                                assert(spec_in_target_window(
                                                    old_items,
                                                    tgts[t as int],
                                                    oldm[p],
                                                ));
                                            }
                                        }
                                        assert(spec_prune_scoped(
                                            old_items,
                                            tgts,
                                            oldm,
                                            spec_items_map(backend.items@),
                                        ));
                                    }
                                    count = count + 1;
                                    proof {
                                        // Filters of the remaining targets
                                        // are untouched: the deleted item
                                        // lies in this target's category.
                                        if backend.items@ != before_items {
                                            let di = choose|i: int|
                                                0 <= i < before_items.len() && pair_of(
                                                    (#[trigger] before_items[i])@,
                                                ) == (c@, y@) && backend.items@
                                                    == before_items.remove(i);
                                            assert forall|tt: int|
                                                t < tt < tn implies spec_cat_filter(
                                                backend.items@,
                                                (#[trigger] targets@[tt])@,
                                                None,
                                            ) == spec_cat_filter(
                                                old_items,
                                                (#[trigger] targets@[tt])@,
                                                None,
                                            ) by {
                                                assert(doc_cat(before_items[di]@) == cat@);
                                                assert(targets@[tt]@ != cat@);
                                                crate::store::lemma_cat_filter_remove(
                                                    before_items,
                                                    di,
                                                    targets@[tt]@,
                                                    None,
                                                );
                                            }
                                        }
                                    }
                                } else {
                                    proof {
                                        assert(false);
                                    }
                                }
                            },
                            None => {},
                        }
                    },
                    _ => {
                        proof {
                            assert(false);
                        }
                    },
                }
            }
            k = k + 1;
        }
        proof {
            assert(spec_prune_target(
                old_items,
                cat@,
                now as int,
                spec_items_map(backend.items@),
            ));
            assert forall|tt: int|
                0 <= tt < t + 1 implies spec_prune_target(
                old_items,
                (#[trigger] targets@[tt])@,
                now as int,
                spec_items_map(backend.items@),
            ) by {
                if tt == t {
                    assert(targets@[tt]@ == cat@);
                }
            }
        }
        t = t + 1;
    }
    proof {
        let newm = spec_items_map(backend.items@);
        assert(spec_prune_ok(oldm, newm, now as int));
        match category {
            Some(c) => {
                assert(targets@[0]@ == c@);
                assert(spec_prune_target(old_items, c@, now as int, newm));
            },
            None => {
                assert forall|s: int|
                    0 <= s < old(backend).schemas@.len() implies spec_prune_target(
                    old_items,
                    (#[trigger] old(backend).schemas@[s]).prefix@,
                    now as int,
                    newm,
                ) by {
                    assert(targets@[s]@ == old(backend).schemas@[s].prefix@);
                    assert(spec_prune_target(old_items, targets@[s]@, now as int, newm));
                }
            },
        }
    }
    Ok(count)
}

/// Delete the expired items of one category, or of every category with a
/// schema, at the clock's current moment. Returns how many were deleted:
/// exactly the shrinkage of the stored map. Nothing outside the target
/// categories' queried windows is touched, and whatever the clock reads,
/// the result is the exact prune at that moment: nothing invented,
/// nothing then unexpired lost, and every expired item within each target
/// category's first-thousand query window gone.
pub fn prune_expired(backend: &mut MemoryBackend, category: Option<&str>) -> (r: Result<
    usize,
    MemoryError,
>)
    requires
        old(backend).wf(),
    ensures
        final(backend).wf(),
        final(backend).schemas@ == old(backend).schemas@,
        final(backend).indexes@ == old(backend).indexes@,
        final(backend).table_name@ == old(backend).table_name@,
        r matches Ok(n) && n as int == spec_items_map(old(backend).items@).dom().len()
            - spec_items_map(final(backend).items@).dom().len(),
        spec_prune_scoped(
            old(backend).items@,
            spec_prune_targets(category, old(backend).schemas@),
            spec_items_map(old(backend).items@),
            spec_items_map(final(backend).items@),
        ),
        exists|now: int|
            spec_prune_ok(
                spec_items_map(old(backend).items@),
                spec_items_map(final(backend).items@),
                now,
            ) && (match category {
                Some(c) => spec_prune_target(
                    old(backend).items@,
                    c@,
                    now,
                    spec_items_map(final(backend).items@),
                ),
                None => forall|s: int|
                    0 <= s < old(backend).schemas@.len() ==> spec_prune_target(
                        old(backend).items@,
                        (#[trigger] old(backend).schemas@[s]).prefix@,
                        now,
                        spec_items_map(final(backend).items@),
                    ),
            }),
{
    let now = now_epoch_seconds();
    let r = prune_expired_at(backend, category, now);
    proof {
        assert(spec_prune_ok(
            spec_items_map(old(backend).items@),
            spec_items_map(backend.items@),
            now as int,
        ));
    }
    r
}

/// Ensure the predefined schemas exist, but only on first use: when no
/// schema exists at all. With any schema present, nothing changes.
pub fn auto_init(backend: &mut MemoryBackend) -> (r: Result<(), MemoryError>)
    requires
        old(backend).wf(),
    ensures
        final(backend).wf(),
        final(backend).items@ == old(backend).items@,
        final(backend).table_name@ == old(backend).table_name@,
        r is Ok,
        old(backend).schemas@.len() == 0 ==> spec_all_predefined_present(
            final(backend).schemas@,
        ),
        old(backend).schemas@.len() > 0 ==> final(backend).schemas@ == old(backend).schemas@
            && final(backend).indexes@ == old(backend).indexes@,
{
    if backend.schemas.len() == 0 {
        backend.ensure_predefined_schemas()
    } else {
        Ok(())
    }
}

/// Sample the existing sort-key prefixes of each schema's category, up to
/// twenty per category, as context for query resolution.
pub fn fetch_category_keys(
    backend: &MemoryBackend,
    schemas: &Vec<PartitionSchemaInfo>,
) -> (r: Vec<(String, Vec<String>)>)
    requires
        backend.wf(),
    ensures
        r@.len() == schemas@.len(),
        forall|i: int|
            0 <= i < r@.len() ==> (#[trigger] r@[i]).0@ == schemas@[i].prefix@ && distinct_views(
                r@[i].1@,
            ) && tokens_sound(backend.items@, schemas@[i].prefix@, r@[i].1@),
{
    let mut out: Vec<(String, Vec<String>)> = Vec::new();
    let n = schemas.len();
    let mut i: usize = 0;
    while i < n
        invariant
            backend.wf(),
            n == schemas@.len(),
            i <= n,
            out@.len() == i,
            forall|j: int|
                0 <= j < i ==> (#[trigger] out@[j]).0@ == schemas@[j].prefix@ && distinct_views(
                    out@[j].1@,
                ) && tokens_sound(backend.items@, schemas@[j].prefix@, out@[j].1@),
        decreases n - i,
    {
        let prefix = schemas[i].prefix.clone();
        let keys = match backend.list_sort_key_prefixes(prefix.as_str(), 20) {
            Ok(v) => v,
            Err(e) => {
                proof {
                    assert(false);
                }
                Vec::new()
            },
        };
        out.push((prefix, keys));
        i = i + 1;
    }
    out
}

} // verus!
