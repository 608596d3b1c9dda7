//! The backend facade's in-process store: a wide-column table model holding
//! memory items sorted by partition key (`category`) and sort key (`key`),
//! with partition schemas and secondary indexes.
//!
//! Writes are whole-document upserts; `(category, key)` identifies an item.

use vstd::prelude::*;
use vstd::string::StrSliceExecFns;
use crate::catalog::AttributeDef;
use crate::catalog::SchemaDefinition;
use crate::doc::{Document, DocView, JsonVal, spec_get_attr};
use crate::error::MemoryError;
use crate::text::str_eq;
use vstd::string::StringExecFns;

verus! {

/// A partition schema: the attribute contract of one category.
pub struct PartitionSchemaInfo {
    pub prefix: String,
    pub description: String,
    pub attributes: Vec<AttributeDef>,
    pub validate: bool,
}

impl Clone for PartitionSchemaInfo {
    fn clone(&self) -> (r: Self)
        ensures
            r.prefix@ == self.prefix@,
            r.description@ == self.description@,
            r.attributes@.len() == self.attributes@.len(),
            forall|i: int|
                0 <= i < r.attributes@.len() ==> (#[trigger] r.attributes@[i]).name@
                    == self.attributes@[i].name@ && r.attributes@[i].attr_type@
                    == self.attributes@[i].attr_type@ && r.attributes@[i].required
                    == self.attributes@[i].required,
            r.validate == self.validate,
    {
        let mut attributes: Vec<AttributeDef> = Vec::new();
        let n = self.attributes.len();
        let mut i: usize = 0;
        while i < n
            invariant
                n == self.attributes@.len(),
                i <= n,
                attributes@.len() == i,
                forall|j: int|
                    0 <= j < i ==> (#[trigger] attributes@[j]).name@ == self.attributes@[j].name@
                        && attributes@[j].attr_type@ == self.attributes@[j].attr_type@
                        && attributes@[j].required == self.attributes@[j].required,
            decreases n - i,
        {
            attributes.push(self.attributes[i].clone());
            i = i + 1;
        }
        PartitionSchemaInfo {
            prefix: self.prefix.clone(),
            description: self.description.clone(),
            attributes,
            validate: self.validate,
        }
    }
}

/// A secondary index: maps one attribute's value to items of a category.
pub struct IndexInfo {
    pub name: String,
    pub partition_schema: String,
    pub index_key_name: String,
    pub index_key_type: String,
}

impl Clone for IndexInfo {
    fn clone(&self) -> (r: Self)
        ensures
            r.name@ == self.name@,
            r.partition_schema@ == self.partition_schema@,
            r.index_key_name@ == self.index_key_name@,
            r.index_key_type@ == self.index_key_type@,
    {
        IndexInfo {
            name: self.name.clone(),
            partition_schema: self.partition_schema.clone(),
            index_key_name: self.index_key_name.clone(),
            index_key_type: self.index_key_type.clone(),
        }
    }
}

/// Lexicographic order on character sequences, by code point.
pub open spec fn lex_lt(a: Seq<char>, b: Seq<char>) -> bool
    decreases a.len(),
{
    if b.len() == 0 {
        false
    } else if a.len() == 0 {
        true
    } else if a[0] != b[0] {
        (a[0] as u32) < (b[0] as u32)
    } else {
        lex_lt(a.drop_first(), b.drop_first())
    }
}

/// Order on `(category, key)` pairs: by category, then by key.
pub open spec fn pair_lt(a: (Seq<char>, Seq<char>), b: (Seq<char>, Seq<char>)) -> bool {
    lex_lt(a.0, b.0) || (a.0 == b.0 && lex_lt(a.1, b.1))
}

/// Distinct characters have distinct code points.
proof fn lemma_char_inj(x: char, y: char)
    requires
        x != y,
    ensures
        x as u32 != y as u32,
{
}

/// Of `lex_lt(a, b)`, `a == b`, `lex_lt(b, a)`, exactly one holds.
pub proof fn lemma_lex_trichotomy(a: Seq<char>, b: Seq<char>)
    ensures
        lex_lt(a, b) || lex_lt(b, a) || a == b,
        !(lex_lt(a, b) && lex_lt(b, a)),
        lex_lt(a, b) ==> a != b,
    decreases a.len() + b.len(),
{
    if a.len() > 0 && b.len() > 0 {
        lemma_lex_trichotomy(a.drop_first(), b.drop_first());
        if a[0] != b[0] {
            lemma_char_inj(a[0], b[0]);
        }
        if a.drop_first() == b.drop_first() && a[0] == b[0] {
            assert forall|i: int| 0 <= i < a.len() implies a[i] == b[i] by {
                if i > 0 {
                    assert(a[i] == a.drop_first()[i - 1]);
                    assert(b[i] == b.drop_first()[i - 1]);
                }
            }
            assert(a =~= b);
        }
        if a == b {
            assert(a.drop_first() =~= b.drop_first());
        }
    } else if a.len() == 0 && b.len() == 0 {
        assert(a =~= b);
    }
}

/// The lexicographic order is transitive.
pub proof fn lemma_lex_trans(a: Seq<char>, b: Seq<char>, c: Seq<char>)
    requires
        lex_lt(a, b),
        lex_lt(b, c),
    ensures
        lex_lt(a, c),
    decreases a.len() + b.len() + c.len(),
{
    if a.len() > 0 && b.len() > 0 && c.len() > 0 {
        if a[0] == b[0] && b[0] == c[0] {
            lemma_lex_trans(a.drop_first(), b.drop_first(), c.drop_first());
        }
    }
}

/// The pair order is transitive.
pub proof fn lemma_pair_trans(a: (Seq<char>, Seq<char>), b: (Seq<char>, Seq<char>), c: (Seq<char>, Seq<char>))
    requires
        pair_lt(a, b),
        pair_lt(b, c),
    ensures
        pair_lt(a, c),
{
    if lex_lt(a.0, b.0) && lex_lt(b.0, c.0) {
        lemma_lex_trans(a.0, b.0, c.0);
    } else if lex_lt(a.1, b.1) && lex_lt(b.1, c.1) {
        lemma_lex_trans(a.1, b.1, c.1);
    }
}

/// The pair order excludes equality.
pub proof fn lemma_pair_irrefl(a: (Seq<char>, Seq<char>), b: (Seq<char>, Seq<char>))
    requires
        pair_lt(a, b),
    ensures
        a != b,
{
    lemma_lex_trichotomy(a.0, b.0);
    lemma_lex_trichotomy(a.1, b.1);
}

/// The string value of an attribute, when it is a string.
pub open spec fn spec_attr_str(d: DocView, name: Seq<char>) -> Option<Seq<char>> {
    match spec_get_attr(d, name) {
        Some(JsonVal::Str(s)) => Some(s),
        _ => None,
    }
}

/// The document's category, where it has one.
pub open spec fn doc_cat(d: DocView) -> Seq<char> {
    match spec_attr_str(d, "category"@) {
        Some(c) => c,
        None => Seq::empty(),
    }
}

/// The document's key, where it has one.
pub open spec fn doc_key(d: DocView) -> Seq<char> {
    match spec_attr_str(d, "key"@) {
        Some(k) => k,
        None => Seq::empty(),
    }
}

/// The `(category, key)` pair that identifies an item.
pub open spec fn pair_of(d: DocView) -> (Seq<char>, Seq<char>) {
    (doc_cat(d), doc_key(d))
}

/// The document carries a string `category` and a string `key`.
pub open spec fn item_keyed(d: DocView) -> bool {
    spec_attr_str(d, "category"@) is Some && spec_attr_str(d, "key"@) is Some
}

/// The contents of an item sequence, as a map from `(category, key)` to the
/// document stored under it; later occurrences win.
pub open spec fn spec_items_map(items: Seq<Document>) -> Map<
    (Seq<char>, Seq<char>),
    DocView,
>
    decreases items.len(),
{
    if items.len() == 0 {
        Map::empty()
    } else {
        spec_items_map(items.drop_last()).insert(pair_of(items.last()@), items.last()@)
    }
}

/// The unified backend for memory operations: the in-process table model.
pub struct MemoryBackend {
    /// The stored items, strictly sorted by `(category, key)`.
    pub items: Vec<Document>,
    /// The partition schemas, with distinct prefixes.
    pub schemas: Vec<PartitionSchemaInfo>,
    /// The secondary indexes, with distinct names.
    pub indexes: Vec<IndexInfo>,
    /// The table name used for all operations.
    pub table_name: String,
}

impl MemoryBackend {
    /// The store's invariant: every item carries string `category` and
    /// `key` attributes, items are strictly sorted by that pair, schema
    /// prefixes are distinct, and index names are distinct.
    pub open spec fn wf(self) -> bool {
        &&& forall|i: int| 0 <= i < self.items@.len() ==> item_keyed((#[trigger] self.items@[i])@)
        &&& forall|i: int, j: int|
            0 <= i < j < self.items@.len() ==> pair_lt(
                pair_of((#[trigger] self.items@[i])@),
                pair_of((#[trigger] self.items@[j])@),
            )
        &&& forall|i: int, j: int|
            0 <= i < j < self.schemas@.len() ==> (#[trigger] self.schemas@[i]).prefix@ != (
            #[trigger] self.schemas@[j]).prefix@
        &&& forall|i: int, j: int|
            0 <= i < j < self.indexes@.len() ==> (#[trigger] self.indexes@[i]).name@ != (
            #[trigger] self.indexes@[j]).name@
    }

    /// An empty store for the given table.
    pub fn new(table_name: String) -> (r: MemoryBackend)
        ensures
            r.wf(),
            r.items@.len() == 0,
            r.schemas@.len() == 0,
            r.indexes@.len() == 0,
            r.table_name@ == table_name@,
    {
        MemoryBackend {
            items: Vec::new(),
            schemas: Vec::new(),
            indexes: Vec::new(),
            table_name,
        }
    }
}

/// Distinct pairs at distinct positions.
pub open spec fn no_dup_pairs(items: Seq<Document>) -> bool {
    forall|i: int, j: int|
        0 <= i < j < items.len() ==> pair_of((#[trigger] items[i])@) != pair_of(
            (#[trigger] items[j])@,
        )
}

/// A strictly sorted item sequence has no duplicate pairs.
pub proof fn lemma_sorted_no_dup(items: Seq<Document>)
    requires
        forall|i: int, j: int|
            0 <= i < j < items.len() ==> pair_lt(
                pair_of((#[trigger] items[i])@),
                pair_of((#[trigger] items[j])@),
            ),
    ensures
        no_dup_pairs(items),
{
    assert forall|i: int, j: int|
        0 <= i < j < items.len() implies pair_of((#[trigger] items[i])@) != pair_of(
        (#[trigger] items[j])@,
    ) by {
        lemma_pair_irrefl(pair_of(items[i]@), pair_of(items[j]@));
    }
}

/// Replacing the item at a position whose pair matches the new document's
/// pair updates the map at that pair.
pub proof fn lemma_items_map_update(items: Seq<Document>, i: int, d: Document)
    requires
        0 <= i < items.len(),
        pair_of(d@) == pair_of(items[i]@),
        no_dup_pairs(items),
    ensures
        spec_items_map(items.update(i, d)) == spec_items_map(items).insert(pair_of(d@), d@),
    decreases items.len(),
{
    let u = items.update(i, d);
    if i == items.len() - 1 {
        assert(u.drop_last() =~= items.drop_last());
        assert(u.last() == d);
        assert(spec_items_map(u) == spec_items_map(items.drop_last()).insert(pair_of(d@), d@));
        assert(spec_items_map(items).insert(pair_of(d@), d@) =~= spec_items_map(
            items.drop_last(),
        ).insert(pair_of(items.last()@), items.last()@).insert(pair_of(d@), d@));
        assert(spec_items_map(u) =~= spec_items_map(items).insert(pair_of(d@), d@));
    } else {
        assert(u.drop_last() =~= items.drop_last().update(i, d));
        assert(u.last() == items.last());
        assert(no_dup_pairs(items.drop_last())) by {
            assert(forall|x: int| 0 <= x < items.len() - 1 ==> items.drop_last()[x] == items[x]);
        }
        assert(items.drop_last()[i] == items[i]);
        lemma_items_map_update(items.drop_last(), i, d);
        // The last item's pair differs from the updated pair, so the two
        // map inserts commute.
        assert(pair_of(items.last()@) != pair_of(d@));
        assert(spec_items_map(u) =~= spec_items_map(items).insert(pair_of(d@), d@));
    }
}

/// Inserting a document whose pair is absent inserts its pair in the map.
pub proof fn lemma_items_map_insert(items: Seq<Document>, i: int, d: Document)
    requires
        0 <= i <= items.len(),
        forall|j: int| 0 <= j < items.len() ==> pair_of((#[trigger] items[j])@) != pair_of(d@),
    ensures
        spec_items_map(items.insert(i, d)) == spec_items_map(items).insert(pair_of(d@), d@),
    decreases items.len(),
{
    let u = items.insert(i, d);
    if i == items.len() {
        assert(u.drop_last() =~= items);
        assert(u.last() == d);
    } else {
        assert(u.drop_last() =~= items.drop_last().insert(i, d));
        assert(u.last() == items.last());
        assert(forall|j: int|
            0 <= j < items.drop_last().len() ==> items.drop_last()[j] == items[j]);
        lemma_items_map_insert(items.drop_last(), i, d);
        assert(pair_of(items.last()@) != pair_of(d@));
        assert(spec_items_map(u) =~= spec_items_map(items).insert(pair_of(d@), d@));
    }
}

/// Removing the item at a position removes its pair from the map.
pub proof fn lemma_items_map_remove(items: Seq<Document>, i: int)
    requires
        0 <= i < items.len(),
        no_dup_pairs(items),
    ensures
        spec_items_map(items.remove(i)) == spec_items_map(items).remove(pair_of(items[i]@)),
    decreases items.len(),
{
    let u = items.remove(i);
    if i == items.len() - 1 {
        assert(u =~= items.drop_last());
        // The removed pair is absent from the rest of the map.
        lemma_items_map_absent(items.drop_last(), pair_of(items.last()@));
        assert(spec_items_map(u) =~= spec_items_map(items).remove(pair_of(items[i]@)));
    } else {
        assert(u.drop_last() =~= items.drop_last().remove(i));
        assert(u.last() == items.last());
        assert(no_dup_pairs(items.drop_last())) by {
            assert(forall|x: int| 0 <= x < items.len() - 1 ==> items.drop_last()[x] == items[x]);
        }
        assert(items.drop_last()[i] == items[i]);
        lemma_items_map_remove(items.drop_last(), i);
        assert(pair_of(items.last()@) != pair_of(items[i]@));
        assert(spec_items_map(u) =~= spec_items_map(items).remove(pair_of(items[i]@)));
    }
}

/// A pair carried by none of the items is not in the map.
pub proof fn lemma_items_map_absent(items: Seq<Document>, p: (Seq<char>, Seq<char>))
    requires
        forall|j: int| 0 <= j < items.len() ==> pair_of((#[trigger] items[j])@) != p,
    ensures
        !spec_items_map(items).dom().contains(p),
    decreases items.len(),
{
    if items.len() > 0 {
        assert(forall|j: int|
            0 <= j < items.drop_last().len() ==> items.drop_last()[j] == items[j]);
        lemma_items_map_absent(items.drop_last(), p);
    }
}

/// The item at a position is the map's value at its pair.
pub proof fn lemma_items_map_index(items: Seq<Document>, i: int)
    requires
        0 <= i < items.len(),
        no_dup_pairs(items),
    ensures
        spec_items_map(items).dom().contains(pair_of(items[i]@)),
        spec_items_map(items)[pair_of(items[i]@)] == items[i]@,
    decreases items.len(),
{
    if i == items.len() - 1 {
    } else {
        assert(forall|x: int| 0 <= x < items.len() - 1 ==> items.drop_last()[x] == items[x]);
        assert(no_dup_pairs(items.drop_last()));
        lemma_items_map_index(items.drop_last(), i);
        assert(pair_of(items.last()@) != pair_of(items[i]@));
    }
}

/// The map's domain is exactly the pairs of the items.
pub proof fn lemma_items_map_dom(items: Seq<Document>, p: (Seq<char>, Seq<char>))
    requires
        no_dup_pairs(items),
    ensures
        spec_items_map(items).dom().contains(p) <==> exists|i: int|
            0 <= i < items.len() && pair_of((#[trigger] items[i])@) == p,
{
    if exists|i: int| 0 <= i < items.len() && pair_of((#[trigger] items[i])@) == p {
        let i = choose|i: int| 0 <= i < items.len() && pair_of((#[trigger] items[i])@) == p;
        lemma_items_map_index(items, i);
    } else {
        lemma_items_map_absent(items, p);
    }
}

/// A shared prefix does not affect the order or equality of the rest.
proof fn lemma_lex_skip(a: Seq<char>, b: Seq<char>, i: int)
    requires
        0 <= i <= a.len(),
        i <= b.len(),
        forall|j: int| 0 <= j < i ==> a[j] == b[j],
    ensures
        lex_lt(a, b) == lex_lt(a.skip(i), b.skip(i)),
        (a == b) == (a.skip(i) == b.skip(i)),
    decreases i,
{
    if i == 0 {
        assert(a.skip(0) =~= a);
        assert(b.skip(0) =~= b);
    } else {
        lemma_lex_skip(a, b, i - 1);
        let sa = a.skip(i - 1);
        let sb = b.skip(i - 1);
        assert(sa[0] == a[i - 1]);
        assert(sb[0] == b[i - 1]);
        assert(sa.drop_first() =~= a.skip(i));
        assert(sb.drop_first() =~= b.skip(i));
        if sa == sb {
            assert(a.skip(i) =~= sa.drop_first());
        }
        if a.skip(i) == b.skip(i) {
            assert forall|j: int| 0 <= j < sa.len() implies sa[j] == sb[j] by {
                if j > 0 {
                    assert(sa[j] == a.skip(i)[j - 1]);
                    assert(sb[j] == b.skip(i)[j - 1]);
                }
            }
            assert(sa =~= sb);
        }
    }
}

/// Compare two strings in the lexicographic order: `-1`, `0` or `1`.
fn str_lex_cmp(a: &str, b: &str) -> (r: i8)
    ensures
        r == -1 ==> lex_lt(a@, b@),
        r == 0 ==> a@ == b@,
        r == 1 ==> lex_lt(b@, a@),
        r == -1 || r == 0 || r == 1,
{
    let n = a.unicode_len();
    let m = b.unicode_len();
    let mut i: usize = 0;
    while i < n && i < m
        invariant
            n == a@.len(),
            m == b@.len(),
            i <= n,
            i <= m,
            forall|j: int| 0 <= j < i ==> a@[j] == b@[j],
        decreases n - i,
    {
        let ca = a.get_char(i);
        let cb = b.get_char(i);
        if (ca as u32) < (cb as u32) {
            proof {
                lemma_lex_skip(a@, b@, i as int);
                assert(a@.skip(i as int)[0] == ca);
                assert(b@.skip(i as int)[0] == cb);
            }
            return -1;
        }
        if (cb as u32) < (ca as u32) {
            proof {
                lemma_lex_skip(b@, a@, i as int);
                assert(a@.skip(i as int)[0] == ca);
                assert(b@.skip(i as int)[0] == cb);
            }
            return 1;
        }
        i = i + 1;
    }
    if n == m {
        proof {
            lemma_lex_skip(a@, b@, n as int);
            assert(a@.skip(n as int) =~= b@.skip(n as int));
        }
        0
    } else if n < m {
        proof {
            lemma_lex_skip(a@, b@, n as int);
            assert(a@.skip(n as int).len() == 0);
            assert(b@.skip(n as int).len() > 0);
        }
        -1
    } else {
        proof {
            lemma_lex_skip(b@, a@, m as int);
            assert(b@.skip(m as int).len() == 0);
            assert(a@.skip(m as int).len() > 0);
        }
        1
    }
}


/// Of `pair_lt(a, b)`, `a == b`, `pair_lt(b, a)`, at least one holds.
pub proof fn lemma_pair_trichotomy(a: (Seq<char>, Seq<char>), b: (Seq<char>, Seq<char>))
    ensures
        pair_lt(a, b) || pair_lt(b, a) || a == b,
{
    lemma_lex_trichotomy(a.0, b.0);
    lemma_lex_trichotomy(a.1, b.1);
}

impl MemoryBackend {
    /// The `(category, key)` strings of an item known to carry them.
    fn item_pair(d: &Document) -> (r: (String, String))
        requires
            item_keyed(d@),
        ensures
            r.0@ == doc_cat(d@),
            r.1@ == doc_key(d@),
    {
        let c = match d.get_str("category") {
            Some(c) => c,
            None => {
                proof {
                    assert(false);
                }
                String::new()
            },
        };
        let k = match d.get_str("key") {
            Some(k) => k,
            None => {
                proof {
                    assert(false);
                }
                String::new()
            },
        };
        (c, k)
    }

    /// Find the first position whose pair is not below `(cat, key)`.
    fn find_position(&self, cat: &str, key: &str) -> (r: usize)
        requires
            self.wf(),
        ensures
            r <= self.items@.len(),
            forall|j: int|
                0 <= j < r ==> pair_lt(pair_of((#[trigger] self.items@[j])@), (cat@, key@)),
            r < self.items@.len() ==> !pair_lt(pair_of(self.items@[r as int]@), (cat@, key@)),
    {
        let n = self.items.len();
        let mut i: usize = 0;
        while i < n
            invariant
                self.wf(),
                n == self.items@.len(),
                i <= n,
                forall|j: int|
                    0 <= j < i ==> pair_lt(pair_of((#[trigger] self.items@[j])@), (cat@, key@)),
            decreases n - i,
        {
            let (ic, ik) = Self::item_pair(&self.items[i]);
            let c = str_lex_cmp(ic.as_str(), cat);
            let below = c == -1 || (c == 0 && str_lex_cmp(ik.as_str(), key) == -1);
            if !below {
                proof {
                    lemma_lex_trichotomy(ic@, cat@);
                    lemma_lex_trichotomy(ik@, key@);
                }
                return i;
            }
            i = i + 1;
        }
        i
    }

    /// Upsert: store the document under its `(category, key)`, replacing
    /// any item already there. The document must carry both as strings.
    pub fn put_item(&mut self, doc: Document) -> (r: Result<(), MemoryError>)
        requires
            old(self).wf(),
        ensures
            final(self).wf(),
            final(self).schemas@ == old(self).schemas@,
            final(self).indexes@ == old(self).indexes@,
            final(self).table_name@ == old(self).table_name@,
            r is Ok <==> item_keyed(doc@),
            r is Ok ==> spec_items_map(final(self).items@) == spec_items_map(
                old(self).items@,
            ).insert(pair_of(doc@), doc@),
            r is Err ==> final(self).items@ == old(self).items@ && r matches Err(
                MemoryError::InvalidParams(_),
            ),
    {
        let cat = match doc.get_str("category") {
            Some(c) => c,
            None => {
                return Err(
                    MemoryError::InvalidParams(
                        String::from_str("item must carry a string category"),
                    ),
                );
            },
        };
        let key = match doc.get_str("key") {
            Some(k) => k,
            None => {
                return Err(
                    MemoryError::InvalidParams(String::from_str("item must carry a string key")),
                );
            },
        };
        proof {
            assert(pair_of(doc@) == (cat@, key@));
            lemma_sorted_no_dup(self.items@);
        }
        let ghost olditems = self.items@;
        let i = self.find_position(cat.as_str(), key.as_str());
        if i < self.items.len() {
            let (ic, ik) = Self::item_pair(&self.items[i]);
            if str_eq(ic.as_str(), cat.as_str()) && str_eq(ik.as_str(), key.as_str()) {
                // Replace in place: the pair is already present.
                proof {
                    lemma_items_map_update(olditems, i as int, doc);
                }
                self.items.set(i, doc);
                proof {
                    assert forall|x: int, y: int|
                        0 <= x < y < self.items@.len() implies pair_lt(
                        pair_of((#[trigger] self.items@[x])@),
                        pair_of((#[trigger] self.items@[y])@),
                    ) by {
                        assert(pair_of(self.items@[x]@) == pair_of(olditems[x]@));
                        assert(pair_of(self.items@[y]@) == pair_of(olditems[y]@));
                    }
                }
                return Ok(());
            }
            // The pair is absent; insert before position i.
            proof {
                lemma_pair_trichotomy(pair_of(olditems[i as int]@), (cat@, key@));
                assert(pair_lt((cat@, key@), pair_of(olditems[i as int]@)));
                assert forall|j: int|
                    0 <= j < olditems.len() implies pair_of(
                    (#[trigger] olditems[j])@,
                ) != (cat@, key@) by {
                    if j < i {
                        lemma_pair_irrefl(pair_of(olditems[j]@), (cat@, key@));
                    } else if j == i {
                        lemma_pair_irrefl((cat@, key@), pair_of(olditems[j]@));
                    } else {
                        lemma_pair_trans(
                            (cat@, key@),
                            pair_of(olditems[i as int]@),
                            pair_of(olditems[j]@),
                        );
                        lemma_pair_irrefl((cat@, key@), pair_of(olditems[j]@));
                    }
                }
                lemma_items_map_insert(olditems, i as int, doc);
            }
            self.items.insert(i, doc);
            proof {
                let p = (cat@, key@);
                assert forall|j: int| i <= j < olditems.len() implies pair_lt(
                    p,
                    pair_of((#[trigger] olditems[j])@),
                ) by {
                    if j > i {
                        lemma_pair_trans(p, pair_of(olditems[i as int]@), pair_of(olditems[j]@));
                    }
                }
                assert forall|x: int, y: int|
                    0 <= x < y < self.items@.len() implies pair_lt(
                    pair_of((#[trigger] self.items@[x])@),
                    pair_of((#[trigger] self.items@[y])@),
                ) by {
                    if x < i && y > i {
                        lemma_pair_trans(pair_of(olditems[x]@), p, pair_of(olditems[y - 1]@));
                    }
                }
            }
            return Ok(());
        }
        // Append at the end: every existing pair is below the new one.
        proof {
            assert forall|j: int|
                0 <= j < olditems.len() implies pair_of((#[trigger] olditems[j])@) != (
            cat@, key@) by {
                lemma_pair_irrefl(pair_of(olditems[j]@), (cat@, key@));
            }
            lemma_items_map_insert(olditems, olditems.len() as int, doc);
            assert(olditems.insert(olditems.len() as int, doc) =~= olditems.push(doc));
        }
        self.items.push(doc);
        return Ok(());
    }

    /// Fetch the item stored under `(category, key)`, if any.
    pub fn get_item(&self, category: &str, key: &str) -> (r: Option<Document>)
        requires
            self.wf(),
        ensures
            match r {
                Some(d) => spec_items_map(self.items@).dom().contains((category@, key@))
                    && d@ == spec_items_map(self.items@)[(category@, key@)],
                None => !spec_items_map(self.items@).dom().contains((category@, key@)),
            },
    {
        proof {
            lemma_sorted_no_dup(self.items@);
        }
        let n = self.items.len();
        let mut i: usize = 0;
        while i < n
            invariant
                self.wf(),
                n == self.items@.len(),
                i <= n,
                forall|j: int|
                    0 <= j < i ==> pair_of((#[trigger] self.items@[j])@) != (category@, key@),
            decreases n - i,
        {
            let (ic, ik) = Self::item_pair(&self.items[i]);
            if str_eq(ic.as_str(), category) && str_eq(ik.as_str(), key) {
                proof {
                    lemma_sorted_no_dup(self.items@);
                    lemma_items_map_index(self.items@, i as int);
                }
                return Some(self.items[i].clone_doc());
            }
            i = i + 1;
        }
        proof {
            lemma_sorted_no_dup(self.items@);
            lemma_items_map_dom(self.items@, (category@, key@));
        }
        None
    }

    /// Delete the item stored under `(category, key)`. Deleting an absent
    /// key is not an error.
    pub fn delete_item(&mut self, category: &str, key: &str) -> (r: Result<(), MemoryError>)
        requires
            old(self).wf(),
        ensures
            final(self).wf(),
            final(self).schemas@ == old(self).schemas@,
            final(self).indexes@ == old(self).indexes@,
            final(self).table_name@ == old(self).table_name@,
            r is Ok,
            spec_items_map(final(self).items@) == spec_items_map(old(self).items@).remove(
                (category@, key@),
            ),
            final(self).items@ == old(self).items@ || exists|i: int|
                0 <= i < old(self).items@.len() && pair_of(
                    (#[trigger] old(self).items@[i])@,
                ) == (category@, key@) && final(self).items@ == old(self).items@.remove(i),
    {
        proof {
            lemma_sorted_no_dup(self.items@);
        }
        let ghost olditems = self.items@;
        let n = self.items.len();
        let mut i: usize = 0;
        while i < n
            invariant
                self.wf(),
                self.items@ == olditems,
                olditems == old(self).items@,
                self.schemas@ == old(self).schemas@,
                self.indexes@ == old(self).indexes@,
                self.table_name@ == old(self).table_name@,
                n == self.items@.len(),
                i <= n,
                forall|j: int|
                    0 <= j < i ==> pair_of((#[trigger] self.items@[j])@) != (category@, key@),
            decreases n - i,
        {
            let (ic, ik) = Self::item_pair(&self.items[i]);
            if str_eq(ic.as_str(), category) && str_eq(ik.as_str(), key) {
                proof {
                    lemma_sorted_no_dup(olditems);
                    lemma_items_map_remove(olditems, i as int);
                    assert(pair_of(olditems[i as int]@) == (category@, key@));
                }
                self.items.remove(i);
                proof {
                    assert(self.items@ == olditems.remove(i as int));
                }
                proof {
                    assert forall|x: int, y: int|
                        0 <= x < y < self.items@.len() implies pair_lt(
                        pair_of((#[trigger] self.items@[x])@),
                        pair_of((#[trigger] self.items@[y])@),
                    ) by {
                        let xx: int = if x < i { x } else { x + 1 };
                        let yy: int = if y < i { y } else { y + 1 };
                        assert(self.items@[x] == olditems[xx]);
                        assert(self.items@[y] == olditems[yy]);
                    }
                }
                return Ok(());
            }
            i = i + 1;
        }
        proof {
            lemma_sorted_no_dup(olditems);
            lemma_items_map_dom(olditems, (category@, key@));
            assert(spec_items_map(olditems) =~= spec_items_map(olditems).remove(
                (category@, key@),
            ));
        }
        Ok(())
    }
}

/// Upsert then lookup: after storing a document, its own pair maps to
/// exactly that document, and every other pair is untouched. Together with
/// the `put_item` and `get_item` contracts this says a write is read back
/// whole, other items unharmed.
pub proof fn lemma_upsert_lookup(
    m: Map<(Seq<char>, Seq<char>), DocView>,
    doc: DocView,
    p: (Seq<char>, Seq<char>),
)
    ensures
        m.insert(pair_of(doc), doc)[pair_of(doc)] == doc,
        m.insert(pair_of(doc), doc).dom().contains(pair_of(doc)),
        p != pair_of(doc) ==> (m.insert(pair_of(doc), doc).dom().contains(p) <==> m.dom().contains(
            p,
        )),
        p != pair_of(doc) && m.dom().contains(p) ==> m.insert(pair_of(doc), doc)[p] == m[p],
{
}


/// The views of a document sequence.
pub open spec fn views_of(s: Seq<Document>) -> Seq<DocView> {
    s.map_values(|d: Document| d@)
}

/// Appending a document appends its view.
pub proof fn lemma_views_push(s: Seq<Document>, d: Document)
    ensures
        views_of(s.push(d)) =~= views_of(s).push(d@),
{
}

/// The document lies in the queried category and, when a prefix is given,
/// its key begins with it.
pub open spec fn doc_matches_query(d: Document, cat: Seq<char>, prefix: Option<Seq<char>>) -> bool {
    item_keyed(d@) && doc_cat(d@) == cat && match prefix {
        Some(p) => p.is_prefix_of(doc_key(d@)),
        None => true,
    }
}

/// The matching items of a category query, in stored order, uncut.
pub open spec fn spec_cat_filter(
    items: Seq<Document>,
    cat: Seq<char>,
    prefix: Option<Seq<char>>,
) -> Seq<Document> {
    items.filter(|d: Document| doc_matches_query(d, cat, prefix))
}

/// The matching items, in stored (sort-key) order, cut to the limit.
pub open spec fn spec_query(
    items: Seq<Document>,
    cat: Seq<char>,
    prefix: Option<Seq<char>>,
    limit: int,
) -> Seq<Document> {
    let f = spec_cat_filter(items, cat, prefix);
    if f.len() <= limit {
        f
    } else {
        f.take(limit)
    }
}

/// Removing an item that does not match the query leaves its filter
/// unchanged.
pub proof fn lemma_cat_filter_remove(
    items: Seq<Document>,
    i: int,
    cat: Seq<char>,
    prefix: Option<Seq<char>>,
)
    requires
        0 <= i < items.len(),
        !doc_matches_query(items[i], cat, prefix),
    ensures
        spec_cat_filter(items.remove(i), cat, prefix) == spec_cat_filter(items, cat, prefix),
    decreases items.len(),
{
    reveal_with_fuel(Seq::filter, 2);
    let u = items.remove(i);
    if i == items.len() - 1 {
        assert(u =~= items.drop_last());
        assert(spec_cat_filter(items, cat, prefix) =~= spec_cat_filter(u, cat, prefix));
    } else {
        assert(u.drop_last() =~= items.drop_last().remove(i));
        assert(u.last() == items.last());
        assert(items.drop_last()[i] == items[i]);
        lemma_cat_filter_remove(items.drop_last(), i, cat, prefix);
        assert(spec_cat_filter(items, cat, prefix) =~= spec_cat_filter(u, cat, prefix));
    }
}

/// Every element of a query filter is an element of the items.
pub proof fn lemma_cat_filter_elem(
    items: Seq<Document>,
    cat: Seq<char>,
    prefix: Option<Seq<char>>,
    j: int,
)
    requires
        0 <= j < spec_cat_filter(items, cat, prefix).len(),
    ensures
        exists|i: int|
            0 <= i < items.len() && #[trigger] items[i] == spec_cat_filter(
                items,
                cat,
                prefix,
            )[j],
    decreases items.len(),
{
    reveal_with_fuel(Seq::filter, 2);
    let f = spec_cat_filter(items, cat, prefix);
    if items.len() > 0 {
        let fp = spec_cat_filter(items.drop_last(), cat, prefix);
        if j < fp.len() {
            lemma_cat_filter_elem(items.drop_last(), cat, prefix, j);
            let i = choose|i: int|
                0 <= i < items.drop_last().len() && #[trigger] items.drop_last()[i] == fp[j];
            assert(items[i] == f[j]);
        } else {
            assert(f[j] == items.last());
            assert(items[items.len() - 1] == f[j]);
        }
    }
}

/// The map of an item sequence is finite and no larger than the sequence.
pub proof fn lemma_items_map_size(items: Seq<Document>)
    ensures
        spec_items_map(items).dom().finite(),
        spec_items_map(items).dom().len() <= items.len(),
    decreases items.len(),
{
    broadcast use vstd::set::group_set_axioms;

    if items.len() > 0 {
        lemma_items_map_size(items.drop_last());
        assert(spec_items_map(items).dom() =~= spec_items_map(items.drop_last()).dom().insert(
            pair_of(items.last()@),
        ));
    } else {
        assert(spec_items_map(items).dom() =~= Set::<(Seq<char>, Seq<char>)>::empty());
    }
}

/// The view of an optional prefix argument.
pub open spec fn prefix_view(prefix: Option<&str>) -> Option<Seq<char>> {
    match prefix {
        Some(p) => Some(p@),
        None => None,
    }
}

impl MemoryBackend {
    /// Query a category: at most `limit` items in sort-key order, filtered
    /// by `begins_with` when a prefix is given.
    pub fn query(&self, category: &str, prefix: Option<&str>, limit: usize) -> (r: Result<
        Vec<Document>,
        MemoryError,
    >)
        requires
            self.wf(),
        ensures
            r matches Ok(v) && views_of(v@) == views_of(
                spec_query(self.items@, category@, prefix_view(prefix), limit as int),
            ),
    {
        let ghost pred = |d: Document| doc_matches_query(d, category@, prefix_view(prefix));
        let mut out: Vec<Document> = Vec::new();
        let n = self.items.len();
        let mut i: usize = 0;
        proof {
            assert(self.items@.subrange(0, 0) =~= Seq::<Document>::empty());
            assert(views_of(out@) =~= views_of(self.items@.subrange(0, 0).filter(pred)));
        }
        while i < n
            invariant
                self.wf(),
                n == self.items@.len(),
                i <= n,
                pred == (|d: Document| doc_matches_query(d, category@, prefix_view(prefix))),
                out@.len() <= limit,
                out@.len() == vstd::math::min(
                    self.items@.subrange(0, i as int).filter(pred).len() as int,
                    limit as int,
                ),
                views_of(out@) == views_of(
                    spec_query(
                        self.items@.subrange(0, i as int),
                        category@,
                        prefix_view(prefix),
                        limit as int,
                    ),
                ),
            decreases n - i,
        {
            let ghost prefix_items = self.items@.subrange(0, i as int);
            let ghost out_before = out@;
            let d = &self.items[i];
            proof {
                assert(self.items@.subrange(0, i + 1) =~= prefix_items.push(self.items@[i as int]));
                reveal_with_fuel(Seq::filter, 2);
                assert(prefix_items.push(self.items@[i as int]).drop_last() =~= prefix_items);
            }
            let (ic, ik) = Self::item_pair(d);
            let cat_hit = str_eq(ic.as_str(), category);
            let hit = cat_hit && match prefix {
                Some(p) => crate::text::starts_with_str(ik.as_str(), p),
                None => true,
            };
            proof {
                assert(hit == pred(self.items@[i as int]));
            }
            if hit && out.len() < limit {
                let item = d.clone_doc();
                out.push(item);
                proof {
                    let ghost f0 = prefix_items.filter(pred);
                    let f1 = self.items@.subrange(0, i + 1).filter(pred);
                    assert(f1 =~= f0.push(self.items@[i as int]));
                    lemma_views_push(f0, self.items@[i as int]);
                    lemma_views_push(out_before, item);
                    assert(out@ == out_before.push(item));
                    assert(views_of(out@) =~= views_of(f1));
                }
            } else {
                proof {
                    let f0 = prefix_items.filter(pred);
                    let f1 = self.items@.subrange(0, i + 1).filter(pred);
                    if hit {
                        // The limit is reached: the cut stays where it is.
                        assert(f1 =~= f0.push(self.items@[i as int]));
                        assert(f1.take(limit as int) =~= f0.take(limit as int));
                        if f0.len() > limit {
                            assert(views_of(out@) == views_of(f0.take(limit as int)));
                        } else {
                            assert(f0.take(limit as int) =~= f0);
                        }
                    } else {
                        assert(f1 =~= f0);
                    }
                }
            }
            i = i + 1;
        }
        proof {
            assert(self.items@.subrange(0, n as int) =~= self.items@);
        }
        Ok(out)
    }

    /// Does this vector of strings hold one with this view?
    fn vec_contains_str(v: &Vec<String>, s: &str) -> (r: bool)
        ensures
            r == exists|k: int| 0 <= k < v@.len() && (#[trigger] v@[k])@ == s@,
    {
        let n = v.len();
        let mut i: usize = 0;
        while i < n
            invariant
                n == v@.len(),
                i <= n,
                forall|k: int| 0 <= k < i ==> (#[trigger] v@[k])@ != s@,
            decreases n - i,
        {
            if str_eq(v[i].as_str(), s) {
                return true;
            }
            i = i + 1;
        }
        false
    }

    /// `t` is the part of `k` before its first `#`, or all of `k` when it
    /// has none.
    pub open spec fn spec_is_token_of(t: Seq<char>, k: Seq<char>) -> bool {
        &&& t.len() <= k.len()
        &&& t == k.subrange(0, t.len() as int)
        &&& forall|m: int| 0 <= m < t.len() ==> k[m] != '#'
        &&& (t.len() == k.len() || k[t.len() as int] == '#')
    }

    /// The first `#`-delimited token of a key.
    fn token_of(key: &str) -> (r: String)
        ensures
            Self::spec_is_token_of(r@, key@),
    {
        let n = key.unicode_len();
        match crate::text::find_char(key, '#') {
            Some(i) => {
                let t = key.substring_char(0, i);
                String::from_str(t)
            },
            None => {
                proof {
                    assert(key@.subrange(0, key@.len() as int) =~= key@);
                }
                String::from_str(key)
            },
        }
    }
}

/// The names in the vector are pairwise distinct.
pub open spec fn distinct_views(v: Seq<String>) -> bool {
    forall|x: int, y: int| 0 <= x < y < v.len() ==> (#[trigger] v[x])@ != (#[trigger] v[y])@
}

/// Some item carries this category.
pub open spec fn cat_listed(items: Seq<Document>, c: Seq<char>) -> bool {
    exists|j: int| 0 <= j < items.len() && doc_cat((#[trigger] items[j])@) == c
}

/// Every name in the vector is some item's category.
pub open spec fn cats_sound(items: Seq<Document>, v: Seq<String>) -> bool {
    forall|x: int| 0 <= x < v.len() ==> cat_listed(items, (#[trigger] v[x])@)
}

/// The vector holds this category name.
pub open spec fn holds_cat(v: Seq<String>, c: Seq<char>) -> bool {
    exists|x: int| 0 <= x < v.len() && (#[trigger] v[x])@ == c
}

/// The categories of the first `upto` items all appear in the vector.
pub open spec fn cats_cover(items: Seq<Document>, upto: int, v: Seq<String>) -> bool {
    forall|j: int| 0 <= j < upto ==> holds_cat(v, doc_cat((#[trigger] items[j])@))
}

/// Some item of the category has this sort-key token.
pub open spec fn token_listed(items: Seq<Document>, cat: Seq<char>, t: Seq<char>) -> bool {
    exists|j: int|
        0 <= j < items.len() && doc_cat((#[trigger] items[j])@) == cat
            && MemoryBackend::spec_is_token_of(t, doc_key(items[j]@))
}

/// Every token in the vector belongs to some item of the category.
pub open spec fn tokens_sound(items: Seq<Document>, cat: Seq<char>, v: Seq<String>) -> bool {
    forall|x: int| 0 <= x < v.len() ==> token_listed(items, cat, (#[trigger] v[x])@)
}

/// The vector holds a token of this key.
pub open spec fn holds_token(v: Seq<String>, k: Seq<char>) -> bool {
    exists|x: int|
        0 <= x < v.len() && MemoryBackend::spec_is_token_of((#[trigger] v[x])@, k)
}

/// The tokens of the first `upto` items of the category all appear.
pub open spec fn tokens_cover(items: Seq<Document>, cat: Seq<char>, upto: int, v: Seq<String>) -> bool {
    forall|j: int|
        0 <= j < upto && doc_cat((#[trigger] items[j])@) == cat ==> holds_token(
            v,
            doc_key(items[j]@),
        )
}

impl MemoryBackend {
    /// List the distinct categories present, up to `limit`.
    ///
    /// Every returned name is some item's category, no name repeats, and
    /// when the result is shorter than the limit it covers every item.
    pub fn list_partition_keys(&self, limit: usize) -> (r: Result<Vec<String>, MemoryError>)
        requires
            self.wf(),
        ensures
            r matches Ok(v) && v@.len() <= limit && distinct_views(v@) && cats_sound(
                self.items@,
                v@,
            ) && (v@.len() < limit ==> cats_cover(self.items@, self.items@.len() as int, v@)),
    {
        let mut out: Vec<String> = Vec::new();
        let n = self.items.len();
        let mut i: usize = 0;
        while i < n
            invariant
                self.wf(),
                n == self.items@.len(),
                i <= n,
                out@.len() <= limit,
                distinct_views(out@),
                cats_sound(self.items@, out@),
                out@.len() < limit ==> cats_cover(self.items@, i as int, out@),
            decreases n - i,
        {
            let (ic, _ik) = Self::item_pair(&self.items[i]);
            let ghost out_before = out@;
            let present = Self::vec_contains_str(&out, ic.as_str());
            if !present && out.len() < limit {
                out.push(ic);
                proof {
                    assert(out@[out@.len() - 1]@ == doc_cat(self.items@[i as int]@));
                    assert(cats_sound(self.items@, out@)) by {
                        assert forall|x: int|
                            0 <= x < out@.len() implies cat_listed(
                            self.items@,
                            (#[trigger] out@[x])@,
                        ) by {
                            if x < out_before.len() {
                                assert(out@[x] == out_before[x]);
                            } else {
                                assert(doc_cat(self.items@[i as int]@) == out@[x]@);
                            }
                        }
                    }
                    assert(out@.len() < limit ==> cats_cover(self.items@, i + 1, out@)) by {
                        assert forall|j: int|
                            0 <= j < i + 1 implies holds_cat(
                            out@,
                            doc_cat((#[trigger] self.items@[j])@),
                        ) by {
                            if j < i {
                                if out_before.len() < limit {
                                    let x = choose|x: int|
                                        0 <= x < out_before.len() && (#[trigger] out_before[x])@
                                            == doc_cat(self.items@[j]@);
                                    assert(out@[x]@ == doc_cat(self.items@[j]@));
                                } else {
                                    assert(false);
                                }
                            } else {
                                assert(out@[out@.len() - 1]@ == doc_cat(self.items@[j]@));
                            }
                        }
                    }
                }
            } else {
                proof {
                    if present && out@.len() < limit {
                        let k = choose|k: int|
                            0 <= k < out@.len() && (#[trigger] out@[k])@ == ic@;
                        assert forall|j: int|
                            0 <= j < i + 1 implies holds_cat(
                            out@,
                            doc_cat((#[trigger] self.items@[j])@),
                        ) by {
                            if j == i {
                                assert(out@[k]@ == doc_cat(self.items@[j]@));
                            }
                        }
                    }
                }
            }
            i = i + 1;
        }
        Ok(out)
    }

    /// List the distinct sort-key prefix tokens within a category, up to
    /// `limit`: the part of each key before its first `#`.
    ///
    /// Every returned token belongs to some item of the category, no token
    /// repeats, and when the result is shorter than the limit it covers
    /// every item of the category.
    pub fn list_sort_key_prefixes(&self, category: &str, limit: usize) -> (r: Result<
        Vec<String>,
        MemoryError,
    >)
        requires
            self.wf(),
        ensures
            r matches Ok(v) && v@.len() <= limit && distinct_views(v@) && tokens_sound(
                self.items@,
                category@,
                v@,
            ) && (v@.len() < limit ==> tokens_cover(
                self.items@,
                category@,
                self.items@.len() as int,
                v@,
            )),
    {
        let mut out: Vec<String> = Vec::new();
        let n = self.items.len();
        let mut i: usize = 0;
        while i < n
            invariant
                self.wf(),
                n == self.items@.len(),
                i <= n,
                out@.len() <= limit,
                distinct_views(out@),
                tokens_sound(self.items@, category@, out@),
                out@.len() < limit ==> tokens_cover(self.items@, category@, i as int, out@),
            decreases n - i,
        {
            let (ic, ik) = Self::item_pair(&self.items[i]);
            let ghost out_before = out@;
            if str_eq(ic.as_str(), category) {
                let t = Self::token_of(ik.as_str());
                let present = Self::vec_contains_str(&out, t.as_str());
                if !present && out.len() < limit {
                    out.push(t);
                    proof {
                        assert(Self::spec_is_token_of(
                            out@[out@.len() - 1]@,
                            doc_key(self.items@[i as int]@),
                        ));
                        assert(tokens_sound(self.items@, category@, out@)) by {
                            assert forall|x: int|
                                0 <= x < out@.len() implies token_listed(
                                self.items@,
                                category@,
                                (#[trigger] out@[x])@,
                            ) by {
                                if x < out_before.len() {
                                    assert(out@[x] == out_before[x]);
                                }
                            }
                        }
                        assert(out@.len() < limit ==> tokens_cover(
                            self.items@,
                            category@,
                            i + 1,
                            out@,
                        )) by {
                            assert forall|j: int|
                                0 <= j < i + 1 && doc_cat((#[trigger] self.items@[j])@)
                                    == category@ implies holds_token(
                                out@,
                                doc_key(self.items@[j]@),
                            ) by {
                                if j < i {
                                    if out_before.len() < limit {
                                        let x = choose|x: int|
                                            0 <= x < out_before.len()
                                                && Self::spec_is_token_of(
                                                (#[trigger] out_before[x])@,
                                                doc_key(self.items@[j]@),
                                            );
                                        assert(Self::spec_is_token_of(
                                            out@[x]@,
                                            doc_key(self.items@[j]@),
                                        ));
                                    } else {
                                        assert(false);
                                    }
                                } else {
                                    assert(Self::spec_is_token_of(
                                        out@[out@.len() - 1]@,
                                        doc_key(self.items@[j]@),
                                    ));
                                }
                            }
                        }
                    }
                } else {
                    proof {
                        if present && out@.len() < limit {
                            let k = choose|k: int|
                                0 <= k < out@.len() && (#[trigger] out@[k])@ == t@;
                            assert forall|j: int|
                                0 <= j < i + 1 && doc_cat((#[trigger] self.items@[j])@)
                                    == category@ implies holds_token(
                                out@,
                                doc_key(self.items@[j]@),
                            ) by {
                                if j == i {
                                    assert(Self::spec_is_token_of(
                                        out@[k]@,
                                        doc_key(self.items@[j]@),
                                    ));
                                }
                            }
                        }
                    }
                }
            }
            i = i + 1;
        }
        Ok(out)
    }
}


/// The two schema records agree on every field.
pub open spec fn schema_matches(a: PartitionSchemaInfo, b: PartitionSchemaInfo) -> bool {
    &&& a.prefix@ == b.prefix@
    &&& a.description@ == b.description@
    &&& a.validate == b.validate
    &&& attrs_match(a.attributes@, b.attributes@)
}

/// The two attribute lists agree pointwise.
pub open spec fn attrs_match(a: Seq<AttributeDef>, b: Seq<AttributeDef>) -> bool {
    a.len() == b.len() && forall|i: int|
        0 <= i < a.len() ==> (#[trigger] a[i]).name@ == b[i].name@ && a[i].attr_type@
            == b[i].attr_type@ && a[i].required == b[i].required
}

/// The two index records agree on every field.
pub open spec fn index_matches(a: IndexInfo, b: IndexInfo) -> bool {
    &&& a.name@ == b.name@
    &&& a.partition_schema@ == b.partition_schema@
    &&& a.index_key_name@ == b.index_key_name@
    &&& a.index_key_type@ == b.index_key_type@
}

/// A schema with this prefix exists.
pub open spec fn spec_has_schema(schemas: Seq<PartitionSchemaInfo>, prefix: Seq<char>) -> bool {
    exists|j: int| 0 <= j < schemas.len() && (#[trigger] schemas[j]).prefix@ == prefix
}

/// The prefixes of a schema list, in order.
pub open spec fn spec_schema_prefixes(schemas: Seq<PartitionSchemaInfo>) -> Seq<Seq<char>> {
    schemas.map_values(|x: PartitionSchemaInfo| x.prefix@)
}

/// An index with this name exists.
pub open spec fn spec_has_index(indexes: Seq<IndexInfo>, name: Seq<char>) -> bool {
    exists|j: int| 0 <= j < indexes.len() && (#[trigger] indexes[j]).name@ == name
}

impl MemoryBackend {
    /// The position of the schema with this prefix, if any.
    fn find_schema(&self, prefix: &str) -> (r: Option<usize>)
        ensures
            match r {
                Some(i) => i < self.schemas@.len() && self.schemas@[i as int].prefix@ == prefix@,
                None => !spec_has_schema(self.schemas@, prefix@),
            },
    {
        let n = self.schemas.len();
        let mut i: usize = 0;
        while i < n
            invariant
                n == self.schemas@.len(),
                i <= n,
                forall|j: int| 0 <= j < i ==> (#[trigger] self.schemas@[j]).prefix@ != prefix@,
            decreases n - i,
        {
            if str_eq(self.schemas[i].prefix.as_str(), prefix) {
                return Some(i);
            }
            i = i + 1;
        }
        None
    }

    /// The position of the index with this name, if any.
    fn find_index_pos(&self, name: &str) -> (r: Option<usize>)
        ensures
            match r {
                Some(i) => i < self.indexes@.len() && self.indexes@[i as int].name@ == name@,
                None => !spec_has_index(self.indexes@, name@),
            },
    {
        let n = self.indexes.len();
        let mut i: usize = 0;
        while i < n
            invariant
                n == self.indexes@.len(),
                i <= n,
                forall|j: int| 0 <= j < i ==> (#[trigger] self.indexes@[j]).name@ != name@,
            decreases n - i,
        {
            if str_eq(self.indexes[i].name.as_str(), name) {
                return Some(i);
            }
            i = i + 1;
        }
        None
    }

    /// Define a partition schema. Fails when one with this prefix exists.
    pub fn create_schema(
        &mut self,
        prefix: &str,
        description: Option<&str>,
        attrs: &Vec<AttributeDef>,
        validate: bool,
    ) -> (r: Result<(), MemoryError>)
        requires
            old(self).wf(),
        ensures
            final(self).wf(),
            final(self).items@ == old(self).items@,
            final(self).indexes@ == old(self).indexes@,
            final(self).table_name@ == old(self).table_name@,
            r is Ok <==> !spec_has_schema(old(self).schemas@, prefix@),
            r is Err ==> final(self).schemas@ == old(self).schemas@ && r matches Err(
                MemoryError::Schema(_),
            ),
            r is Ok ==> final(self).schemas@.len() == old(self).schemas@.len() + 1
                && final(self).schemas@.subrange(0, old(self).schemas@.len() as int) == old(self).schemas@ && final(self).schemas@.last().prefix@ == prefix@ && final(self).schemas@.last().description@ == (match description {
                Some(d) => d@,
                None => Seq::<char>::empty(),
            }) && final(self).schemas@.last().validate == validate && attrs_match(
                final(self).schemas@.last().attributes@,
                attrs@,
            ),
    {
        if let Some(_) = self.find_schema(prefix) {
            return Err(
                MemoryError::Schema(String::from_str("partition schema already exists")),
            );
        }
        let desc = match description {
            Some(d) => String::from_str(d),
            None => String::new(),
        };
        let mut attributes: Vec<AttributeDef> = Vec::new();
        let n = attrs.len();
        let mut i: usize = 0;
        while i < n
            invariant
                n == attrs@.len(),
                i <= n,
                attributes@.len() == i,
                forall|j: int|
                    0 <= j < i ==> (#[trigger] attributes@[j]).name@ == attrs@[j].name@
                        && attributes@[j].attr_type@ == attrs@[j].attr_type@
                        && attributes@[j].required == attrs@[j].required,
            decreases n - i,
        {
            attributes.push(attrs[i].clone());
            i = i + 1;
        }
        let ghost oldschemas = self.schemas@;
        self.schemas.push(
            PartitionSchemaInfo { prefix: String::from_str(prefix), description: desc, attributes, validate },
        );
        proof {
            assert(self.schemas@.subrange(0, oldschemas.len() as int) =~= oldschemas);
        }
        Ok(())
    }

    /// Describe the schema of a category. The error message of a missing
    /// schema names it as not found.
    pub fn describe_schema(&self, prefix: &str) -> (r: Result<PartitionSchemaInfo, MemoryError>)
        requires
            self.wf(),
        ensures
            match r {
                Ok(s) => exists|j: int|
                    0 <= j < self.schemas@.len() && (#[trigger] self.schemas@[j]).prefix@
                        == prefix@ && schema_matches(s, self.schemas@[j]),
                Err(e) => !spec_has_schema(self.schemas@, prefix@) && (e matches
                    MemoryError::Schema(m) && m@ == "partition schema not found: "@ + prefix@),
            },
    {
        match self.find_schema(prefix) {
            Some(i) => Ok(self.schemas[i].clone()),
            None => {
                let mut m = String::from_str("partition schema not found: ");
                m.append(prefix);
                Err(MemoryError::Schema(m))
            },
        }
    }

    /// List all partition schemas.
    pub fn list_schemas(&self) -> (r: Result<Vec<PartitionSchemaInfo>, MemoryError>)
        requires
            self.wf(),
        ensures
            r matches Ok(v) && v@.len() == self.schemas@.len() && forall|i: int|
                0 <= i < v@.len() ==> schema_matches(#[trigger] v@[i], self.schemas@[i]),
    {
        let mut out: Vec<PartitionSchemaInfo> = Vec::new();
        let n = self.schemas.len();
        let mut i: usize = 0;
        while i < n
            invariant
                n == self.schemas@.len(),
                i <= n,
                out@.len() == i,
                forall|j: int|
                    0 <= j < i ==> schema_matches(#[trigger] out@[j], self.schemas@[j]),
            decreases n - i,
        {
            out.push(self.schemas[i].clone());
            i = i + 1;
        }
        Ok(out)
    }

    /// Drop the schema of a category. Fails when none exists.
    pub fn drop_schema(&mut self, prefix: &str) -> (r: Result<(), MemoryError>)
        requires
            old(self).wf(),
        ensures
            final(self).wf(),
            final(self).items@ == old(self).items@,
            final(self).indexes@ == old(self).indexes@,
            final(self).table_name@ == old(self).table_name@,
            r is Ok <==> spec_has_schema(old(self).schemas@, prefix@),
            r is Err ==> final(self).schemas@ == old(self).schemas@ && r matches Err(
                MemoryError::Schema(_),
            ),
            r is Ok ==> !spec_has_schema(final(self).schemas@, prefix@) && forall|c: Seq<char>|
                c != prefix@ ==> (spec_has_schema(final(self).schemas@, c) <==> spec_has_schema(
                    old(self).schemas@,
                    c,
                )),
    {
        let ghost oldschemas = self.schemas@;
        match self.find_schema(prefix) {
            Some(i) => {
                self.schemas.remove(i);
                proof {
                    assert forall|c: Seq<char>|
                        c != prefix@ implies (spec_has_schema(self.schemas@, c)
                        <==> spec_has_schema(oldschemas, c)) by {
                        if spec_has_schema(oldschemas, c) {
                            let j = choose|j: int|
                                0 <= j < oldschemas.len() && (#[trigger] oldschemas[j]).prefix@
                                    == c;
                            if j < i {
                                assert(self.schemas@[j].prefix@ == c);
                            } else {
                                assert(j != i);
                                assert(self.schemas@[j - 1].prefix@ == c);
                            }
                        }
                        if spec_has_schema(self.schemas@, c) {
                            let j = choose|j: int|
                                0 <= j < self.schemas@.len() && (
                                #[trigger] self.schemas@[j]).prefix@ == c;
                            if j < i {
                                assert(oldschemas[j].prefix@ == c);
                            } else {
                                assert(oldschemas[j + 1].prefix@ == c);
                            }
                        }
                    }
                    assert forall|x: int, y: int|
                        0 <= x < y < self.schemas@.len() implies (
                        #[trigger] self.schemas@[x]).prefix@ != (
                        #[trigger] self.schemas@[y]).prefix@ by {
                        let xx: int = if x < i { x } else { x + 1 };
                        let yy: int = if y < i { y } else { y + 1 };
                        assert(self.schemas@[x] == oldschemas[xx]);
                        assert(self.schemas@[y] == oldschemas[yy]);
                    }
                    if spec_has_schema(self.schemas@, prefix@) {
                        let j = choose|j: int|
                            0 <= j < self.schemas@.len() && (#[trigger] self.schemas@[j]).prefix@
                                == prefix@;
                        let jj: int = if j < i { j } else { j + 1 };
                        assert(oldschemas[jj].prefix@ == prefix@);
                        assert(oldschemas[i as int].prefix@ == prefix@);
                        assert(false);
                    }
                }
                Ok(())
            },
            None => {
                let mut m = String::from_str("partition schema not found: ");
                m.append(prefix);
                Err(MemoryError::Schema(m))
            },
        }
    }

    /// Create a secondary index. Fails when the name is taken or the
    /// category has no schema.
    pub fn create_index(
        &mut self,
        name: &str,
        partition_schema: &str,
        key_name: &str,
        key_type: &str,
    ) -> (r: Result<(), MemoryError>)
        requires
            old(self).wf(),
        ensures
            final(self).wf(),
            final(self).items@ == old(self).items@,
            final(self).schemas@ == old(self).schemas@,
            final(self).table_name@ == old(self).table_name@,
            r is Ok <==> !spec_has_index(old(self).indexes@, name@) && spec_has_schema(
                old(self).schemas@,
                partition_schema@,
            ),
            r is Err ==> final(self).indexes@ == old(self).indexes@ && r matches Err(
                MemoryError::Index(_),
            ),
            r is Ok ==> final(self).indexes@.len() == old(self).indexes@.len() + 1 && final(self).indexes@.subrange(0, old(self).indexes@.len() as int) == old(self).indexes@
                && final(self).indexes@.last().name@ == name@ && final(self).indexes@.last().partition_schema@ == partition_schema@ && final(self).indexes@.last().index_key_name@ == key_name@ && final(self).indexes@.last().index_key_type@ == key_type@,
    {
        if let Some(_) = self.find_index_pos(name) {
            return Err(MemoryError::Index(String::from_str("index already exists")));
        }
        if let None = self.find_schema(partition_schema) {
            let mut m = String::from_str("partition schema not found: ");
            m.append(partition_schema);
            return Err(MemoryError::Index(m));
        }
        let ghost oldindexes = self.indexes@;
        self.indexes.push(
            IndexInfo {
                name: String::from_str(name),
                partition_schema: String::from_str(partition_schema),
                index_key_name: String::from_str(key_name),
                index_key_type: String::from_str(key_type),
            },
        );
        proof {
            assert(self.indexes@.subrange(0, oldindexes.len() as int) =~= oldindexes);
        }
        Ok(())
    }

    /// List all secondary indexes.
    pub fn list_indexes(&self) -> (r: Result<Vec<IndexInfo>, MemoryError>)
        requires
            self.wf(),
        ensures
            r matches Ok(v) && v@.len() == self.indexes@.len() && forall|i: int|
                0 <= i < v@.len() ==> index_matches(#[trigger] v@[i], self.indexes@[i]),
    {
        let mut out: Vec<IndexInfo> = Vec::new();
        let n = self.indexes.len();
        let mut i: usize = 0;
        while i < n
            invariant
                n == self.indexes@.len(),
                i <= n,
                out@.len() == i,
                forall|j: int|
                    0 <= j < i ==> index_matches(#[trigger] out@[j], self.indexes@[j]),
            decreases n - i,
        {
            out.push(self.indexes[i].clone());
            i = i + 1;
        }
        Ok(out)
    }

    /// Describe one secondary index by name. Fails when absent.
    pub fn describe_index(&self, name: &str) -> (r: Result<IndexInfo, MemoryError>)
        requires
            self.wf(),
        ensures
            match r {
                Ok(x) => exists|j: int|
                    0 <= j < self.indexes@.len() && (#[trigger] self.indexes@[j]).name@ == name@
                        && index_matches(x, self.indexes@[j]),
                Err(e) => !spec_has_index(self.indexes@, name@) && e matches MemoryError::Index(
                    _,
                ),
            },
    {
        match self.find_index_pos(name) {
            Some(i) => Ok(self.indexes[i].clone()),
            None => {
                let mut m = String::from_str("index not found: ");
                m.append(name);
                Err(MemoryError::Index(m))
            },
        }
    }

    /// Drop one secondary index by name. Fails when absent.
    pub fn drop_index(&mut self, name: &str) -> (r: Result<(), MemoryError>)
        requires
            old(self).wf(),
        ensures
            final(self).wf(),
            final(self).items@ == old(self).items@,
            final(self).schemas@ == old(self).schemas@,
            final(self).table_name@ == old(self).table_name@,
            r is Ok <==> spec_has_index(old(self).indexes@, name@),
            r is Err ==> final(self).indexes@ == old(self).indexes@ && r matches Err(
                MemoryError::Index(_),
            ),
            r is Ok ==> !spec_has_index(final(self).indexes@, name@),
    {
        let ghost oldindexes = self.indexes@;
        match self.find_index_pos(name) {
            Some(i) => {
                self.indexes.remove(i);
                proof {
                    assert forall|x: int, y: int|
                        0 <= x < y < self.indexes@.len() implies (
                        #[trigger] self.indexes@[x]).name@ != (
                        #[trigger] self.indexes@[y]).name@ by {
                        let xx: int = if x < i { x } else { x + 1 };
                        let yy: int = if y < i { y } else { y + 1 };
                        assert(self.indexes@[x] == oldindexes[xx]);
                        assert(self.indexes@[y] == oldindexes[yy]);
                    }
                    if spec_has_index(self.indexes@, name@) {
                        let j = choose|j: int|
                            0 <= j < self.indexes@.len() && (#[trigger] self.indexes@[j]).name@
                                == name@;
                        let jj: int = if j < i { j } else { j + 1 };
                        assert(oldindexes[jj].name@ == name@);
                        assert(oldindexes[i as int].name@ == name@);
                        assert(false);
                    }
                }
                Ok(())
            },
            None => {
                let mut m = String::from_str("index not found: ");
                m.append(name);
                Err(MemoryError::Index(m))
            },
        }
    }
}

/// The item lies in the index's category and its indexed attribute holds
/// exactly this string value.
pub open spec fn doc_matches_index(d: Document, idx: IndexInfo, value: Seq<char>) -> bool {
    item_keyed(d@) && doc_cat(d@) == idx.partition_schema@ && spec_attr_str(
        d@,
        idx.index_key_name@,
    ) == Some(value)
}

/// The items the index yields for a value, in sort-key order, cut to the
/// limit.
pub open spec fn spec_query_index(
    items: Seq<Document>,
    idx: IndexInfo,
    value: Seq<char>,
    limit: int,
) -> Seq<Document> {
    let f = items.filter(|d: Document| doc_matches_index(d, idx, value));
    if f.len() <= limit {
        f
    } else {
        f.take(limit)
    }
}

impl MemoryBackend {
    /// Exact-match lookup on an indexed attribute: the items of the
    /// index's category whose indexed attribute equals the value, up to
    /// `limit` (all of them when no limit is given).
    pub fn query_index(&self, index_name: &str, key_value: &str, limit: Option<usize>) -> (r:
        Result<Vec<Document>, MemoryError>)
        requires
            self.wf(),
        ensures
            match r {
                Ok(v) => exists|j: int|
                    0 <= j < self.indexes@.len() && (#[trigger] self.indexes@[j]).name@
                        == index_name@ && views_of(v@) == views_of(
                        spec_query_index(
                            self.items@,
                            self.indexes@[j],
                            key_value@,
                            match limit {
                                Some(l) => l as int,
                                None => self.items@.len() as int,
                            },
                        ),
                    ),
                Err(e) => !spec_has_index(self.indexes@, index_name@) && e matches
                    MemoryError::Index(_),
            },
    {
        let i = match self.find_index_pos(index_name) {
            Some(i) => i,
            None => {
                let mut m = String::from_str("index not found: ");
                m.append(index_name);
                return Err(MemoryError::Index(m));
            },
        };
        let idx = self.indexes[i].clone();
        let ghost target = self.indexes@[i as int];
        let cap = match limit {
            Some(l) => l,
            None => self.items.len(),
        };
        let ghost pred = |d: Document| doc_matches_index(d, target, key_value@);
        let mut out: Vec<Document> = Vec::new();
        let n = self.items.len();
        let mut k: usize = 0;
        proof {
            assert(self.items@.subrange(0, 0) =~= Seq::<Document>::empty());
            assert(views_of(out@) =~= views_of(self.items@.subrange(0, 0).filter(pred)));
        }
        while k < n
            invariant
                self.wf(),
                n == self.items@.len(),
                k <= n,
                index_matches(idx, target),
                pred == (|d: Document| doc_matches_index(d, target, key_value@)),
                out@.len() <= cap,
                out@.len() == vstd::math::min(
                    self.items@.subrange(0, k as int).filter(pred).len() as int,
                    cap as int,
                ),
                views_of(out@) == views_of(
                    {
                        let f = self.items@.subrange(0, k as int).filter(pred);
                        if f.len() <= cap {
                            f
                        } else {
                            f.take(cap as int)
                        }
                    },
                ),
            decreases n - k,
        {
            let ghost prefix_items = self.items@.subrange(0, k as int);
            let ghost out_before = out@;
            let d = &self.items[k];
            proof {
                assert(self.items@.subrange(0, k + 1) =~= prefix_items.push(
                    self.items@[k as int],
                ));
                reveal_with_fuel(Seq::filter, 2);
                assert(prefix_items.push(self.items@[k as int]).drop_last() =~= prefix_items);
            }
            let (ic, _ik) = Self::item_pair(d);
            let hit = str_eq(ic.as_str(), idx.partition_schema.as_str()) && (match d.get_str(
                idx.index_key_name.as_str(),
            ) {
                Some(v) => str_eq(v.as_str(), key_value),
                None => false,
            });
            proof {
                assert(hit == pred(self.items@[k as int]));
            }
            if hit && out.len() < cap {
                let item = d.clone_doc();
                out.push(item);
                proof {
                    let ghost f0 = prefix_items.filter(pred);
                    let f1 = self.items@.subrange(0, k + 1).filter(pred);
                    assert(f1 =~= f0.push(self.items@[k as int]));
                    lemma_views_push(f0, self.items@[k as int]);
                    lemma_views_push(out_before, item);
                    assert(out@ == out_before.push(item));
                    assert(views_of(out@) =~= views_of(f1));
                }
            } else {
                proof {
                    let f0 = prefix_items.filter(pred);
                    let f1 = self.items@.subrange(0, k + 1).filter(pred);
                    if hit {
                        assert(f1 =~= f0.push(self.items@[k as int]));
                        assert(f1.take(cap as int) =~= f0.take(cap as int));
                        if f0.len() > cap {
                            assert(views_of(out@) == views_of(f0.take(cap as int)));
                        } else {
                            assert(f0.take(cap as int) =~= f0);
                        }
                    } else {
                        assert(f1 =~= f0);
                    }
                }
            }
            k = k + 1;
        }
        proof {
            assert(self.items@.subrange(0, n as int) =~= self.items@);
        }
        Ok(out)
    }
}


/// The index record is the bound canonical index of some catalog entry's
/// indexed attribute.
pub open spec fn spec_bound_catalog_index(x: IndexInfo) -> bool {
    exists|kk: int, a: int|
        0 <= kk < crate::catalog::spec_catalog().len() && 0 <= a < crate::catalog::spec_catalog()[
        kk].indexed.len() && x.name@ == crate::catalog::spec_catalog()[kk].name + "_"@ + (
        #[trigger] crate::catalog::spec_catalog()[kk].indexed[a]) && x.partition_schema@
            == crate::catalog::spec_catalog()[kk].name && x.index_key_name@
            == crate::catalog::spec_catalog()[kk].indexed[a]
            && crate::catalog::spec_entry_attr_type(
            crate::catalog::spec_catalog()[kk],
            crate::catalog::spec_catalog()[kk].indexed[a],
        ) == Some(x.index_key_type@)
}

/// Every predefined category has a schema.
pub open spec fn spec_all_predefined_present(schemas: Seq<PartitionSchemaInfo>) -> bool {
    &&& spec_has_schema(schemas, "project"@)
    &&& spec_has_schema(schemas, "decisions"@)
    &&& spec_has_schema(schemas, "contacts"@)
    &&& spec_has_schema(schemas, "preferences"@)
    &&& spec_has_schema(schemas, "issues"@)
    &&& spec_has_schema(schemas, "tools"@)
    &&& spec_has_schema(schemas, "events"@)
    &&& spec_has_schema(schemas, "notes"@)
    &&& spec_has_schema(schemas, "scratchpad"@)
}



/// The declared type of the first attribute of this name, if any.
pub open spec fn spec_attr_type_of(attrs: Seq<AttributeDef>, name: Seq<char>) -> Option<
    Seq<char>,
>
    decreases attrs.len(),
{
    if attrs.len() == 0 {
        None
    } else if attrs[0].name@ == name {
        Some(attrs[0].attr_type@)
    } else {
        spec_attr_type_of(attrs.drop_first(), name)
    }
}

/// A first positional match determines the looked-up attribute type.
proof fn lemma_attr_type_first(attrs: Seq<AttributeDef>, i: int, name: Seq<char>)
    requires
        0 <= i < attrs.len(),
        attrs[i].name@ == name,
        forall|j: int| 0 <= j < i ==> (#[trigger] attrs[j]).name@ != name,
    ensures
        spec_attr_type_of(attrs, name) == Some(attrs[i].attr_type@),
    decreases i,
{
    if i > 0 {
        lemma_attr_type_first(attrs.drop_first(), i - 1, name);
    }
}

/// A looked-up attribute type means an attribute of that name exists.
proof fn lemma_attr_type_some_exists(attrs: Seq<AttributeDef>, name: Seq<char>)
    requires
        spec_attr_type_of(attrs, name) is Some,
    ensures
        exists|a: int| 0 <= a < attrs.len() && (#[trigger] attrs[a]).name@ == name,
    decreases attrs.len(),
{
    if attrs.len() > 0 && attrs[0].name@ != name {
        lemma_attr_type_some_exists(attrs.drop_first(), name);
        let a = choose|a: int|
            0 <= a < attrs.drop_first().len() && (#[trigger] attrs.drop_first()[a]).name@
                == name;
        assert(attrs[a + 1].name@ == name);
    }
}

/// Equal canonical names under one category share the attribute part.
proof fn lemma_canonical_suffix_inj(prefix: Seq<char>, a: Seq<char>, b: Seq<char>)
    requires
        prefix + "_"@ + a == prefix + "_"@ + b,
    ensures
        a == b,
{
    reveal_strlit("_");
    assert("_"@.len() == 1);
    assert((prefix + "_"@ + a).len() == prefix.len() + 1 + a.len());
    assert((prefix + "_"@ + b).len() == prefix.len() + 1 + b.len());
    assert(a.len() == b.len());
    assert forall|i: int| 0 <= i < a.len() implies a[i] == b[i] by {
        assert((prefix + "_"@ + a)[prefix.len() + 1 + i] == a[i]);
        assert((prefix + "_"@ + b)[prefix.len() + 1 + i] == b[i]);
    }
    assert(a =~= b);
}

/// With underscore-free category names, a canonical index name determines
/// both its category and its attribute.
proof fn lemma_canonical_unambiguous(c1: Seq<char>, a1: Seq<char>, c2: Seq<char>, a2: Seq<char>)
    requires
        crate::catalog::no_underscore(c1),
        crate::catalog::no_underscore(c2),
        c1 + "_"@ + a1 == c2 + "_"@ + a2,
    ensures
        c1 == c2,
        a1 == a2,
{
    reveal_strlit("_");
    assert("_"@.len() == 1);
    assert("_"@[0] == '_');
    if c1.len() < c2.len() {
        assert((c1 + "_"@ + a1)[c1.len() as int] == '_');
        assert((c2 + "_"@ + a2)[c1.len() as int] == c2[c1.len() as int]);
        assert(false);
    }
    if c2.len() < c1.len() {
        assert((c2 + "_"@ + a2)[c2.len() as int] == '_');
        assert((c1 + "_"@ + a1)[c2.len() as int] == c1[c2.len() as int]);
        assert(false);
    }
    assert forall|i: int| 0 <= i < c1.len() implies c1[i] == c2[i] by {
        assert((c1 + "_"@ + a1)[i] == c1[i]);
        assert((c2 + "_"@ + a2)[i] == c2[i]);
    }
    assert(c1 =~= c2);
    lemma_canonical_suffix_inj(c1, a1, a2);
}

/// Pointwise-equal attribute views agree on every type lookup.
proof fn lemma_attr_views_type_agrees(
    attrs: Seq<AttributeDef>,
    triples: Seq<(Seq<char>, Seq<char>, bool)>,
    name: Seq<char>,
)
    requires
        crate::catalog::attr_views(attrs) == triples,
    ensures
        spec_attr_type_of(attrs, name) == crate::catalog::spec_triples_type(triples, name),
    decreases attrs.len(),
{
    assert(attrs.len() == triples.len());
    if attrs.len() > 0 {
        assert(crate::catalog::attr_views(attrs)[0] == (
        attrs[0].name@,
        attrs[0].attr_type@,
        attrs[0].required,
        ));
        assert(triples[0] == (attrs[0].name@, attrs[0].attr_type@, attrs[0].required));
        assert(crate::catalog::attr_views(attrs.drop_first()) =~= triples.drop_first()) by {
            assert forall|i: int|
                0 <= i < attrs.drop_first().len() implies crate::catalog::attr_views(
                attrs.drop_first(),
            )[i] == triples.drop_first()[i] by {
                assert(crate::catalog::attr_views(attrs.drop_first())[i] == (
                attrs.drop_first()[i].name@,
                attrs.drop_first()[i].attr_type@,
                attrs.drop_first()[i].required,
                ));
                assert(attrs.drop_first()[i] == attrs[i + 1]);
                assert(crate::catalog::attr_views(attrs)[i + 1] == (
                attrs[i + 1].name@,
                attrs[i + 1].attr_type@,
                attrs[i + 1].required,
                ));
            }
        }
        lemma_attr_views_type_agrees(attrs.drop_first(), triples.drop_first(), name);
    }
}

/// The index record is the bound canonical index of one of the
/// definition's suggestions: named `{category}_{attribute}`, keyed by the
/// attribute with its declared type, over the category's partition.
pub open spec fn spec_bound_suggestion(
    x: IndexInfo,
    cat: Seq<char>,
    suggested: Seq<String>,
    attrs: Seq<AttributeDef>,
) -> bool {
    exists|si: int|
        0 <= si < suggested.len() && x.name@ == cat + "_"@ + (#[trigger] suggested[si])@
            && x.partition_schema@ == cat && x.index_key_name@ == suggested[si]@
            && spec_attr_type_of(attrs, suggested[si]@) == Some(x.index_key_type@)
}

/// An index bound exactly as the canonical index of a category attribute:
/// the `{category}_{attribute}` name, the category as partition, the
/// attribute as key name, and its declared type as key type.
pub open spec fn spec_canonical_index(
    indexes: Seq<IndexInfo>,
    cat: Seq<char>,
    attr: Seq<char>,
    ty: Seq<char>,
) -> bool {
    exists|j: int|
        0 <= j < indexes.len() && (#[trigger] indexes[j]).name@ == cat + "_"@ + attr
            && indexes[j].partition_schema@ == cat && indexes[j].index_key_name@ == attr
            && indexes[j].index_key_type@ == ty
}

/// The schema record carries exactly this catalog entry's name,
/// description and attributes, leniently (`validate` off).
pub open spec fn spec_schema_of_entry(s: PartitionSchemaInfo, e: crate::catalog::CatalogEntry) -> bool {
    &&& s.prefix@ == e.name
    &&& s.description@ == e.description
    &&& s.validate == false
    &&& crate::catalog::attr_views(s.attributes@) == e.attributes
}

/// Bootstrapping created this catalog entry: a schema carrying its exact
/// content exists, and an index exists under the canonical
/// `{category}_{attribute}` name for each of its indexed attributes.
pub open spec fn spec_schema_created_for(
    schemas: Seq<PartitionSchemaInfo>,
    indexes: Seq<IndexInfo>,
    e: crate::catalog::CatalogEntry,
) -> bool {
    &&& exists|j: int|
        0 <= j < schemas.len() && spec_schema_of_entry(#[trigger] schemas[j], e)
    &&& forall|a: int|
        0 <= a < e.indexed.len() ==> spec_has_index(indexes, e.name + "_"@ + #[trigger] e.indexed[a])
}

impl MemoryBackend {
    /// The position of the first attribute with this name, if any.
    fn find_attr(attrs: &Vec<AttributeDef>, name: &str) -> (r: Option<usize>)
        ensures
            match r {
                Some(i) => i < attrs@.len() && attrs@[i as int].name@ == name@ && forall|j: int|
                    0 <= j < i ==> (#[trigger] attrs@[j]).name@ != name@,
                None => forall|j: int| 0 <= j < attrs@.len() ==> (#[trigger] attrs@[j]).name@
                    != name@,
            },
    {
        let n = attrs.len();
        let mut i: usize = 0;
        while i < n
            invariant
                n == attrs@.len(),
                i <= n,
                forall|j: int| 0 <= j < i ==> (#[trigger] attrs@[j]).name@ != name@,
            decreases n - i,
        {
            if str_eq(attrs[i].name.as_str(), name) {
                return Some(i);
            }
            i = i + 1;
        }
        None
    }


    /// Create a partition schema, then a secondary index for each
    /// suggested attribute that the definition declares. Index creation is
    /// best effort: its failures are swallowed.
    pub fn create_schema_with_indexes(
        &mut self,
        category: &str,
        definition: &SchemaDefinition,
        validate: bool,
    ) -> (r: Result<(), MemoryError>)
        requires
            old(self).wf(),
        ensures
            final(self).wf(),
            final(self).items@ == old(self).items@,
            final(self).table_name@ == old(self).table_name@,
            r is Ok <==> !spec_has_schema(old(self).schemas@, category@),
            r is Err ==> final(self).schemas@ == old(self).schemas@ && final(self).indexes@
                == old(self).indexes@ && r matches Err(MemoryError::Schema(_)),
            r is Ok ==> final(self).schemas@.len() == old(self).schemas@.len() + 1 && final(self).schemas@.subrange(0, old(self).schemas@.len() as int) == old(self).schemas@
                && final(self).schemas@.last().prefix@ == category@ && final(self).schemas@.last().description@ == definition.description@ && final(self).schemas@.last().validate == validate && attrs_match(
                final(self).schemas@.last().attributes@,
                definition.attributes@,
            ),
            r is Ok ==> old(self).indexes@.len() <= final(self).indexes@.len() && final(self).indexes@.subrange(0, old(self).indexes@.len() as int) == old(self).indexes@,
            r is Ok ==> forall|si: int|
                0 <= si < definition.suggested_indexes@.len() && (exists|a: int|
                    0 <= a < definition.attributes@.len() && (
                    #[trigger] definition.attributes@[a]).name@
                        == definition.suggested_indexes@[si]@) ==> spec_has_index(
                    final(self).indexes@,
                    category@ + "_"@ + (#[trigger] definition.suggested_indexes@[si])@,
                ),
            r is Ok ==> forall|si: int|
                0 <= si < definition.suggested_indexes@.len() && !spec_has_index(
                    old(self).indexes@,
                    category@ + "_"@ + (#[trigger] definition.suggested_indexes@[si])@,
                ) && spec_attr_type_of(
                    definition.attributes@,
                    definition.suggested_indexes@[si]@,
                ) is Some ==> spec_canonical_index(
                    final(self).indexes@,
                    category@,
                    definition.suggested_indexes@[si]@,
                    spec_attr_type_of(
                        definition.attributes@,
                        definition.suggested_indexes@[si]@,
                    )->0,
                ),
            r is Ok ==> forall|j: int|
                old(self).indexes@.len() <= j < final(self).indexes@.len()
                    ==> spec_bound_suggestion(
                    #[trigger] final(self).indexes@[j],
                    category@,
                    definition.suggested_indexes@,
                    definition.attributes@,
                ),
    {
        let created = self.create_schema(
            category,
            Some(definition.description.as_str()),
            &definition.attributes,
            validate,
        );
        match created {
            Ok(()) => {},
            Err(e) => {
                return Err(e);
            },
        }
        let ghost schemas_after = self.schemas@;
        let ghost indexes_start = self.indexes@;
        let m = definition.suggested_indexes.len();
        let mut s: usize = 0;
        while s < m
            invariant
                self.wf(),
                m == definition.suggested_indexes@.len(),
                s <= m,
                self.items@ == old(self).items@,
                self.table_name@ == old(self).table_name@,
                self.schemas@ == schemas_after,
                indexes_start == old(self).indexes@,
                indexes_start.len() <= self.indexes@.len(),
                self.indexes@.subrange(0, indexes_start.len() as int) == indexes_start,
                spec_has_schema(self.schemas@, category@),
                forall|j: int|
                    indexes_start.len() <= j < self.indexes@.len() ==> spec_bound_suggestion(
                        #[trigger] self.indexes@[j],
                        category@,
                        definition.suggested_indexes@,
                        definition.attributes@,
                    ),
                forall|si: int|
                    0 <= si < s && (exists|a: int|
                        0 <= a < definition.attributes@.len() && (
                        #[trigger] definition.attributes@[a]).name@
                            == definition.suggested_indexes@[si]@) ==> spec_has_index(
                        self.indexes@,
                        category@ + "_"@ + (#[trigger] definition.suggested_indexes@[si])@,
                    ),
            decreases m - s,
        {
            let ghost indexes_before = self.indexes@;
            let sname = &definition.suggested_indexes[s];
            match Self::find_attr(&definition.attributes, sname.as_str()) {
                Some(a) => {
                    let mut iname = String::from_str(category);
                    iname.append("_");
                    iname.append(sname.as_str());
                    let made = self.create_index(
                        iname.as_str(),
                        category,
                        sname.as_str(),
                        definition.attributes[a].attr_type.as_str(),
                    );
                    proof {
                        // Whether the index was just created or its name
                        // was already taken, an index of that name exists,
                        // and earlier indexes stay in place.
                        reveal_strlit("_");
                        assert(iname@ == category@ + "_"@ + sname@);
                        if made is Ok {
                            assert(self.indexes@.last().name@ == iname@);
                            assert forall|x: int|
                                0 <= x < indexes_before.len() implies #[trigger] self.indexes@[x]
                                == indexes_before[x] by {
                                assert(self.indexes@.subrange(0, indexes_before.len() as int)[x]
                                    == indexes_before[x]);
                            }
                            assert(self.indexes@.subrange(0, indexes_start.len() as int)
                                =~= indexes_start);
                            // The one appended index carries this
                            // suggestion's exact bindings.
                            lemma_attr_type_first(
                                definition.attributes@,
                                a as int,
                                sname@,
                            );
                            assert forall|j: int|
                                indexes_start.len() <= j < self.indexes@.len()
                                    implies spec_bound_suggestion(
                                #[trigger] self.indexes@[j],
                                category@,
                                definition.suggested_indexes@,
                                definition.attributes@,
                            ) by {
                                if j < indexes_before.len() {
                                    assert(self.indexes@[j] == indexes_before[j]);
                                    assert(spec_bound_suggestion(
                                        indexes_before[j],
                                        category@,
                                        definition.suggested_indexes@,
                                        definition.attributes@,
                                    ));
                                } else {
                                    let last = self.indexes@.last();
                                    assert(self.indexes@[j] == last);
                                    assert(last.index_key_name@ == sname@);
                                    assert(spec_attr_type_of(definition.attributes@, sname@)
                                        == Some(last.index_key_type@));
                                    assert(last.name@ == category@ + "_"@
                                        + definition.suggested_indexes@[s as int]@);
                                    assert(spec_bound_suggestion(
                                        last,
                                        category@,
                                        definition.suggested_indexes@,
                                        definition.attributes@,
                                    ));
                                }
                            }
                        }
                        assert(spec_has_index(self.indexes@, iname@));
                        assert forall|si: int|
                            0 <= si < s + 1 && (exists|x: int|
                                0 <= x < definition.attributes@.len() && (
                                #[trigger] definition.attributes@[x]).name@
                                    == definition.suggested_indexes@[si]@) implies spec_has_index(
                            self.indexes@,
                            category@ + "_"@ + (#[trigger] definition.suggested_indexes@[si])@,
                        ) by {
                            if si < s {
                                let nm = category@ + "_"@ + definition.suggested_indexes@[si]@;
                                if spec_has_index(indexes_before, nm) {
                                    let j = choose|j: int|
                                        0 <= j < indexes_before.len() && (
                                        #[trigger] indexes_before[j]).name@ == nm;
                                    assert(self.indexes@[j].name@ == nm);
                                }
                            }
                        }
                    }
                },
                None => {},
            }
            s = s + 1;
        }
        proof {
            assert(self.schemas@.last().prefix@ == category@);
            // A canonical name that was free beforehand now denotes an
            // index this call created, carrying the suggestion's exact
            // bindings.
            assert forall|si: int|
                0 <= si < definition.suggested_indexes@.len() && !spec_has_index(
                    indexes_start,
                    category@ + "_"@ + (#[trigger] definition.suggested_indexes@[si])@,
                ) && spec_attr_type_of(
                    definition.attributes@,
                    definition.suggested_indexes@[si]@,
                ) is Some implies spec_canonical_index(
                self.indexes@,
                category@,
                definition.suggested_indexes@[si]@,
                spec_attr_type_of(definition.attributes@, definition.suggested_indexes@[si]@)->0,
            ) by {
                let nm = category@ + "_"@ + definition.suggested_indexes@[si]@;
                lemma_attr_type_some_exists(
                    definition.attributes@,
                    definition.suggested_indexes@[si]@,
                );
                assert(spec_has_index(self.indexes@, nm));
                let j = choose|j: int|
                    0 <= j < self.indexes@.len() && (#[trigger] self.indexes@[j]).name@ == nm;
                if j < indexes_start.len() {
                    assert(self.indexes@.subrange(0, indexes_start.len() as int)[j]
                        == indexes_start[j]);
                    assert(false);
                } else {
                    assert(spec_bound_suggestion(
                        self.indexes@[j],
                        category@,
                        definition.suggested_indexes@,
                        definition.attributes@,
                    ));
                    let si2 = choose|si2: int|
                        0 <= si2 < definition.suggested_indexes@.len() && self.indexes@[j].name@
                            == category@ + "_"@ + (
                        #[trigger] definition.suggested_indexes@[si2])@ && self.indexes@[
                        j].partition_schema@ == category@ && self.indexes@[j].index_key_name@
                            == definition.suggested_indexes@[si2]@ && spec_attr_type_of(
                            definition.attributes@,
                            definition.suggested_indexes@[si2]@,
                        ) == Some(self.indexes@[j].index_key_type@);
                    lemma_canonical_suffix_inj(
                        category@,
                        definition.suggested_indexes@[si2]@,
                        definition.suggested_indexes@[si]@,
                    );
                }
            }
        }
        Ok(())
    }

    /// Create schemas and indexes for every predefined category that lacks
    /// a schema. Afterwards every predefined category has one; each
    /// category that was missing now carries a lenient schema with exactly
    /// its catalog content, plus an index under the canonical
    /// `{category}_{attribute}` name for each of its indexed attributes.
    /// When all nine were already present, nothing changes at all, so a
    /// second call right after a first is a no-op and makes no destructive
    /// calls (the operation is idempotent).
    ///
    /// Index creation is best effort: a failure there does not fail the
    /// bootstrap.
    pub fn ensure_predefined_schemas(&mut self) -> (r: Result<(), MemoryError>)
        requires
            old(self).wf(),
        ensures
            final(self).wf(),
            final(self).items@ == old(self).items@,
            final(self).table_name@ == old(self).table_name@,
            r is Ok,
            spec_all_predefined_present(final(self).schemas@),
            forall|c: Seq<char>|
                spec_has_schema(old(self).schemas@, c) ==> spec_has_schema(
                    final(self).schemas@,
                    c,
                ),
            forall|i: int|
                0 <= i < crate::catalog::spec_catalog().len() && !spec_has_schema(
                    old(self).schemas@,
                    (#[trigger] crate::catalog::spec_catalog()[i]).name,
                ) ==> spec_schema_created_for(
                    final(self).schemas@,
                    final(self).indexes@,
                    crate::catalog::spec_catalog()[i],
                ),
            forall|i: int, a: int|
                0 <= i < crate::catalog::spec_catalog().len() && !spec_has_schema(
                    old(self).schemas@,
                    (#[trigger] crate::catalog::spec_catalog()[i]).name,
                ) && 0 <= a < crate::catalog::spec_catalog()[i].indexed.len()
                    && !spec_has_index(
                    old(self).indexes@,
                    crate::catalog::spec_catalog()[i].name + "_"@ + (
                    #[trigger] crate::catalog::spec_catalog()[i].indexed[a]),
                ) && crate::catalog::spec_entry_attr_type(
                    crate::catalog::spec_catalog()[i],
                    crate::catalog::spec_catalog()[i].indexed[a],
                ) is Some ==> spec_canonical_index(
                    final(self).indexes@,
                    crate::catalog::spec_catalog()[i].name,
                    crate::catalog::spec_catalog()[i].indexed[a],
                    crate::catalog::spec_entry_attr_type(
                        crate::catalog::spec_catalog()[i],
                        crate::catalog::spec_catalog()[i].indexed[a],
                    )->0,
                ),
            spec_all_predefined_present(old(self).schemas@) ==> final(self).schemas@ == old(
                self,
            ).schemas@ && final(self).indexes@ == old(self).indexes@,
    {
        let cats = crate::catalog::predefined_schemas();
        proof {
            crate::catalog::lemma_catalog_names_distinct();
            crate::catalog::lemma_catalog_names_no_underscore();
        }
        let n = cats.len();
        let mut k: usize = 0;
        while k < n
            invariant
                self.wf(),
                n == 9,
                n == cats@.len(),
                k <= n,
                cats@[0].name@ == "project"@,
                cats@[1].name@ == "decisions"@,
                cats@[2].name@ == "contacts"@,
                cats@[3].name@ == "preferences"@,
                cats@[4].name@ == "issues"@,
                cats@[5].name@ == "tools"@,
                cats@[6].name@ == "events"@,
                cats@[7].name@ == "notes"@,
                cats@[8].name@ == "scratchpad"@,
                forall|kk: int|
                    0 <= kk < 9 ==> crate::catalog::spec_entry_wf(#[trigger] cats@[kk]),
                forall|kk: int|
                    0 <= kk < 9 ==> crate::catalog::entry_matches(
                        #[trigger] cats@[kk],
                        crate::catalog::spec_catalog()[kk],
                    ),
                forall|x: int, y: int|
                    0 <= x < y < crate::catalog::spec_catalog().len() ==> (
                    #[trigger] crate::catalog::spec_catalog()[x]).name != (
                    #[trigger] crate::catalog::spec_catalog()[y]).name,
                forall|i: int|
                    0 <= i < crate::catalog::spec_catalog().len()
                        ==> crate::catalog::no_underscore(
                        (#[trigger] crate::catalog::spec_catalog()[i]).name,
                    ),
                forall|j: int|
                    old(self).indexes@.len() <= j < self.indexes@.len()
                        ==> spec_bound_catalog_index(#[trigger] self.indexes@[j]),
                self.items@ == old(self).items@,
                self.table_name@ == old(self).table_name@,
                old(self).schemas@.len() <= self.schemas@.len(),
                self.schemas@.subrange(0, old(self).schemas@.len() as int) == old(self).schemas@,
                old(self).indexes@.len() <= self.indexes@.len(),
                self.indexes@.subrange(0, old(self).indexes@.len() as int) == old(self).indexes@,
                forall|kk: int|
                    0 <= kk < k ==> spec_has_schema(self.schemas@, (#[trigger] cats@[kk]).name@),
                forall|c: Seq<char>|
                    #[trigger] spec_has_schema(self.schemas@, c) ==> spec_has_schema(
                        old(self).schemas@,
                        c,
                    ) || exists|kk: int|
                        0 <= kk < k && (#[trigger] crate::catalog::spec_catalog()[kk]).name == c,
                forall|kk: int|
                    0 <= kk < k && !spec_has_schema(
                        old(self).schemas@,
                        (#[trigger] crate::catalog::spec_catalog()[kk]).name,
                    ) ==> spec_schema_created_for(
                        self.schemas@,
                        self.indexes@,
                        crate::catalog::spec_catalog()[kk],
                    ),
                spec_all_predefined_present(old(self).schemas@) ==> self.schemas@ == old(
                    self,
                ).schemas@ && self.indexes@ == old(self).indexes@,
            decreases n - k,
        {
            let ghost schemas_at_entry = self.schemas@;
            let ghost indexes_at_entry = self.indexes@;
            let ghost e = crate::catalog::spec_catalog()[k as int];
            let cname: &'static str = cats[k].name;
            match self.find_schema(cname) {
                Some(_) => {
                    proof {
                        // The name is present now; it was present at the
                        // start too, since everything added so far was an
                        // earlier (distinct) catalog name.
                        if !spec_has_schema(old(self).schemas@, e.name) {
                            assert(spec_has_schema(self.schemas@, cats@[k as int].name@));
                            assert(cats@[k as int].name@ == e.name);
                            let kk = choose|kk: int|
                                0 <= kk < k && (#[trigger] crate::catalog::spec_catalog()[
                                kk]).name == e.name;
                            assert(false);
                        }
                    }
                },
                None => {
                    proof {
                        // Presence is monotone, so this category was
                        // missing at the start too, and the catalog was
                        // not complete beforehand.
                        if spec_has_schema(old(self).schemas@, cats@[k as int].name@) {
                            let j = choose|j: int|
                                0 <= j < old(self).schemas@.len() && (#[trigger] old(
                                    self,
                                ).schemas@[j]).prefix@ == cats@[k as int].name@;
                            assert(self.schemas@[j] == old(self).schemas@[j]);
                            assert(false);
                        }
                        assert(!spec_all_predefined_present(old(self).schemas@));
                    }
                    let def = cats[k].to_definition();
                    let created = self.create_schema_with_indexes(cname, &def, false);
                    match created {
                        Ok(()) => {},
                        Err(er) => {
                            proof {
                                assert(false);
                            }
                            return Err(er);
                        },
                    }
                    proof {
                        let last = self.schemas@.last();
                        assert(cname@ == cats@[k as int].name@);
                        assert(last.prefix@ == e.name);
                        assert(last.description@ == e.description);
                        // The attribute views agree pointwise through the
                        // runtime definition and the catalog entry.
                        assert(crate::catalog::attr_views(last.attributes@) =~= e.attributes) by {
                            assert(crate::catalog::static_attr_views(cats@[k as int].attributes@)
                                == e.attributes);
                            assert forall|i: int|
                                0 <= i < e.attributes.len() implies crate::catalog::attr_views(
                                last.attributes@,
                            )[i] == e.attributes[i] by {
                                assert(crate::catalog::attr_views(last.attributes@)[i] == (
                                last.attributes@[i].name@,
                                last.attributes@[i].attr_type@,
                                last.attributes@[i].required,
                                ));
                                assert(crate::catalog::static_attr_views(
                                    cats@[k as int].attributes@,
                                )[i] == (
                                cats@[k as int].attributes@[i].name@,
                                cats@[k as int].attributes@[i].attr_type@,
                                cats@[k as int].attributes@[i].required,
                                ));
                                assert(last.attributes@[i].name@ == def.attributes@[i].name@);
                                assert(def.attributes@[i].name@
                                    == cats@[k as int].attributes@[i].name@);
                                assert(last.attributes@[i].attr_type@
                                    == def.attributes@[i].attr_type@);
                                assert(def.attributes@[i].attr_type@
                                    == cats@[k as int].attributes@[i].attr_type@);
                                assert(last.attributes@[i].required
                                    == def.attributes@[i].required);
                                assert(def.attributes@[i].required
                                    == cats@[k as int].attributes@[i].required);
                            }
                        }
                        assert(spec_schema_of_entry(last, e));
                        assert(self.schemas@[self.schemas@.len() - 1] == last);
                        // Each indexed attribute has its canonical index.
                        assert(crate::catalog::indexed_views(cats@[k as int].indexed_attributes@)
                            == e.indexed);
                        assert forall|a: int|
                            0 <= a < e.indexed.len() implies spec_has_index(
                            self.indexes@,
                            e.name + "_"@ + #[trigger] e.indexed[a],
                        ) by {
                            assert(crate::catalog::indexed_views(
                                cats@[k as int].indexed_attributes@,
                            )[a] == cats@[k as int].indexed_attributes@[a]@);
                            assert(e.indexed[a] == cats@[k as int].indexed_attributes@[a]@);
                            assert(def.suggested_indexes@[a]@
                                == cats@[k as int].indexed_attributes@[a]@);
                            assert(crate::catalog::spec_cat_names_contain(
                                cats@[k as int],
                                cats@[k as int].indexed_attributes@[a]@,
                            ));
                            let x = choose|x: int|
                                0 <= x < cats@[k as int].attributes@.len() && (
                                #[trigger] cats@[k as int].attributes@[x]).name@ == cats@[
                                k as int].indexed_attributes@[a]@;
                            assert(def.attributes@[x].name@ == def.suggested_indexes@[a]@);
                            assert(spec_has_index(
                                self.indexes@,
                                cname@ + "_"@ + def.suggested_indexes@[a]@,
                            ));
                        }
                        assert(spec_schema_created_for(self.schemas@, self.indexes@, e));
                        // Earlier creations survive: schemas and indexes
                        // only grow.
                        assert(self.schemas@.subrange(0, old(self).schemas@.len() as int)
                            =~= old(self).schemas@) by {
                            assert forall|x: int|
                                0 <= x < old(self).schemas@.len() implies self.schemas@[x]
                                == old(self).schemas@[x] by {
                                assert(self.schemas@.subrange(
                                    0,
                                    schemas_at_entry.len() as int,
                                )[x] == schemas_at_entry[x]);
                                assert(schemas_at_entry.subrange(
                                    0,
                                    old(self).schemas@.len() as int,
                                )[x] == old(self).schemas@[x]);
                            }
                        }
                        assert(self.indexes@.subrange(0, old(self).indexes@.len() as int)
                            =~= old(self).indexes@) by {
                            assert forall|x: int|
                                0 <= x < old(self).indexes@.len() implies self.indexes@[x]
                                == old(self).indexes@[x] by {
                                assert(self.indexes@.subrange(
                                    0,
                                    indexes_at_entry.len() as int,
                                )[x] == indexes_at_entry[x]);
                                assert(indexes_at_entry.subrange(
                                    0,
                                    old(self).indexes@.len() as int,
                                )[x] == old(self).indexes@[x]);
                            }
                        }
                        assert forall|kk: int|
                            0 <= kk < k && !spec_has_schema(
                                old(self).schemas@,
                                (#[trigger] crate::catalog::spec_catalog()[kk]).name,
                            ) implies spec_schema_created_for(
                            self.schemas@,
                            self.indexes@,
                            crate::catalog::spec_catalog()[kk],
                        ) by {
                            let ee = crate::catalog::spec_catalog()[kk];
                            let j = choose|j: int|
                                0 <= j < schemas_at_entry.len() && spec_schema_of_entry(
                                    #[trigger] schemas_at_entry[j],
                                    ee,
                                );
                            assert(self.schemas@.subrange(0, schemas_at_entry.len() as int)[j]
                                == schemas_at_entry[j]);
                            assert(spec_schema_of_entry(self.schemas@[j], ee));
                            assert forall|a: int|
                                0 <= a < ee.indexed.len() implies spec_has_index(
                                self.indexes@,
                                ee.name + "_"@ + #[trigger] ee.indexed[a],
                            ) by {
                                let nm = ee.name + "_"@ + ee.indexed[a];
                                let jj = choose|jj: int|
                                    0 <= jj < indexes_at_entry.len() && (
                                    #[trigger] indexes_at_entry[jj]).name@ == nm;
                                assert(self.indexes@.subrange(
                                    0,
                                    indexes_at_entry.len() as int,
                                )[jj] == indexes_at_entry[jj]);
                                assert(self.indexes@[jj].name@ == nm);
                            }
                        }
                        // Provenance: anything present now was present
                        // before this step or is this catalog name.
                        assert forall|c: Seq<char>|
                            #[trigger] spec_has_schema(self.schemas@, c) implies spec_has_schema(
                            old(self).schemas@,
                            c,
                        ) || exists|kk: int|
                            0 <= kk < k + 1 && (#[trigger] crate::catalog::spec_catalog()[
                            kk]).name == c by {
                            let j = choose|j: int|
                                0 <= j < self.schemas@.len() && (
                                #[trigger] self.schemas@[j]).prefix@ == c;
                            if j < schemas_at_entry.len() {
                                assert(self.schemas@.subrange(
                                    0,
                                    schemas_at_entry.len() as int,
                                )[j] == schemas_at_entry[j]);
                                assert(spec_has_schema(schemas_at_entry, c));
                            } else {
                                assert(self.schemas@[j] == last);
                                assert(crate::catalog::spec_catalog()[k as int].name == c);
                            }
                        }
                        // The definition's attribute views are the
                        // entry's triples, so type lookups agree.
                        assert(crate::catalog::attr_views(def.attributes@) =~= e.attributes) by {
                            assert(crate::catalog::static_attr_views(cats@[k as int].attributes@)
                                == e.attributes);
                            assert forall|i: int|
                                0 <= i < e.attributes.len() implies crate::catalog::attr_views(
                                def.attributes@,
                            )[i] == e.attributes[i] by {
                                assert(crate::catalog::attr_views(def.attributes@)[i] == (
                                def.attributes@[i].name@,
                                def.attributes@[i].attr_type@,
                                def.attributes@[i].required,
                                ));
                                assert(crate::catalog::static_attr_views(
                                    cats@[k as int].attributes@,
                                )[i] == (
                                cats@[k as int].attributes@[i].name@,
                                cats@[k as int].attributes@[i].attr_type@,
                                cats@[k as int].attributes@[i].required,
                                ));
                                assert(def.attributes@[i].name@
                                    == cats@[k as int].attributes@[i].name@);
                                assert(def.attributes@[i].attr_type@
                                    == cats@[k as int].attributes@[i].attr_type@);
                                assert(def.attributes@[i].required
                                    == cats@[k as int].attributes@[i].required);
                            }
                        }
                        // Every index this step appended is a bound
                        // canonical index of this catalog entry.
                        assert(crate::catalog::spec_catalog().len() == 9);
                        assert forall|j: int|
                            old(self).indexes@.len() <= j < self.indexes@.len()
                                implies spec_bound_catalog_index(#[trigger] self.indexes@[j]) by {
                            if j < indexes_at_entry.len() {
                                assert(self.indexes@.subrange(
                                    0,
                                    indexes_at_entry.len() as int,
                                )[j] == indexes_at_entry[j]);
                                assert(self.indexes@[j] == indexes_at_entry[j]);
                                assert(spec_bound_catalog_index(indexes_at_entry[j]));
                            } else {
                                assert(spec_bound_suggestion(
                                    self.indexes@[j],
                                    cname@,
                                    def.suggested_indexes@,
                                    def.attributes@,
                                ));
                                let si = choose|si: int|
                                    0 <= si < def.suggested_indexes@.len() && self.indexes@[
                                    j].name@ == cname@ + "_"@ + (
                                    #[trigger] def.suggested_indexes@[si])@ && self.indexes@[
                                    j].partition_schema@ == cname@ && self.indexes@[
                                    j].index_key_name@ == def.suggested_indexes@[si]@
                                        && spec_attr_type_of(
                                        def.attributes@,
                                        def.suggested_indexes@[si]@,
                                    ) == Some(self.indexes@[j].index_key_type@);
                                assert(def.suggested_indexes@[si]@
                                    == cats@[k as int].indexed_attributes@[si]@);
                                assert(crate::catalog::indexed_views(
                                    cats@[k as int].indexed_attributes@,
                                )[si] == cats@[k as int].indexed_attributes@[si]@);
                                assert(e.indexed[si] == def.suggested_indexes@[si]@);
                                lemma_attr_views_type_agrees(
                                    def.attributes@,
                                    e.attributes,
                                    def.suggested_indexes@[si]@,
                                );
                                assert(crate::catalog::spec_entry_attr_type(e, e.indexed[si])
                                    == Some(self.indexes@[j].index_key_type@));
                                assert(cname@ == e.name);
                                assert(self.indexes@[j].name@ == e.name + "_"@ + e.indexed[si]);
                                assert(spec_bound_catalog_index(self.indexes@[j]));
                            }
                        }
                    }
                },
            }
            proof {
                assert forall|kk: int|
                    0 <= kk < k + 1 implies spec_has_schema(
                    self.schemas@,
                    (#[trigger] cats@[kk]).name@,
                ) by {
                    if kk < k {
                        let j = choose|j: int|
                            0 <= j < schemas_at_entry.len() && (
                            #[trigger] schemas_at_entry[j]).prefix@ == cats@[kk].name@;
                        assert(self.schemas@.subrange(0, schemas_at_entry.len() as int)
                            =~= schemas_at_entry);
                        assert(self.schemas@[j].prefix@ == cats@[kk].name@);
                    }
                }
            }
            k = k + 1;
        }
        proof {
            // A canonical index name that was free beforehand now denotes
            // an index created by this bootstrap, which carries the
            // entry's exact bindings.
            assert forall|i: int, a: int|
                0 <= i < crate::catalog::spec_catalog().len() && !spec_has_schema(
                    old(self).schemas@,
                    (#[trigger] crate::catalog::spec_catalog()[i]).name,
                ) && 0 <= a < crate::catalog::spec_catalog()[i].indexed.len()
                    && !spec_has_index(
                    old(self).indexes@,
                    crate::catalog::spec_catalog()[i].name + "_"@ + (
                    #[trigger] crate::catalog::spec_catalog()[i].indexed[a]),
                ) && crate::catalog::spec_entry_attr_type(
                    crate::catalog::spec_catalog()[i],
                    crate::catalog::spec_catalog()[i].indexed[a],
                ) is Some implies spec_canonical_index(
                self.indexes@,
                crate::catalog::spec_catalog()[i].name,
                crate::catalog::spec_catalog()[i].indexed[a],
                crate::catalog::spec_entry_attr_type(
                    crate::catalog::spec_catalog()[i],
                    crate::catalog::spec_catalog()[i].indexed[a],
                )->0,
            ) by {
                let ei = crate::catalog::spec_catalog()[i];
                let nm = ei.name + "_"@ + ei.indexed[a];
                assert(spec_schema_created_for(self.schemas@, self.indexes@, ei));
                assert(spec_has_index(self.indexes@, nm));
                let j = choose|j: int|
                    0 <= j < self.indexes@.len() && (#[trigger] self.indexes@[j]).name@ == nm;
                if j < old(self).indexes@.len() {
                    assert(self.indexes@.subrange(0, old(self).indexes@.len() as int)[j]
                        == old(self).indexes@[j]);
                    assert(false);
                } else {
                    assert(spec_bound_catalog_index(self.indexes@[j]));
                    let (kk, a2) = choose|kk: int, a2: int|
                        0 <= kk < crate::catalog::spec_catalog().len() && 0 <= a2
                            < crate::catalog::spec_catalog()[kk].indexed.len() && self.indexes@[
                        j].name@ == crate::catalog::spec_catalog()[kk].name + "_"@ + (
                        #[trigger] crate::catalog::spec_catalog()[kk].indexed[a2])
                            && self.indexes@[j].partition_schema@
                            == crate::catalog::spec_catalog()[kk].name && self.indexes@[
                        j].index_key_name@ == crate::catalog::spec_catalog()[kk].indexed[a2]
                            && crate::catalog::spec_entry_attr_type(
                            crate::catalog::spec_catalog()[kk],
                            crate::catalog::spec_catalog()[kk].indexed[a2],
                        ) == Some(self.indexes@[j].index_key_type@);
                    lemma_canonical_unambiguous(
                        crate::catalog::spec_catalog()[kk].name,
                        crate::catalog::spec_catalog()[kk].indexed[a2],
                        ei.name,
                        ei.indexed[a],
                    );
                    if kk != i {
                        if kk < i {
                            assert(crate::catalog::spec_catalog()[kk].name
                                != crate::catalog::spec_catalog()[i].name);
                        } else {
                            assert(crate::catalog::spec_catalog()[i].name
                                != crate::catalog::spec_catalog()[kk].name);
                        }
                        assert(false);
                    }
                    assert(spec_canonical_index(
                        self.indexes@,
                        ei.name,
                        ei.indexed[a],
                        crate::catalog::spec_entry_attr_type(ei, ei.indexed[a])->0,
                    ));
                }
            }
        }
        Ok(())
    }
}

} // verus!
