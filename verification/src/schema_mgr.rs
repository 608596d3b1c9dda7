//! Schema management for memory categories: a thin facade over the
//! backend's partition-schema and secondary-index operations.
//!
//! A missing schema is recognized by substrings of the backend's error
//! message (`not found` and friends) and translated into an absent value
//! rather than an error.

use vstd::prelude::*;
use vstd::string::StringExecFns;
use crate::catalog::SchemaDefinition;
use crate::error::MemoryError;
use crate::store::{
    IndexInfo, MemoryBackend, PartitionSchemaInfo, index_matches, schema_matches,
    spec_has_index, spec_has_schema,
};
use crate::text::{contains_str, matches_at, spec_contains_seq};

verus! {

/// Manages partition schemas and secondary indexes via the memory backend.
pub struct SchemaManager {
    pub backend: MemoryBackend,
}

/// The backend's missing-schema message contains `not found`.
proof fn lemma_not_found_message(prefix: Seq<char>)
    ensures
        spec_contains_seq("partition schema not found: "@ + prefix, "not found"@),
{
    reveal_strlit("partition schema not found: ");
    reveal_strlit("not found");
    let m = "partition schema not found: "@ + prefix;
    assert(m.subrange(17, 26) =~= "not found"@);
    assert(matches_at(m, "not found"@, 17));
}

impl SchemaManager {
    /// Wrap a backend.
    pub fn new(backend: MemoryBackend) -> (r: SchemaManager)
        ensures
            r.backend == backend,
    {
        SchemaManager { backend }
    }

    /// Check if a partition schema exists for a category. The backend's
    /// missing-schema error is translated into `Ok(false)`.
    pub fn has_schema(&self, category: &str) -> (r: Result<bool, MemoryError>)
        requires
            self.backend.wf(),
        ensures
            r matches Ok(b) && b == spec_has_schema(self.backend.schemas@, category@),
    {
        match self.backend.describe_schema(category) {
            Ok(_) => Ok(true),
            Err(e) => {
                proof {
                    lemma_not_found_message(category@);
                }
                match e {
                    MemoryError::Schema(m) => {
                        if contains_str(m.as_str(), "not found") || contains_str(
                            m.as_str(),
                            "NotFound",
                        ) || contains_str(m.as_str(), "does not exist") || contains_str(
                            m.as_str(),
                            "SchemaNotFound",
                        ) {
                            Ok(false)
                        } else {
                            proof {
                                assert(false);
                            }
                            Err(MemoryError::Schema(m))
                        }
                    },
                    other => {
                        proof {
                            assert(false);
                        }
                        Err(other)
                    },
                }
            },
        }
    }

    /// Get the partition schema for a category, if one exists. The
    /// backend's missing-schema error is translated into `Ok(None)`.
    pub fn get_schema(&self, category: &str) -> (r: Result<
        Option<PartitionSchemaInfo>,
        MemoryError,
    >)
        requires
            self.backend.wf(),
        ensures
            match r {
                Ok(Some(s)) => exists|j: int|
                    0 <= j < self.backend.schemas@.len() && (
                    #[trigger] self.backend.schemas@[j]).prefix@ == category@ && schema_matches(
                        s,
                        self.backend.schemas@[j],
                    ),
                Ok(None) => !spec_has_schema(self.backend.schemas@, category@),
                Err(_) => false,
            },
    {
        match self.backend.describe_schema(category) {
            Ok(info) => Ok(Some(info)),
            Err(e) => {
                proof {
                    lemma_not_found_message(category@);
                }
                match e {
                    MemoryError::Schema(m) => {
                        if contains_str(m.as_str(), "not found") || contains_str(
                            m.as_str(),
                            "NotFound",
                        ) || contains_str(m.as_str(), "does not exist") || contains_str(
                            m.as_str(),
                            "SchemaNotFound",
                        ) {
                            Ok(None)
                        } else {
                            proof {
                                assert(false);
                            }
                            Err(MemoryError::Schema(m))
                        }
                    },
                    other => {
                        proof {
                            assert(false);
                        }
                        Err(other)
                    },
                }
            },
        }
    }

    /// List all partition schemas.
    pub fn list_schemas(&self) -> (r: Result<Vec<PartitionSchemaInfo>, MemoryError>)
        requires
            self.backend.wf(),
        ensures
            r matches Ok(v) && v@.len() == self.backend.schemas@.len() && forall|i: int|
                0 <= i < v@.len() ==> schema_matches(#[trigger] v@[i], self.backend.schemas@[i]),
    {
        self.backend.list_schemas()
    }

    /// Create a partition schema, then a secondary index for each
    /// suggested attribute that the definition declares. Index creation is
    /// best effort: its failures are swallowed.
    ///
    /// When `validate` is true the store will reject writes that do not
    /// conform; predefined schemas use `false` (lenient).
    pub fn create_schema_with_indexes(
        &mut self,
        category: &str,
        definition: &SchemaDefinition,
        validate: bool,
    ) -> (r: Result<(), MemoryError>)
        requires
            old(self).backend.wf(),
        ensures
            final(self).backend.wf(),
            final(self).backend.items@ == old(self).backend.items@,
            final(self).backend.table_name@ == old(self).backend.table_name@,
            r is Ok <==> !spec_has_schema(old(self).backend.schemas@, category@),
            r is Err ==> final(self).backend.schemas@ == old(self).backend.schemas@ && final(self).backend.indexes@ == old(self).backend.indexes@ && r matches Err(
                MemoryError::Schema(_),
            ),
            r is Ok ==> spec_has_schema(final(self).backend.schemas@, category@),
            r is Ok ==> final(self).backend.schemas@.last().prefix@ == category@ && final(self).backend.schemas@.last().description@ == definition.description@ && final(self).backend.schemas@.last().validate == validate && crate::store::attrs_match(
                final(self).backend.schemas@.last().attributes@,
                definition.attributes@,
            ),
            r is Ok ==> forall|si: int|
                0 <= si < definition.suggested_indexes@.len() && (exists|a: int|
                    0 <= a < definition.attributes@.len() && (
                    #[trigger] definition.attributes@[a]).name@ == definition.suggested_indexes@[si]@)
                    ==> spec_has_index(
                    final(self).backend.indexes@,
                    category@ + "_"@ + (#[trigger] definition.suggested_indexes@[si])@,
                ),
            r is Ok ==> forall|si: int|
                0 <= si < definition.suggested_indexes@.len() && !crate::store::spec_has_index(
                    old(self).backend.indexes@,
                    category@ + "_"@ + (#[trigger] definition.suggested_indexes@[si])@,
                ) && crate::store::spec_attr_type_of(
                    definition.attributes@,
                    definition.suggested_indexes@[si]@,
                ) is Some ==> crate::store::spec_canonical_index(
                    final(self).backend.indexes@,
                    category@,
                    definition.suggested_indexes@[si]@,
                    crate::store::spec_attr_type_of(
                        definition.attributes@,
                        definition.suggested_indexes@[si]@,
                    )->0,
                ),
    {
        self.backend.create_schema_with_indexes(category, definition, validate)
    }

    /// List all secondary indexes.
    pub fn list_indexes(&self) -> (r: Result<Vec<IndexInfo>, MemoryError>)
        requires
            self.backend.wf(),
        ensures
            r matches Ok(v) && v@.len() == self.backend.indexes@.len() && forall|i: int|
                0 <= i < v@.len() ==> index_matches(#[trigger] v@[i], self.backend.indexes@[i]),
    {
        self.backend.list_indexes()
    }

    /// Find the canonically named secondary index for a category and
    /// attribute (`{category}_{attribute}`), if present.
    pub fn find_index(&self, category: &str, attribute: &str) -> (r: Result<
        Option<IndexInfo>,
        MemoryError,
    >)
        requires
            self.backend.wf(),
        ensures
            match r {
                Ok(Some(x)) => exists|j: int|
                    0 <= j < self.backend.indexes@.len() && (
                    #[trigger] self.backend.indexes@[j]).name@ == category@ + "_"@ + attribute@
                        && index_matches(x, self.backend.indexes@[j]),
                Ok(None) => !spec_has_index(self.backend.indexes@, category@ + "_"@ + attribute@),
                Err(_) => false,
            },
    {
        let mut iname = String::from_str(category);
        iname.append("_");
        iname.append(attribute);
        proof {
            reveal_strlit("_");
        }
        match self.backend.describe_index(iname.as_str()) {
            Ok(x) => Ok(Some(x)),
            Err(_) => Ok(None),
        }
    }
}

} // verus!
