//! The predefined category catalog: nine built-in memory categories with
//! typed attributes and the attributes to index, plus the runtime schema
//! definition type they convert into.

use vstd::prelude::*;
use vstd::string::StringExecFns;

verus! {

/// Compile-time attribute definition for predefined schemas.
pub struct StaticAttributeDef {
    pub name: &'static str,
    /// One of `STRING`, `NUMBER`, `BOOLEAN`.
    pub attr_type: &'static str,
    pub required: bool,
}

/// Attribute definition for a schema.
pub struct AttributeDef {
    pub name: String,
    /// One of `STRING`, `NUMBER`, `BOOLEAN`.
    pub attr_type: String,
    pub required: bool,
}

impl Clone for AttributeDef {
    fn clone(&self) -> (r: Self)
        ensures
            r.name@ == self.name@,
            r.attr_type@ == self.attr_type@,
            r.required == self.required,
    {
        AttributeDef {
            name: self.name.clone(),
            attr_type: self.attr_type.clone(),
            required: self.required,
        }
    }
}

/// Schema definition for explicit creation (via `define` or predefined
/// init).
pub struct SchemaDefinition {
    /// Human-readable description of the category.
    pub description: String,
    /// Typed attributes for items in this category.
    pub attributes: Vec<AttributeDef>,
    /// Attribute names that should be indexed for fast lookups.
    pub suggested_indexes: Vec<String>,
}

/// A built-in category definition.
pub struct PredefinedCategory {
    pub name: &'static str,
    pub description: &'static str,
    pub attributes: Vec<StaticAttributeDef>,
    pub indexed_attributes: Vec<&'static str>,
}


/// Specification-level image of one catalog entry: its name, description,
/// attribute triples `(name, type, required)`, and indexed attribute
/// names.
pub struct CatalogEntry {
    pub name: Seq<char>,
    pub description: Seq<char>,
    pub attributes: Seq<(Seq<char>, Seq<char>, bool)>,
    pub indexed: Seq<Seq<char>>,
}

/// The nine predefined categories, as specification data.
pub open spec fn spec_catalog() -> Seq<CatalogEntry> {
    seq![
        CatalogEntry {
            name: "project"@,
            description: "Domain knowledge — structure, patterns, key facts"@,
            attributes: seq![("topic"@, "STRING"@, false), ("area"@, "STRING"@, false), ("details"@, "STRING"@, false), ("content"@, "STRING"@, false), ("expires_at"@, "STRING"@, false), ("created_at"@, "STRING"@, false)],
            indexed: seq!["area"@, "topic"@],
        },
        CatalogEntry {
            name: "decisions"@,
            description: "Decisions with rationale — what was chosen and why"@,
            attributes: seq![("title"@, "STRING"@, false), ("domain"@, "STRING"@, false), ("decision"@, "STRING"@, false), ("rationale"@, "STRING"@, false), ("content"@, "STRING"@, false), ("expires_at"@, "STRING"@, false), ("created_at"@, "STRING"@, false)],
            indexed: seq!["domain"@],
        },
        CatalogEntry {
            name: "contacts"@,
            description: "People — names, roles, contact info"@,
            attributes: seq![("name"@, "STRING"@, false), ("email"@, "STRING"@, false), ("role"@, "STRING"@, false), ("team"@, "STRING"@, false), ("notes"@, "STRING"@, false), ("content"@, "STRING"@, false), ("expires_at"@, "STRING"@, false), ("created_at"@, "STRING"@, false)],
            indexed: seq!["name"@, "email"@, "role"@, "team"@],
        },
        CatalogEntry {
            name: "preferences"@,
            description: "User preferences, workflow patterns, directives"@,
            attributes: seq![("scope"@, "STRING"@, false), ("preference"@, "STRING"@, false), ("content"@, "STRING"@, false), ("expires_at"@, "STRING"@, false), ("created_at"@, "STRING"@, false)],
            indexed: seq!["scope"@],
        },
        CatalogEntry {
            name: "issues"@,
            description: "Problems and their resolutions — symptoms, causes, fixes"@,
            attributes: seq![("area"@, "STRING"@, false), ("symptom"@, "STRING"@, false), ("cause"@, "STRING"@, false), ("fix"@, "STRING"@, false), ("workaround"@, "STRING"@, false), ("resolved"@, "BOOLEAN"@, false), ("content"@, "STRING"@, false), ("expires_at"@, "STRING"@, false), ("created_at"@, "STRING"@, false)],
            indexed: seq!["area"@],
        },
        CatalogEntry {
            name: "tools"@,
            description: "Tools, services, resources, infrastructure"@,
            attributes: seq![("kind"@, "STRING"@, false), ("name"@, "STRING"@, false), ("value"@, "STRING"@, false), ("notes"@, "STRING"@, false), ("content"@, "STRING"@, false), ("expires_at"@, "STRING"@, false), ("created_at"@, "STRING"@, false)],
            indexed: seq!["kind"@, "name"@],
        },
        CatalogEntry {
            name: "events"@,
            description: "Appointments, deadlines, scheduled events"@,
            attributes: seq![("title"@, "STRING"@, false), ("date"@, "STRING"@, false), ("time"@, "STRING"@, false), ("location"@, "STRING"@, false), ("notes"@, "STRING"@, false), ("content"@, "STRING"@, false), ("expires_at"@, "STRING"@, false), ("created_at"@, "STRING"@, false)],
            indexed: seq!["date"@, "title"@],
        },
        CatalogEntry {
            name: "notes"@,
            description: "General-purpose catch-all"@,
            attributes: seq![("topic"@, "STRING"@, false), ("content"@, "STRING"@, false), ("expires_at"@, "STRING"@, false), ("created_at"@, "STRING"@, false)],
            indexed: seq!["topic"@],
        },
        CatalogEntry {
            name: "scratchpad"@,
            description: "Ephemeral working memory — observations and quick captures (24h default TTL)"@,
            attributes: seq![("topic"@, "STRING"@, false), ("content"@, "STRING"@, false), ("source"@, "STRING"@, false), ("expires_at"@, "STRING"@, false), ("created_at"@, "STRING"@, false)],
            indexed: seq!["topic"@],
        },
    ]
}

/// The views of a runtime attribute list.
pub open spec fn attr_views(attrs: Seq<AttributeDef>) -> Seq<(Seq<char>, Seq<char>, bool)> {
    attrs.map_values(|a: AttributeDef| (a.name@, a.attr_type@, a.required))
}

/// The views of a compile-time attribute list.
pub open spec fn static_attr_views(attrs: Seq<StaticAttributeDef>) -> Seq<
    (Seq<char>, Seq<char>, bool),
> {
    attrs.map_values(|a: StaticAttributeDef| (a.name@, a.attr_type@, a.required))
}

/// The views of a list of indexed attribute names.
pub open spec fn indexed_views(ix: Seq<&'static str>) -> Seq<Seq<char>> {
    ix.map_values(|s: &'static str| s@)
}

/// The runtime category mirrors the specification entry exactly.
pub open spec fn entry_matches(c: PredefinedCategory, e: CatalogEntry) -> bool {
    &&& c.name@ == e.name
    &&& c.description@ == e.description
    &&& static_attr_views(c.attributes@) == e.attributes
    &&& indexed_views(c.indexed_attributes@) == e.indexed
}

/// The text holds no underscore.
pub open spec fn no_underscore(s: Seq<char>) -> bool {
    forall|m: int| 0 <= m < s.len() ==> s[m] != '_'
}

/// The declared type of the first attribute triple of this name, if any.
pub open spec fn spec_triples_type(
    attrs: Seq<(Seq<char>, Seq<char>, bool)>,
    name: Seq<char>,
) -> Option<Seq<char>>
    decreases attrs.len(),
{
    if attrs.len() == 0 {
        None
    } else if attrs[0].0 == name {
        Some(attrs[0].1)
    } else {
        spec_triples_type(attrs.drop_first(), name)
    }
}

/// The declared type of a catalog entry's attribute, if any.
pub open spec fn spec_entry_attr_type(e: CatalogEntry, name: Seq<char>) -> Option<Seq<char>> {
    spec_triples_type(e.attributes, name)
}

/// No catalog name holds an underscore, so a canonical
/// `{category}_{attribute}` index name determines its category.
pub proof fn lemma_catalog_names_no_underscore()
    ensures
        forall|i: int|
            0 <= i < spec_catalog().len() ==> no_underscore(
                (#[trigger] spec_catalog()[i]).name,
            ),
{
    reveal_strlit("project");
    reveal_strlit("decisions");
    reveal_strlit("contacts");
    reveal_strlit("preferences");
    reveal_strlit("issues");
    reveal_strlit("tools");
    reveal_strlit("events");
    reveal_strlit("notes");
    reveal_strlit("scratchpad");
    assert(no_underscore("project"@));
    assert(no_underscore("decisions"@));
    assert(no_underscore("contacts"@));
    assert(no_underscore("preferences"@));
    assert(no_underscore("issues"@));
    assert(no_underscore("tools"@));
    assert(no_underscore("events"@));
    assert(no_underscore("notes"@));
    assert(no_underscore("scratchpad"@));
}

/// The nine catalog names are pairwise distinct.
pub proof fn lemma_catalog_names_distinct()
    ensures
        forall|x: int, y: int|
            0 <= x < y < spec_catalog().len() ==> (#[trigger] spec_catalog()[x]).name != (
            #[trigger] spec_catalog()[y]).name,
{
    reveal_strlit("project");
    reveal_strlit("decisions");
    reveal_strlit("contacts");
    reveal_strlit("preferences");
    reveal_strlit("issues");
    reveal_strlit("tools");
    reveal_strlit("events");
    reveal_strlit("notes");
    reveal_strlit("scratchpad");
    assert("project"@.len() == 7);
    assert("decisions"@.len() == 9);
    assert("contacts"@.len() == 8);
    assert("preferences"@.len() == 11);
    assert("issues"@.len() == 6);
    assert("tools"@.len() == 5);
    assert("events"@.len() == 6);
    assert("notes"@.len() == 5);
    assert("scratchpad"@.len() == 10);
    assert("issues"@[0] == 'i' && "events"@[0] == 'e');
    assert("tools"@[0] == 't' && "notes"@[0] == 'n');
}

/// The category declares a non-required attribute of this name and type.
pub open spec fn spec_cat_has(c: PredefinedCategory, name: Seq<char>, ty: Seq<char>) -> bool {
    exists|j: int|
        0 <= j < c.attributes@.len() && (#[trigger] c.attributes@[j]).name@ == name
            && c.attributes@[j].attr_type@ == ty && !c.attributes@[j].required
}

/// Some attribute of the category carries this name.
pub open spec fn spec_cat_names_contain(c: PredefinedCategory, name: Seq<char>) -> bool {
    exists|j: int| 0 <= j < c.attributes@.len() && (#[trigger] c.attributes@[j]).name@ == name
}

/// The invariants of one catalog entry: every attribute is non-required;
/// `content`, `created_at` and `expires_at` are declared as strings; and
/// every indexed attribute appears among the attributes.
pub open spec fn spec_entry_wf(c: PredefinedCategory) -> bool {
    &&& forall|i: int| 0 <= i < c.attributes@.len() ==> !(#[trigger] c.attributes@[i]).required
    &&& spec_cat_has(c, "content"@, "STRING"@)
    &&& spec_cat_has(c, "created_at"@, "STRING"@)
    &&& spec_cat_has(c, "expires_at"@, "STRING"@)
    &&& forall|i: int|
        0 <= i < c.indexed_attributes@.len() ==> spec_cat_names_contain(
            c,
            (#[trigger] c.indexed_attributes@[i])@,
        )
}

/// A non-required attribute of the given type.
fn sattr(name: &'static str, attr_type: &'static str) -> (a: StaticAttributeDef)
    ensures
        a.name@ == name@,
        a.attr_type@ == attr_type@,
        a.required == false,
{
    StaticAttributeDef { name, attr_type, required: false }
}

/// The three attributes every category shares, appended in order:
/// `content`, `expires_at`, `created_at`.
fn push_common_attrs(attrs: &mut Vec<StaticAttributeDef>)
    ensures
        final(attrs)@ == old(attrs)@.push(
            StaticAttributeDef { name: "content", attr_type: "STRING", required: false },
        ).push(
            StaticAttributeDef { name: "expires_at", attr_type: "STRING", required: false },
        ).push(
            StaticAttributeDef { name: "created_at", attr_type: "STRING", required: false },
        ),
{
    attrs.push(StaticAttributeDef { name: "content", attr_type: "STRING", required: false });
    attrs.push(StaticAttributeDef { name: "expires_at", attr_type: "STRING", required: false });
    attrs.push(StaticAttributeDef { name: "created_at", attr_type: "STRING", required: false });
}

/// The entry invariants hold when every attribute is one of the `sattr`
/// results pushed, the common tail is present, and each indexed name was
/// asserted to occur; this helper bundles the common-attribute witnesses.
proof fn lemma_common_attrs_wf(c: PredefinedCategory, base: int)
    requires
        0 <= base,
        base + 3 <= c.attributes@.len(),
        c.attributes@[base].name@ == "content"@,
        c.attributes@[base].attr_type@ == "STRING"@,
        !c.attributes@[base].required,
        c.attributes@[base + 1].name@ == "expires_at"@,
        c.attributes@[base + 1].attr_type@ == "STRING"@,
        !c.attributes@[base + 1].required,
        c.attributes@[base + 2].name@ == "created_at"@,
        c.attributes@[base + 2].attr_type@ == "STRING"@,
        !c.attributes@[base + 2].required,
    ensures
        spec_cat_has(c, "content"@, "STRING"@),
        spec_cat_has(c, "created_at"@, "STRING"@),
        spec_cat_has(c, "expires_at"@, "STRING"@),
{
}

impl PredefinedCategory {
    /// Convert to a runtime [`SchemaDefinition`] for database creation.
    pub fn to_definition(&self) -> (r: SchemaDefinition)
        ensures
            r.description@ == self.description@,
            r.attributes@.len() == self.attributes@.len(),
            forall|i: int|
                0 <= i < r.attributes@.len() ==> (#[trigger] r.attributes@[i]).name@
                    == self.attributes@[i].name@ && r.attributes@[i].attr_type@
                    == self.attributes@[i].attr_type@ && r.attributes@[i].required
                    == self.attributes@[i].required,
            r.suggested_indexes@.len() == self.indexed_attributes@.len(),
            forall|i: int|
                0 <= i < r.suggested_indexes@.len() ==> (#[trigger] r.suggested_indexes@[i])@
                    == self.indexed_attributes@[i]@,
    {
        let mut attributes: Vec<AttributeDef> = Vec::new();
        let n = self.attributes.len();
        let mut i: usize = 0;
        while i < n
            invariant
                n == self.attributes@.len(),
                i <= n,
                attributes@.len() == i,
                forall|j: int|
                    0 <= j < i ==> (#[trigger] attributes@[j]).name@ == self.attributes@[j].name@
                        && attributes@[j].attr_type@ == self.attributes@[j].attr_type@
                        && attributes@[j].required == self.attributes@[j].required,
            decreases n - i,
        {
            let a = &self.attributes[i];
            attributes.push(
                AttributeDef {
                    name: String::from_str(a.name),
                    attr_type: String::from_str(a.attr_type),
                    required: a.required,
                },
            );
            i = i + 1;
        }
        let mut suggested_indexes: Vec<String> = Vec::new();
        let m = self.indexed_attributes.len();
        let mut i: usize = 0;
        while i < m
            invariant
                m == self.indexed_attributes@.len(),
                i <= m,
                suggested_indexes@.len() == i,
                forall|j: int|
                    0 <= j < i ==> (#[trigger] suggested_indexes@[j])@
                        == self.indexed_attributes@[j]@,
            decreases m - i,
        {
            suggested_indexes.push(String::from_str(self.indexed_attributes[i]));
            i = i + 1;
        }
        SchemaDefinition {
            description: String::from_str(self.description),
            attributes,
            suggested_indexes,
        }
    }
}


/// The `project` category.
fn cat_project() -> (c: PredefinedCategory)
    ensures
        c.name@ == "project"@,
        spec_entry_wf(c),
        entry_matches(c, spec_catalog()[0]),
{
    let mut attrs: Vec<StaticAttributeDef> = Vec::new();
    attrs.push(sattr("topic", "STRING"));
    attrs.push(sattr("area", "STRING"));
    attrs.push(sattr("details", "STRING"));
    push_common_attrs(&mut attrs);
    let mut indexed: Vec<&'static str> = Vec::new();
    indexed.push("area");
    indexed.push("topic");
    let c = PredefinedCategory {
        name: "project",
        description: "Domain knowledge — structure, patterns, key facts",
        attributes: attrs,
        indexed_attributes: indexed,
    };
    proof {
        lemma_common_attrs_wf(c, 3);
        assert forall|i: int|
            0 <= i < c.indexed_attributes@.len() implies spec_cat_names_contain(
            c,
            (#[trigger] c.indexed_attributes@[i])@,
        ) by {
            assert(c.attributes@[1].name@ == c.indexed_attributes@[0]@);
            assert(c.attributes@[0].name@ == c.indexed_attributes@[1]@);
        }
    }
    proof {
        assert(static_attr_views(c.attributes@) =~= spec_catalog()[0].attributes);
        assert(indexed_views(c.indexed_attributes@) =~= spec_catalog()[0].indexed);
        assert(entry_matches(c, spec_catalog()[0]));
    }
    c
}

/// The `decisions` category.
fn cat_decisions() -> (c: PredefinedCategory)
    ensures
        c.name@ == "decisions"@,
        spec_entry_wf(c),
        entry_matches(c, spec_catalog()[1]),
{
    let mut attrs: Vec<StaticAttributeDef> = Vec::new();
    attrs.push(sattr("title", "STRING"));
    attrs.push(sattr("domain", "STRING"));
    attrs.push(sattr("decision", "STRING"));
    attrs.push(sattr("rationale", "STRING"));
    push_common_attrs(&mut attrs);
    let mut indexed: Vec<&'static str> = Vec::new();
    indexed.push("domain");
    let c = PredefinedCategory {
        name: "decisions",
        description: "Decisions with rationale — what was chosen and why",
        attributes: attrs,
        indexed_attributes: indexed,
    };
    proof {
        lemma_common_attrs_wf(c, 4);
        assert forall|i: int|
            0 <= i < c.indexed_attributes@.len() implies spec_cat_names_contain(
            c,
            (#[trigger] c.indexed_attributes@[i])@,
        ) by {
            assert(c.attributes@[1].name@ == c.indexed_attributes@[0]@);
        }
    }
    proof {
        assert(static_attr_views(c.attributes@) =~= spec_catalog()[1].attributes);
        assert(indexed_views(c.indexed_attributes@) =~= spec_catalog()[1].indexed);
        assert(entry_matches(c, spec_catalog()[1]));
    }
    c
}

/// The `contacts` category.
fn cat_contacts() -> (c: PredefinedCategory)
    ensures
        c.name@ == "contacts"@,
        spec_entry_wf(c),
        entry_matches(c, spec_catalog()[2]),
{
    let mut attrs: Vec<StaticAttributeDef> = Vec::new();
    attrs.push(sattr("name", "STRING"));
    attrs.push(sattr("email", "STRING"));
    attrs.push(sattr("role", "STRING"));
    attrs.push(sattr("team", "STRING"));
    attrs.push(sattr("notes", "STRING"));
    push_common_attrs(&mut attrs);
    let mut indexed: Vec<&'static str> = Vec::new();
    indexed.push("name");
    indexed.push("email");
    indexed.push("role");
    indexed.push("team");
    let c = PredefinedCategory {
        name: "contacts",
        description: "People — names, roles, contact info",
        attributes: attrs,
        indexed_attributes: indexed,
    };
    proof {
        lemma_common_attrs_wf(c, 5);
        assert forall|i: int|
            0 <= i < c.indexed_attributes@.len() implies spec_cat_names_contain(
            c,
            (#[trigger] c.indexed_attributes@[i])@,
        ) by {
            assert(c.attributes@[0].name@ == c.indexed_attributes@[0]@);
            assert(c.attributes@[1].name@ == c.indexed_attributes@[1]@);
            assert(c.attributes@[2].name@ == c.indexed_attributes@[2]@);
            assert(c.attributes@[3].name@ == c.indexed_attributes@[3]@);
        }
    }
    proof {
        assert(static_attr_views(c.attributes@) =~= spec_catalog()[2].attributes);
        assert(indexed_views(c.indexed_attributes@) =~= spec_catalog()[2].indexed);
        assert(entry_matches(c, spec_catalog()[2]));
    }
    c
}

/// The `preferences` category.
fn cat_preferences() -> (c: PredefinedCategory)
    ensures
        c.name@ == "preferences"@,
        spec_entry_wf(c),
        entry_matches(c, spec_catalog()[3]),
{
    let mut attrs: Vec<StaticAttributeDef> = Vec::new();
    attrs.push(sattr("scope", "STRING"));
    attrs.push(sattr("preference", "STRING"));
    push_common_attrs(&mut attrs);
    let mut indexed: Vec<&'static str> = Vec::new();
    indexed.push("scope");
    let c = PredefinedCategory {
        name: "preferences",
        description: "User preferences, workflow patterns, directives",
        attributes: attrs,
        indexed_attributes: indexed,
    };
    proof {
        lemma_common_attrs_wf(c, 2);
        assert forall|i: int|
            0 <= i < c.indexed_attributes@.len() implies spec_cat_names_contain(
            c,
            (#[trigger] c.indexed_attributes@[i])@,
        ) by {
            assert(c.attributes@[0].name@ == c.indexed_attributes@[0]@);
        }
    }
    proof {
        assert(static_attr_views(c.attributes@) =~= spec_catalog()[3].attributes);
        assert(indexed_views(c.indexed_attributes@) =~= spec_catalog()[3].indexed);
        assert(entry_matches(c, spec_catalog()[3]));
    }
    c
}

/// The `issues` category.
fn cat_issues() -> (c: PredefinedCategory)
    ensures
        c.name@ == "issues"@,
        spec_entry_wf(c),
        entry_matches(c, spec_catalog()[4]),
{
    let mut attrs: Vec<StaticAttributeDef> = Vec::new();
    attrs.push(sattr("area", "STRING"));
    attrs.push(sattr("symptom", "STRING"));
    attrs.push(sattr("cause", "STRING"));
    attrs.push(sattr("fix", "STRING"));
    attrs.push(sattr("workaround", "STRING"));
    attrs.push(sattr("resolved", "BOOLEAN"));
    push_common_attrs(&mut attrs);
    let mut indexed: Vec<&'static str> = Vec::new();
    indexed.push("area");
    let c = PredefinedCategory {
        name: "issues",
        description: "Problems and their resolutions — symptoms, causes, fixes",
        attributes: attrs,
        indexed_attributes: indexed,
    };
    proof {
        lemma_common_attrs_wf(c, 6);
        assert forall|i: int|
            0 <= i < c.indexed_attributes@.len() implies spec_cat_names_contain(
            c,
            (#[trigger] c.indexed_attributes@[i])@,
        ) by {
            assert(c.attributes@[0].name@ == c.indexed_attributes@[0]@);
        }
    }
    proof {
        assert(static_attr_views(c.attributes@) =~= spec_catalog()[4].attributes);
        assert(indexed_views(c.indexed_attributes@) =~= spec_catalog()[4].indexed);
        assert(entry_matches(c, spec_catalog()[4]));
    }
    c
}

/// The `tools` category.
fn cat_tools() -> (c: PredefinedCategory)
    ensures
        c.name@ == "tools"@,
        spec_entry_wf(c),
        entry_matches(c, spec_catalog()[5]),
{
    let mut attrs: Vec<StaticAttributeDef> = Vec::new();
    attrs.push(sattr("kind", "STRING"));
    attrs.push(sattr("name", "STRING"));
    attrs.push(sattr("value", "STRING"));
    attrs.push(sattr("notes", "STRING"));
    push_common_attrs(&mut attrs);
    let mut indexed: Vec<&'static str> = Vec::new();
    indexed.push("kind");
    indexed.push("name");
    let c = PredefinedCategory {
        name: "tools",
        description: "Tools, services, resources, infrastructure",
        attributes: attrs,
        indexed_attributes: indexed,
    };
    proof {
        lemma_common_attrs_wf(c, 4);
        assert forall|i: int|
            0 <= i < c.indexed_attributes@.len() implies spec_cat_names_contain(
            c,
            (#[trigger] c.indexed_attributes@[i])@,
        ) by {
            assert(c.attributes@[0].name@ == c.indexed_attributes@[0]@);
            assert(c.attributes@[1].name@ == c.indexed_attributes@[1]@);
        }
    }
    proof {
        assert(static_attr_views(c.attributes@) =~= spec_catalog()[5].attributes);
        assert(indexed_views(c.indexed_attributes@) =~= spec_catalog()[5].indexed);
        assert(entry_matches(c, spec_catalog()[5]));
    }
    c
}

/// The `events` category.
fn cat_events() -> (c: PredefinedCategory)
    ensures
        c.name@ == "events"@,
        spec_entry_wf(c),
        entry_matches(c, spec_catalog()[6]),
        spec_cat_has(c, "date"@, "STRING"@),
        spec_cat_has(c, "time"@, "STRING"@),
{
    let mut attrs: Vec<StaticAttributeDef> = Vec::new();
    attrs.push(sattr("title", "STRING"));
    attrs.push(sattr("date", "STRING"));
    attrs.push(sattr("time", "STRING"));
    attrs.push(sattr("location", "STRING"));
    attrs.push(sattr("notes", "STRING"));
    push_common_attrs(&mut attrs);
    let mut indexed: Vec<&'static str> = Vec::new();
    indexed.push("date");
    indexed.push("title");
    let c = PredefinedCategory {
        name: "events",
        description: "Appointments, deadlines, scheduled events",
        attributes: attrs,
        indexed_attributes: indexed,
    };
    proof {
        lemma_common_attrs_wf(c, 5);
        assert(c.attributes@[1].name@ == "date"@ && c.attributes@[1].attr_type@ == "STRING"@
            && !c.attributes@[1].required);
        assert(c.attributes@[2].name@ == "time"@ && c.attributes@[2].attr_type@ == "STRING"@
            && !c.attributes@[2].required);
        assert(c.attributes@[1].name@ == "date"@ && c.attributes@[1].attr_type@ == "STRING"@
            && !c.attributes@[1].required);
        assert(c.attributes@[2].name@ == "time"@ && c.attributes@[2].attr_type@ == "STRING"@
            && !c.attributes@[2].required);
        assert forall|i: int|
            0 <= i < c.indexed_attributes@.len() implies spec_cat_names_contain(
            c,
            (#[trigger] c.indexed_attributes@[i])@,
        ) by {
            assert(c.attributes@[1].name@ == c.indexed_attributes@[0]@);
            assert(c.attributes@[0].name@ == c.indexed_attributes@[1]@);
        }
    }
    proof {
        assert(static_attr_views(c.attributes@) =~= spec_catalog()[6].attributes);
        assert(indexed_views(c.indexed_attributes@) =~= spec_catalog()[6].indexed);
        assert(entry_matches(c, spec_catalog()[6]));
    }
    c
}

/// The `notes` category.
fn cat_notes() -> (c: PredefinedCategory)
    ensures
        c.name@ == "notes"@,
        spec_entry_wf(c),
        entry_matches(c, spec_catalog()[7]),
{
    let mut attrs: Vec<StaticAttributeDef> = Vec::new();
    attrs.push(sattr("topic", "STRING"));
    push_common_attrs(&mut attrs);
    let mut indexed: Vec<&'static str> = Vec::new();
    indexed.push("topic");
    let c = PredefinedCategory {
        name: "notes",
        description: "General-purpose catch-all",
        attributes: attrs,
        indexed_attributes: indexed,
    };
    proof {
        lemma_common_attrs_wf(c, 1);
        assert forall|i: int|
            0 <= i < c.indexed_attributes@.len() implies spec_cat_names_contain(
            c,
            (#[trigger] c.indexed_attributes@[i])@,
        ) by {
            assert(c.attributes@[0].name@ == c.indexed_attributes@[0]@);
        }
    }
    proof {
        assert(static_attr_views(c.attributes@) =~= spec_catalog()[7].attributes);
        assert(indexed_views(c.indexed_attributes@) =~= spec_catalog()[7].indexed);
        assert(entry_matches(c, spec_catalog()[7]));
    }
    c
}

/// The `scratchpad` category.
fn cat_scratchpad() -> (c: PredefinedCategory)
    ensures
        c.name@ == "scratchpad"@,
        spec_entry_wf(c),
        entry_matches(c, spec_catalog()[8]),
        spec_cat_has(c, "source"@, "STRING"@),
{
    let mut attrs: Vec<StaticAttributeDef> = Vec::new();
    attrs.push(sattr("topic", "STRING"));
    attrs.push(sattr("content", "STRING"));
    attrs.push(sattr("source", "STRING"));
    attrs.push(sattr("expires_at", "STRING"));
    attrs.push(sattr("created_at", "STRING"));
    let mut indexed: Vec<&'static str> = Vec::new();
    indexed.push("topic");
    let c = PredefinedCategory {
        name: "scratchpad",
        description: "Ephemeral working memory — observations and quick captures (24h default TTL)",
        attributes: attrs,
        indexed_attributes: indexed,
    };
    proof {
        assert(c.attributes@[1].name@ == "content"@);
        assert(c.attributes@[2].name@ == "source"@);
        assert(c.attributes@[3].name@ == "expires_at"@);
        assert(c.attributes@[4].name@ == "created_at"@);
        assert forall|i: int|
            0 <= i < c.indexed_attributes@.len() implies spec_cat_names_contain(
            c,
            (#[trigger] c.indexed_attributes@[i])@,
        ) by {
            assert(c.attributes@[0].name@ == c.indexed_attributes@[0]@);
        }
    }
    proof {
        assert(static_attr_views(c.attributes@) =~= spec_catalog()[8].attributes);
        assert(indexed_views(c.indexed_attributes@) =~= spec_catalog()[8].indexed);
        assert(entry_matches(c, spec_catalog()[8]));
    }
    c
}

/// The nine predefined memory categories, in their canonical order.
///
/// Every entry satisfies the catalog invariants: all attributes are
/// non-required, `content`, `created_at` and `expires_at` are declared as
/// strings, and every indexed attribute is among the attributes.
pub fn predefined_schemas() -> (r: Vec<PredefinedCategory>)
    ensures
        r@.len() == 9,
        forall|i: int| 0 <= i < r@.len() ==> spec_entry_wf(#[trigger] r@[i]),
        r@[0].name@ == "project"@,
        r@[1].name@ == "decisions"@,
        r@[2].name@ == "contacts"@,
        r@[3].name@ == "preferences"@,
        r@[4].name@ == "issues"@,
        r@[5].name@ == "tools"@,
        r@[6].name@ == "events"@,
        r@[7].name@ == "notes"@,
        r@[8].name@ == "scratchpad"@,
        forall|i: int| 0 <= i < r@.len() ==> entry_matches(#[trigger] r@[i], spec_catalog()[i]),
        spec_cat_has(r@[6], "date"@, "STRING"@),
        spec_cat_has(r@[6], "time"@, "STRING"@),
        spec_cat_has(r@[8], "source"@, "STRING"@),
{
    let mut r: Vec<PredefinedCategory> = Vec::new();
    r.push(cat_project());
    r.push(cat_decisions());
    r.push(cat_contacts());
    r.push(cat_preferences());
    r.push(cat_issues());
    r.push(cat_tools());
    r.push(cat_events());
    r.push(cat_notes());
    r.push(cat_scratchpad());
    r
}

} // verus!
