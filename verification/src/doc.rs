//! The document model: a memory item is a flat JSON object, held as an
//! ordered list of attribute-name / attribute-value pairs.
//!
//! Numbers are kept as their JSON literal text so the model stays exact;
//! nested arrays or objects are carried opaquely as their JSON text.

use vstd::prelude::*;

verus! {

/// Specification-level value of one attribute.
pub enum JsonVal {
    /// A JSON string.
    Str(Seq<char>),
    /// A JSON number, as its literal text.
    Num(Seq<char>),
    /// A JSON boolean.
    Bool(bool),
    /// JSON null.
    Null,
    /// A nested JSON array or object, as its serialized text.
    Raw(Seq<char>),
}

/// One attribute value of a memory item.
pub enum AttrValue {
    /// A JSON string.
    Str(String),
    /// A JSON number, as its literal text.
    Num(String),
    /// A JSON boolean.
    Bool(bool),
    /// JSON null.
    Null,
    /// A nested JSON array or object, as its serialized text.
    Raw(String),
}

impl View for AttrValue {
    type V = JsonVal;

    open spec fn view(&self) -> JsonVal {
        match self {
            AttrValue::Str(s) => JsonVal::Str(s@),
            AttrValue::Num(s) => JsonVal::Num(s@),
            AttrValue::Bool(b) => JsonVal::Bool(*b),
            AttrValue::Null => JsonVal::Null,
            AttrValue::Raw(s) => JsonVal::Raw(s@),
        }
    }
}

impl Clone for AttrValue {
    fn clone(&self) -> (r: Self)
        ensures
            r@ == self@,
    {
        match self {
            AttrValue::Str(s) => AttrValue::Str(s.clone()),
            AttrValue::Num(s) => AttrValue::Num(s.clone()),
            AttrValue::Bool(b) => AttrValue::Bool(*b),
            AttrValue::Null => AttrValue::Null,
            AttrValue::Raw(s) => AttrValue::Raw(s.clone()),
        }
    }
}

/// The mathematical model of a document: its attribute pairs in order.
pub type DocView = Seq<(Seq<char>, JsonVal)>;

/// A memory item: a flat JSON object of named attributes.
pub struct Document {
    pub pairs: Vec<(String, AttrValue)>,
}

impl View for Document {
    type V = DocView;

    open spec fn view(&self) -> DocView {
        self.pairs@.map_values(|p: (String, AttrValue)| (p.0@, p.1@))
    }
}

/// The document has an attribute of this name.
pub open spec fn spec_has_attr(d: DocView, name: Seq<char>) -> bool {
    exists|i: int| 0 <= i < d.len() && d[i].0 == name
}

/// The value of the first attribute of this name, if any.
pub open spec fn spec_get_attr(d: DocView, name: Seq<char>) -> Option<JsonVal>
    decreases d.len(),
{
    if d.len() == 0 {
        None
    } else if d[0].0 == name {
        Some(d[0].1)
    } else {
        spec_get_attr(d.drop_first(), name)
    }
}

/// The document without any attribute of this name.
pub open spec fn spec_remove_attr(d: DocView, name: Seq<char>) -> DocView {
    d.filter(|p: (Seq<char>, JsonVal)| p.0 != name)
}

/// Appending a pair changes lookups only for its own name, and only when
/// that name was absent.
pub proof fn lemma_get_attr_push(d: DocView, e: (Seq<char>, JsonVal), name: Seq<char>)
    ensures
        spec_get_attr(d.push(e), name) == (match spec_get_attr(d, name) {
            Some(v) => Some(v),
            None => if e.0 == name {
                Some(e.1)
            } else {
                None
            },
        }),
    decreases d.len(),
{
    if d.len() == 0 {
        assert(d.push(e)[0] == e);
        assert(d.push(e).drop_first() =~= Seq::<(Seq<char>, JsonVal)>::empty());
    } else {
        assert(d.push(e)[0] == d[0]);
        assert(d.push(e).drop_first() =~= d.drop_first().push(e));
        lemma_get_attr_push(d.drop_first(), e, name);
    }
}

/// An attribute is present exactly when lookup yields a value.
pub broadcast proof fn lemma_get_attr_has(d: DocView, name: Seq<char>)
    ensures
        #[trigger] spec_get_attr(d, name) is Some <==> spec_has_attr(d, name),
    decreases d.len(),
{
    if d.len() > 0 && d[0].0 != name {
        lemma_get_attr_has(d.drop_first(), name);
        assert(spec_has_attr(d, name) ==> spec_has_attr(d.drop_first(), name)) by {
            if spec_has_attr(d, name) {
                let i = choose|i: int| 0 <= i < d.len() && d[i].0 == name;
                assert(d.drop_first()[i - 1].0 == name);
            }
        }
        assert(spec_has_attr(d.drop_first(), name) ==> spec_has_attr(d, name)) by {
            if spec_has_attr(d.drop_first(), name) {
                let i = choose|i: int| 0 <= i < d.drop_first().len() && d.drop_first()[i].0
                    == name;
                assert(d[i + 1].0 == name);
            }
        }
    }
}

impl Document {
    /// An empty document.
    pub fn new() -> (r: Document)
        ensures
            r@ == Seq::<(Seq<char>, JsonVal)>::empty(),
    {
        let r = Document { pairs: Vec::new() };
        proof {
            assert(r@ =~= Seq::<(Seq<char>, JsonVal)>::empty());
        }
        r
    }

    /// Append an attribute.
    pub fn push_attr(&mut self, name: String, value: AttrValue)
        ensures
            final(self)@ == old(self)@.push((name@, value@)),
    {
        let ghost old_view = self@;
        self.pairs.push((name, value));
        proof {
            assert(self@ =~= old_view.push((self.pairs@[self.pairs@.len() - 1].0@,
            self.pairs@[self.pairs@.len() - 1].1@)));
        }
    }

    /// The number of attributes.
    pub fn len(&self) -> (r: usize)
        ensures
            r == self@.len(),
    {
        self.pairs.len()
    }

    /// The attribute pair at an index, copied out.
    pub fn pair_at(&self, i: usize) -> (r: (String, AttrValue))
        requires
            i < self@.len(),
        ensures
            (r.0@, r.1@) == self@[i as int],
    {
        let p = &self.pairs[i];
        (p.0.clone(), p.1.clone())
    }

    /// Look up an attribute by name; the first match wins.
    pub fn get(&self, name: &str) -> (r: Option<AttrValue>)
        ensures
            match r {
                Some(v) => spec_get_attr(self@, name@) == Some(v@),
                None => spec_get_attr(self@, name@) is None,
            },
    {
        let n = self.pairs.len();
        proof {
            assert(self@.subrange(0, n as int) =~= self@);
        }
        let mut i: usize = 0;
        while i < n
            invariant
                n == self.pairs@.len(),
                i <= n,
                spec_get_attr(self@, name@) == spec_get_attr(
                    self@.subrange(i as int, n as int),
                    name@,
                ),
            decreases n - i,
        {
            proof {
                assert(self@.subrange(i as int, n as int)[0] == self@[i as int]);
            }
            if crate::text::str_eq(self.pairs[i].0.as_str(), name) {
                return Some(self.pairs[i].1.clone());
            }
            proof {
                assert(self@.subrange(i as int, n as int).drop_first() =~= self@.subrange(
                    i + 1,
                    n as int,
                ));
            }
            i = i + 1;
        }
        None
    }

    /// Whether an attribute of this name is present.
    pub fn has(&self, name: &str) -> (r: bool)
        ensures
            r == spec_has_attr(self@, name@),
    {
        proof {
            lemma_get_attr_has(self@, name@);
        }
        match self.get(name) {
            Some(_) => true,
            None => false,
        }
    }

    /// Look up an attribute expected to hold a string.
    pub fn get_str(&self, name: &str) -> (r: Option<String>)
        ensures
            match r {
                Some(s) => spec_get_attr(self@, name@) == Some(JsonVal::Str(s@)),
                None => !(spec_get_attr(self@, name@) matches Some(JsonVal::Str(_))),
            },
    {
        match self.get(name) {
            Some(AttrValue::Str(s)) => Some(s),
            _ => None,
        }
    }

    /// A copy of the document without any attribute of this name.
    pub fn without_attr(&self, name: &str) -> (r: Document)
        ensures
            r@ == spec_remove_attr(self@, name@),
    {
        let n = self.pairs.len();
        let mut out = Document::new();
        let mut i: usize = 0;
        while i < n
            invariant
                n == self.pairs@.len(),
                i <= n,
                out@ == self@.subrange(0, i as int).filter(
                    |p: (Seq<char>, JsonVal)| p.0 != name@,
                ),
            decreases n - i,
        {
            let ghost prefix = self@.subrange(0, i as int);
            proof {
                broadcast use vstd::seq_lib::group_filter_ensures;

                assert(self@.subrange(0, i + 1) =~= prefix.push(self@[i as int]));
            }
            if !crate::text::str_eq(self.pairs[i].0.as_str(), name) {
                let p = &self.pairs[i];
                out.push_attr(p.0.clone(), p.1.clone());
            }
            proof {
                reveal_with_fuel(Seq::filter, 2);
                assert(prefix.push(self@[i as int]).drop_last() =~= prefix);
                assert(out@ =~= self@.subrange(0, i + 1).filter(
                    |p: (Seq<char>, JsonVal)| p.0 != name@,
                ));
            }
            i = i + 1;
        }
        proof {
            assert(self@.subrange(0, n as int) =~= self@);
        }
        out
    }

    /// A copy of the document without any attribute of either name.
    /// Lookups of every other name are unchanged.
    pub fn without_attrs(&self, first: &str, second: &str) -> (r: Document)
        ensures
            r@ == self@.filter(|p: (Seq<char>, JsonVal)| p.0 != first@ && p.0 != second@),
            forall|i: int|
                0 <= i < r@.len() ==> (#[trigger] r@[i]).0 != first@ && r@[i].0 != second@,
            forall|name: Seq<char>|
                name != first@ && name != second@ ==> #[trigger] spec_get_attr(r@, name)
                    == spec_get_attr(self@, name),
    {
        let n = self.pairs.len();
        let mut out = Document::new();
        let mut i: usize = 0;
        proof {
            assert(self@.subrange(0, 0) =~= Seq::<(Seq<char>, JsonVal)>::empty());
            assert(out@ =~= self@.subrange(0, 0).filter(
                |p: (Seq<char>, JsonVal)| p.0 != first@ && p.0 != second@,
            ));
        }
        while i < n
            invariant
                n == self.pairs@.len(),
                i <= n,
                out@ == self@.subrange(0, i as int).filter(
                    |p: (Seq<char>, JsonVal)| p.0 != first@ && p.0 != second@,
                ),
                forall|k: int|
                    0 <= k < out@.len() ==> (#[trigger] out@[k]).0 != first@ && out@[k].0
                        != second@,
                forall|name: Seq<char>|
                    name != first@ && name != second@ ==> #[trigger] spec_get_attr(out@, name)
                        == spec_get_attr(self@.subrange(0, i as int), name),
            decreases n - i,
        {
            let ghost prefix = self@.subrange(0, i as int);
            let ghost out_before = out@;
            let ghost e = self@[i as int];
            proof {
                assert(self@.subrange(0, i + 1) =~= prefix.push(e));
                reveal_with_fuel(Seq::filter, 2);
                assert(prefix.push(e).drop_last() =~= prefix);
            }
            let keep = !crate::text::str_eq(self.pairs[i].0.as_str(), first)
                && !crate::text::str_eq(self.pairs[i].0.as_str(), second);
            if keep {
                let p = &self.pairs[i];
                out.push_attr(p.0.clone(), p.1.clone());
            }
            proof {
                assert(out@ =~= self@.subrange(0, i + 1).filter(
                    |p: (Seq<char>, JsonVal)| p.0 != first@ && p.0 != second@,
                ));
                assert forall|name: Seq<char>|
                    name != first@ && name != second@ implies #[trigger] spec_get_attr(
                    out@,
                    name,
                ) == spec_get_attr(self@.subrange(0, i + 1), name) by {
                    lemma_get_attr_push(prefix, e, name);
                    if keep {
                        lemma_get_attr_push(out_before, e, name);
                        assert(out@ == out_before.push(e));
                    } else {
                        assert(e.0 == first@ || e.0 == second@);
                    }
                }
            }
            i = i + 1;
        }
        proof {
            assert(self@.subrange(0, n as int) =~= self@);
        }
        out
    }

    /// A deep copy of the document.
    pub fn clone_doc(&self) -> (r: Document)
        ensures
            r@ == self@,
    {
        let n = self.pairs.len();
        let mut out = Document::new();
        let mut i: usize = 0;
        while i < n
            invariant
                n == self.pairs@.len(),
                i <= n,
                out@ =~= self@.subrange(0, i as int),
            decreases n - i,
        {
            let p = &self.pairs[i];
            out.push_attr(p.0.clone(), p.1.clone());
            proof {
                assert(out@ =~= self@.subrange(0, i + 1));
            }
            i = i + 1;
        }
        proof {
            assert(self@.subrange(0, n as int) =~= self@);
        }
        out
    }
}

/// The flat JSON object that this text parses to, if it parses to one.
pub uninterp spec fn json_object_of(s: Seq<char>) -> Option<DocView>;

/// Relies on `serde_json::from_str`: whether a text parses as a JSON object,
/// and the object it parses to, depend on the text alone.
#[verifier::external_body]
pub fn parse_json_object(s: &str) -> (r: Option<Document>)
    ensures
        match r {
            Some(d) => json_object_of(s@) == Some(d@),
            None => json_object_of(s@) is None,
        },
{
    let m: serde_json::Map<String, serde_json::Value> = serde_json::from_str(s).ok()?;
    let pairs = m.into_iter().map(|(k, v)| (k, match v {
        serde_json::Value::String(t) => AttrValue::Str(t),
        serde_json::Value::Number(n) => AttrValue::Num(n.to_string()),
        serde_json::Value::Bool(b) => AttrValue::Bool(b),
        serde_json::Value::Null => AttrValue::Null,
        other => AttrValue::Raw(other.to_string()),
    })).collect();
    Some(Document { pairs })
}

/// The serialized JSON text of a document.
pub uninterp spec fn json_text_of(d: DocView) -> Seq<char>;

/// Relies on `serde_json::Value::to_string`: the serialized text of an
/// object is a function of its contents alone.
#[verifier::external_body]
pub fn document_to_json(d: &Document) -> (r: String)
    ensures
        r@ == json_text_of(d@),
{
    let mut m = serde_json::Map::new();
    for (k, v) in d.pairs.iter() {
        m.insert(k.clone(), match v {
            AttrValue::Str(s) => serde_json::Value::String(s.clone()),
            AttrValue::Num(s) => s.parse::<serde_json::Number>().map(
                serde_json::Value::Number,
            ).unwrap_or(serde_json::Value::Null),
            AttrValue::Bool(b) => serde_json::Value::Bool(*b),
            AttrValue::Null => serde_json::Value::Null,
            AttrValue::Raw(s) => serde_json::from_str(s).unwrap_or(serde_json::Value::Null),
        });
    }
    serde_json::Value::Object(m).to_string()
}

} // verus!
