//! The natural-language pipeline: intent classification, document parsing,
//! query resolution and answer synthesis.
//!
//! Each operation issues one completion call to an [`LlmClient`], strips a
//! leading markdown code fence from the response, parses it as a flat JSON
//! object, and interprets the tagged fields. The interpretation steps are
//! exact; of the model's text itself nothing is assumed.

use vstd::prelude::*;
use vstd::string::StrSliceExecFns;
use vstd::string::StringExecFns;
use crate::catalog::AttributeDef;
use crate::doc::{Document, json_object_of, json_text_of, parse_json_object, document_to_json};
use crate::llm::{LlmClient, LlmError};
use crate::store::{IndexInfo, PartitionSchemaInfo, spec_attr_str};
use crate::text::{
    find_char, matches_at, rfind_str, spec_is_whitespace, spec_trim,
    spec_trim_back, spec_trim_front, starts_with_str, str_eq, trim_str,
};
use crate::time::local_today_formatted;

verus! {

/// Result of resolving a natural language query: the retrieval plan.
pub enum ResolvedQuery {
    /// Use a secondary index for exact attribute lookup.
    IndexLookup { category: String, index_name: String, key_value: String },
    /// Scan the partition with optional key prefix.
    PartitionScan { category: String, key_prefix: Option<String> },
    /// Exact item by category and key.
    ExactLookup { category: String, key: String },
}

/// Result of classifying a natural language input's intent.
pub enum NlIntent {
    /// The user wants to store information; the command verb is stripped.
    Remember { content: String },
    /// The user wants to retrieve information.
    Recall { query: String },
}

/// A markdown code fence.
pub open spec fn fence() -> Seq<char> {
    "```"@
}

/// The position of the first newline, if any.
pub open spec fn spec_first_nl(s: Seq<char>) -> Option<int>
    decreases s.len(),
{
    if s.len() == 0 {
        None
    } else if s[0] == '\n' {
        Some(0int)
    } else {
        match spec_first_nl(s.drop_first()) {
            Some(i) => Some(i + 1),
            None => None,
        }
    }
}

/// The last position at or below `k` where a fence begins, if any.
pub open spec fn spec_last_fence_from(s: Seq<char>, k: int) -> Option<int>
    decreases (if k < 0 {
        0int
    } else {
        k + 1
    }),
{
    if k < 0 {
        None
    } else if matches_at(s, fence(), k) {
        Some(k)
    } else {
        spec_last_fence_from(s, k - 1)
    }
}

/// The last position where a fence begins, if any.
pub open spec fn spec_last_fence(s: Seq<char>) -> Option<int> {
    spec_last_fence_from(s, s.len() - 3)
}

/// What stripping markdown fences yields: trim; when the text begins with
/// a fence, drop through the first newline, cut at the last fence, and
/// trim again; with no closing fence the trimmed text stands.
pub open spec fn spec_strip_fences(s: Seq<char>) -> Seq<char> {
    let t = spec_trim(s);
    if fence().is_prefix_of(t) {
        let after = match spec_first_nl(t) {
            Some(i) => t.subrange(i + 1, t.len() as int),
            None => t,
        };
        match spec_last_fence(after) {
            Some(e) => spec_trim(after.subrange(0, e)),
            None => t,
        }
    } else {
        t
    }
}

/// A first newline found positionally is the first newline.
proof fn lemma_first_nl_some(s: Seq<char>, i: int)
    requires
        0 <= i < s.len(),
        s[i] == '\n',
        forall|j: int| 0 <= j < i ==> s[j] != '\n',
    ensures
        spec_first_nl(s) == Some(i),
    decreases i,
{
    if i > 0 {
        lemma_first_nl_some(s.drop_first(), i - 1);
    }
}

/// With no newline anywhere there is no first newline.
proof fn lemma_first_nl_none(s: Seq<char>)
    requires
        forall|j: int| 0 <= j < s.len() ==> s[j] != '\n',
    ensures
        spec_first_nl(s) is None,
    decreases s.len(),
{
    if s.len() > 0 {
        lemma_first_nl_none(s.drop_first());
    }
}

/// A fence at `i` with none after it is the last fence.
proof fn lemma_last_fence_some(s: Seq<char>, i: int, k: int)
    requires
        matches_at(s, fence(), i),
        forall|j: int| i < j ==> !matches_at(s, fence(), j),
        i <= k,
    ensures
        spec_last_fence_from(s, k) == Some(i),
    decreases k - i,
{
    if k > i {
        lemma_last_fence_some(s, i, k - 1);
    }
}

/// With no fence anywhere there is no last fence.
proof fn lemma_last_fence_none(s: Seq<char>, k: int)
    requires
        forall|j: int| !matches_at(s, fence(), j),
    ensures
        spec_last_fence_from(s, k) is None,
    decreases (if k < 0 {
        0int
    } else {
        k + 1
    }),
{
    if k >= 0 {
        lemma_last_fence_none(s, k - 1);
    }
}

/// Strip a leading markdown code fence from model output.
pub fn strip_markdown_fences(text: &str) -> (r: String)
    ensures
        r@ == spec_strip_fences(text@),
{
    proof {
        reveal_strlit("```");
    }
    let trimmed = trim_str(text);
    let n = trimmed.unicode_len();
    if starts_with_str(trimmed, "```") {
        let after: &str = match find_char(trimmed, '\n') {
            Some(i) => {
                proof {
                    lemma_first_nl_some(trimmed@, i as int);
                }
                trimmed.substring_char(i + 1, n)
            },
            None => {
                proof {
                    lemma_first_nl_none(trimmed@);
                }
                trimmed
            },
        };
        match rfind_str(after, "```") {
            Some(e) => {
                proof {
                    lemma_last_fence_some(after@, e as int, after@.len() - 3);
                }
                let inner = after.substring_char(0, e);
                String::from_str(trim_str(inner))
            },
            None => {
                proof {
                    assert(forall|j: int| !matches_at(after@, fence(), j));
                    lemma_last_fence_none(after@, after@.len() - 3);
                }
                String::from_str(trimmed)
            },
        }
    } else {
        String::from_str(trimmed)
    }
}

/// Trimming the front leaves no leading whitespace.
proof fn lemma_trim_front_head(s: Seq<char>)
    ensures
        spec_trim_front(s).len() > 0 ==> !spec_is_whitespace(spec_trim_front(s)[0]),
    decreases s.len(),
{
    if s.len() > 0 && spec_is_whitespace(s[0]) {
        lemma_trim_front_head(s.drop_first());
    }
}

/// Trimming the back leaves no trailing whitespace.
proof fn lemma_trim_back_last(s: Seq<char>)
    ensures
        spec_trim_back(s).len() > 0 ==> !spec_is_whitespace(
            spec_trim_back(s)[spec_trim_back(s).len() - 1],
        ),
    decreases s.len(),
{
    if s.len() > 0 && spec_is_whitespace(s[s.len() - 1]) {
        lemma_trim_back_last(s.drop_last());
    }
}

/// Trimming the back keeps a prefix of the text.
proof fn lemma_trim_back_prefix(s: Seq<char>)
    ensures
        spec_trim_back(s).len() <= s.len(),
        spec_trim_back(s) == s.subrange(0, spec_trim_back(s).len() as int),
    decreases s.len(),
{
    if s.len() > 0 && spec_is_whitespace(s[s.len() - 1]) {
        lemma_trim_back_prefix(s.drop_last());
        assert(s.drop_last().subrange(0, spec_trim_back(s).len() as int) =~= s.subrange(
            0,
            spec_trim_back(s).len() as int,
        ));
    } else {
        assert(s.subrange(0, s.len() as int) =~= s);
    }
}

/// Trimming is idempotent.
pub proof fn lemma_trim_idempotent(s: Seq<char>)
    ensures
        spec_trim(spec_trim(s)) == spec_trim(s),
{
    let tf = spec_trim_front(s);
    let t = spec_trim_back(tf);
    lemma_trim_front_head(s);
    lemma_trim_back_last(tf);
    lemma_trim_back_prefix(tf);
    if t.len() > 0 {
        assert(t[0] == tf[0]);
        assert(!spec_is_whitespace(t[0]));
        assert(spec_trim_front(t) == t);
        assert(!spec_is_whitespace(t[t.len() - 1]));
        assert(spec_trim_back(t) == t);
    } else {
        assert(spec_trim_front(t) == t);
        assert(spec_trim_back(t) == t);
    }
}

/// What stripping yields is always trimmed.
proof fn lemma_strip_fences_trimmed(s: Seq<char>)
    ensures
        spec_trim(spec_strip_fences(s)) == spec_strip_fences(s),
{
    lemma_trim_idempotent(s);
    let t = spec_trim(s);
    if fence().is_prefix_of(t) {
        let after = match spec_first_nl(t) {
            Some(i) => t.subrange(i + 1, t.len() as int),
            None => t,
        };
        match spec_last_fence(after) {
            Some(e) => {
                lemma_trim_idempotent(after.subrange(0, e));
            },
            None => {},
        }
    }
}

/// On trimmed text with no leading fence, stripping is the identity.
pub proof fn lemma_strip_fences_identity(s: Seq<char>)
    requires
        s == spec_trim(s),
        !fence().is_prefix_of(s),
    ensures
        spec_strip_fences(s) == s,
{
}

/// Stripping is a fixed point wherever its result carries no leading
/// fence. A result can itself start with a fence again (a fenced body
/// whose inner text ends in a bare fence), so those inputs are left out.
pub proof fn lemma_strip_fences_fixed_point(s: Seq<char>)
    requires
        !fence().is_prefix_of(spec_strip_fences(s)),
    ensures
        spec_strip_fences(spec_strip_fences(s)) == spec_strip_fences(s),
{
    lemma_strip_fences_trimmed(s);
    lemma_strip_fences_identity(spec_strip_fences(s));
}

/// The interpretation of an intent-classification response.
pub enum IntentOutcome {
    /// A well-formed remember intent with its content.
    Remember(Seq<char>),
    /// A well-formed recall intent with its query.
    Recall(Seq<char>),
    /// Anything else: unparseable or missing fields.
    Malformed,
}

/// How an intent-classification response text is read: strip fences, parse
/// as JSON, and take `intent` with its `content` or `query`.
pub open spec fn spec_interpret_intent(s: Seq<char>) -> IntentOutcome {
    match json_object_of(spec_strip_fences(s)) {
        None => IntentOutcome::Malformed,
        Some(d) => match spec_attr_str(d, "intent"@) {
            Some(i) => if i == "remember"@ {
                match spec_attr_str(d, "content"@) {
                    Some(c) => IntentOutcome::Remember(c),
                    None => IntentOutcome::Malformed,
                }
            } else if i == "recall"@ {
                match spec_attr_str(d, "query"@) {
                    Some(q) => IntentOutcome::Recall(q),
                    None => IntentOutcome::Malformed,
                }
            } else {
                IntentOutcome::Malformed
            },
            None => IntentOutcome::Malformed,
        },
    }
}

/// Read an intent-classification response into an [`NlIntent`].
pub fn interpret_intent(text: &str) -> (r: Result<NlIntent, LlmError>)
    ensures
        match spec_interpret_intent(text@) {
            IntentOutcome::Remember(c) => r matches Ok(NlIntent::Remember { content })
                && content@ == c,
            IntentOutcome::Recall(q) => r matches Ok(NlIntent::Recall { query }) && query@ == q,
            IntentOutcome::Malformed => r matches Err(LlmError::Parse(_)),
        },
{
    let cleaned = strip_markdown_fences(text);
    let doc = match parse_json_object(cleaned.as_str()) {
        Some(d) => d,
        None => {
            return Err(
                LlmError::Parse(String::from_str("failed to parse intent classification")),
            );
        },
    };
    let intent = match doc.get_str("intent") {
        Some(i) => i,
        None => {
            return Err(
                LlmError::Parse(String::from_str("missing 'intent' in classification response")),
            );
        },
    };
    if str_eq(intent.as_str(), "remember") {
        match doc.get_str("content") {
            Some(content) => Ok(NlIntent::Remember { content }),
            None => Err(LlmError::Parse(String::from_str("missing 'content' in remember intent"))),
        }
    } else if str_eq(intent.as_str(), "recall") {
        match doc.get_str("query") {
            Some(query) => Ok(NlIntent::Recall { query }),
            None => Err(LlmError::Parse(String::from_str("missing 'query' in recall intent"))),
        }
    } else {
        Err(LlmError::Parse(String::from_str("unknown intent in classification response")))
    }
}

/// The interpretation of a query-resolution response.
pub enum QueryOutcome {
    /// An index lookup: category, index name, key value.
    Index(Seq<char>, Seq<char>, Seq<char>),
    /// A partition scan: category and optional key prefix.
    Scan(Seq<char>, Option<Seq<char>>),
    /// An exact lookup: category and key.
    Exact(Seq<char>, Seq<char>),
    /// Anything else: unparseable or missing fields.
    Malformed,
}

/// How a query-resolution response text is read: strip fences, parse as
/// JSON, dispatch on `type`, and take the fields that shape requires. A
/// missing or non-string `key_prefix` means an unbounded scan.
pub open spec fn spec_interpret_query(s: Seq<char>) -> QueryOutcome {
    match json_object_of(spec_strip_fences(s)) {
        None => QueryOutcome::Malformed,
        Some(d) => match spec_attr_str(d, "type"@) {
            Some(t) => if t == "index"@ {
                match (spec_attr_str(d, "category"@), spec_attr_str(d, "index_name"@),
                spec_attr_str(d, "key_value"@)) {
                    (Some(c), Some(n), Some(v)) => QueryOutcome::Index(c, n, v),
                    _ => QueryOutcome::Malformed,
                }
            } else if t == "scan"@ {
                match spec_attr_str(d, "category"@) {
                    Some(c) => QueryOutcome::Scan(c, spec_attr_str(d, "key_prefix"@)),
                    None => QueryOutcome::Malformed,
                }
            } else if t == "exact"@ {
                match (spec_attr_str(d, "category"@), spec_attr_str(d, "key"@)) {
                    (Some(c), Some(k)) => QueryOutcome::Exact(c, k),
                    _ => QueryOutcome::Malformed,
                }
            } else {
                QueryOutcome::Malformed
            },
            None => QueryOutcome::Malformed,
        },
    }
}

/// Read a query-resolution response into a [`ResolvedQuery`].
pub fn interpret_resolved_query(text: &str) -> (r: Result<ResolvedQuery, LlmError>)
    ensures
        match spec_interpret_query(text@) {
            QueryOutcome::Index(c, n, v) => r matches Ok(ResolvedQuery::IndexLookup {
                category,
                index_name,
                key_value,
            }) && category@ == c && index_name@ == n && key_value@ == v,
            QueryOutcome::Scan(c, p) => r matches Ok(ResolvedQuery::PartitionScan {
                category,
                key_prefix,
            }) && category@ == c && (match (key_prefix, p) {
                (Some(kp), Some(sp)) => kp@ == sp,
                (None, None) => true,
                _ => false,
            }),
            QueryOutcome::Exact(c, k) => r matches Ok(ResolvedQuery::ExactLookup {
                category,
                key,
            }) && category@ == c && key@ == k,
            QueryOutcome::Malformed => r matches Err(LlmError::Parse(_)),
        },
{
    let cleaned = strip_markdown_fences(text);
    let doc = match parse_json_object(cleaned.as_str()) {
        Some(d) => d,
        None => {
            return Err(LlmError::Parse(String::from_str("failed to parse resolve response")));
        },
    };
    let qtype = match doc.get_str("type") {
        Some(t) => t,
        None => {
            return Err(LlmError::Parse(String::from_str("missing 'type' in resolve response")));
        },
    };
    if str_eq(qtype.as_str(), "index") {
        let category = match doc.get_str("category") {
            Some(c) => c,
            None => {
                return Err(
                    LlmError::Parse(String::from_str("missing 'category' in index lookup")),
                );
            },
        };
        let index_name = match doc.get_str("index_name") {
            Some(n) => n,
            None => {
                return Err(
                    LlmError::Parse(String::from_str("missing 'index_name' in index lookup")),
                );
            },
        };
        let key_value = match doc.get_str("key_value") {
            Some(v) => v,
            None => {
                return Err(
                    LlmError::Parse(String::from_str("missing 'key_value' in index lookup")),
                );
            },
        };
        Ok(ResolvedQuery::IndexLookup { category, index_name, key_value })
    } else if str_eq(qtype.as_str(), "scan") {
        let category = match doc.get_str("category") {
            Some(c) => c,
            None => {
                return Err(LlmError::Parse(String::from_str("missing 'category' in scan")));
            },
        };
        let key_prefix = doc.get_str("key_prefix");
        Ok(ResolvedQuery::PartitionScan { category, key_prefix })
    } else if str_eq(qtype.as_str(), "exact") {
        let category = match doc.get_str("category") {
            Some(c) => c,
            None => {
                return Err(
                    LlmError::Parse(String::from_str("missing 'category' in exact lookup")),
                );
            },
        };
        let key = match doc.get_str("key") {
            Some(k) => k,
            None => {
                return Err(LlmError::Parse(String::from_str("missing 'key' in exact lookup")));
            },
        };
        Ok(ResolvedQuery::ExactLookup { category, key })
    } else {
        Err(LlmError::Parse(String::from_str("unknown query type in resolve response")))
    }
}

/// How an answer-synthesis response is read: trimmed, with the exact
/// literal `NO_RELEVANT_DATA` meaning no relevant memories.
pub open spec fn spec_interpret_answer(s: Seq<char>) -> Option<Seq<char>> {
    if spec_trim(s) == "NO_RELEVANT_DATA"@ {
        None
    } else {
        Some(spec_trim(s))
    }
}

/// Read an answer-synthesis response.
pub fn interpret_answer(text: &str) -> (r: Option<String>)
    ensures
        match r {
            Some(a) => spec_interpret_answer(text@) == Some(a@),
            None => spec_interpret_answer(text@) is None,
        },
{
    let t = trim_str(text);
    if str_eq(t, "NO_RELEVANT_DATA") {
        None
    } else {
        Some(String::from_str(t))
    }
}


/// System prompt for schema-directed document parsing.
pub const PARSE_DOCUMENT_PROMPT: &'static str = "You are a document parser for a structured memory system. Given a category schema and natural language input, extract a structured JSON document.\n\nRespond with ONLY a JSON object (no markdown, no explanation):\n{\n  \"key\": \"short-identifier-for-this-item\",\n  \"attribute1\": \"value1\",\n  \"attribute2\": \"value2\",\n  ...\n}\n\nRules:\n- \"key\" must be a short, lowercase, hyphenated identifier (e.g. \"toby\", \"auth-method\", \"ferridyndb\")\n- Extract values for each schema attribute from the input text\n- Use null for attributes not mentioned in the input\n- For STRING attributes: use plain text values\n- For NUMBER attributes: use numeric values\n- For BOOLEAN attributes: use true/false\n- Keep values concise but complete\n- Do NOT include \"created_at\" or \"expires_at\" — those are handled automatically\n- IMPORTANT: Resolve all relative dates and times to absolute values using the provided current date. \"tomorrow\" → actual date, \"next week\" → actual date, \"in 3 days\" → actual date. Use ISO 8601 format (YYYY-MM-DD) for dates and 24h format (HH:MM) for times.";

/// System prompt for catalog-directed document parsing.
pub const PARSE_WITH_CATEGORY_PROMPT: &'static str = "You are a document parser for a structured memory system. Given a set of available categories and natural language input, pick the best category and extract a structured JSON document.\n\nRespond with ONLY a JSON object (no markdown, no explanation):\n{\n  \"category\": \"chosen-category-name\",\n  \"key\": \"short-identifier-for-this-item\",\n  \"attribute1\": \"value1\",\n  \"attribute2\": \"value2\",\n  ...\n}\n\nRules:\n- \"category\" MUST be one of the available categories listed below — never invent a new one\n- \"key\" must be a short, lowercase, hyphenated identifier (e.g. \"toby\", \"auth-method\", \"ferridyndb\")\n- Extract values for the CHOSEN category's schema attributes from the input text\n- Use null for attributes not mentioned in the input\n- For STRING attributes: use plain text values\n- For NUMBER attributes: use numeric values\n- For BOOLEAN attributes: use true/false\n- Keep values concise but complete\n- Do NOT include \"created_at\" or \"expires_at\" — those are handled automatically\n- If the input doesn't fit any category well, use \"notes\" as the fallback\n- IMPORTANT: Resolve all relative dates and times to absolute values using the provided current date. \"tomorrow\" → actual date, \"next week\" → actual date, \"in 3 days\" → actual date. Use ISO 8601 format (YYYY-MM-DD) for dates and 24h format (HH:MM) for times.";

/// System prompt for query resolution.
pub const RESOLVE_QUERY_PROMPT: &'static str = "You are a query resolver for a structured memory system. Given the available schemas, indexes, existing keys, and a natural language query, determine how to find the data.\n\nRespond with ONLY a JSON object (no markdown, no explanation). Use one of these forms:\n\nFor exact item lookup (when the query maps to a known key):\n{\"type\": \"exact\", \"category\": \"name\", \"key\": \"item-key\"}\n\nFor partition scan with begins_with prefix (to narrow results by key prefix):\n{\"type\": \"scan\", \"category\": \"name\", \"key_prefix\": \"prefix\"}\n\nFor full category scan (when you need all items):\n{\"type\": \"scan\", \"category\": \"name\", \"key_prefix\": null}\n\nFor index-based lookup (when query targets a specific indexed attribute value you KNOW):\n{\"type\": \"index\", \"category\": \"name\", \"index_name\": \"category_attribute\", \"key_value\": \"exact_value\"}\n\nRules:\n- You are given the EXISTING KEYS for each category — use them to pick the best strategy\n- If a known key matches the query, use exact lookup (e.g. query \"doctor appointment\" + key \"doctor-appointment\" → exact)\n- If part of the query matches the START of known keys, use scan with key_prefix (begins_with match)\n- key_prefix does a begins_with match on sort keys — \"doctor\" matches \"doctor-appointment\", \"doctor-checkup\", etc.\n- Use null key_prefix only when you need ALL items in a category\n- Only use index lookup for specific attribute VALUE queries (e.g. \"who has email toby@example.com\")\n- Choose the category that best matches what the user is asking about";

/// System prompt for intent classification.
pub const CLASSIFY_INTENT_PROMPT: &'static str = "You are an intent classifier for a memory system. Given natural language input, determine if the user wants to STORE a new memory or RECALL an existing one.\n\nRespond with ONLY a JSON object (no markdown, no explanation):\n\nFor storing: {\"intent\": \"remember\", \"content\": \"the cleaned information to store\"}\nFor recalling: {\"intent\": \"recall\", \"query\": \"the search query\"}\n\nRules:\n- Complete sentences that state facts → STORE (e.g. \"my favorite food is ramen\", \"Toby works at Acme\", \"the API uses JWT auth\")\n- Sentences with \"remember\", \"store\", \"save\", \"note that\" → STORE. Strip the command verb from content.\n- \"remember I ...\" or \"I ...\" statements → STORE\n- Questions (what, who, when, where, how) → RECALL\n- Imperative retrieval (\"show me\", \"find\", \"get\", \"list\", \"tell me\") → RECALL\n- Short noun phrases seeking information → RECALL (e.g. \"Toby's email\", \"API endpoints\")\n- Key distinction: if the input PROVIDES information, it's STORE. If it SEEKS information, it's RECALL.\n- Default to STORE if ambiguous — it's safer to store than to lose information";

/// System prompt for answer synthesis.
pub const ANSWER_QUERY_PROMPT: &'static str = "You are answering a question using data from a personal memory system. Given the user's question and retrieved memory items, provide a concise, direct answer.\n\nRules:\n- Answer the question directly using ONLY the data provided\n- If the data contains the answer, state it clearly in 1-3 sentences\n- If the data doesn't directly answer the question but has related information, summarize what's relevant\n- If no items are relevant at all, respond with exactly: NO_RELEVANT_DATA\n- Do NOT add speculation, caveats, or information not present in the data\n- Do NOT mention \"the data shows\" or \"according to the records\" — just answer naturally\n- For dates and times, state them clearly (e.g. \"Your doctor's appointment is on 2026-02-03 at 12:00\")";

/// The views of a vector of strings.
pub open spec fn str_views(s: Seq<String>) -> Seq<Seq<char>> {
    s.map_values(|x: String| x@)
}

/// Appending a string appends its view.
proof fn lemma_str_views_push(s: Seq<String>, x: String)
    ensures
        str_views(s.push(x)) =~= str_views(s).push(x@),
{
}

/// The parts joined by the separator, in order.
pub open spec fn spec_join(parts: Seq<Seq<char>>, sep: Seq<char>) -> Seq<char>
    decreases parts.len(),
{
    if parts.len() == 0 {
        Seq::empty()
    } else if parts.len() == 1 {
        parts[0]
    } else {
        spec_join(parts.drop_last(), sep) + sep + parts.last()
    }
}

/// Join strings with a separator.
fn join_strings(parts: &Vec<String>, sep: &str) -> (r: String)
    ensures
        r@ == spec_join(str_views(parts@), sep@),
{
    let mut out = String::new();
    let n = parts.len();
    let mut i: usize = 0;
    proof {
        assert(str_views(parts@.subrange(0, 0)) =~= Seq::<Seq<char>>::empty());
    }
    while i < n
        invariant
            n == parts@.len(),
            i <= n,
            out@ == spec_join(str_views(parts@.subrange(0, i as int)), sep@),
        decreases n - i,
    {
        if i > 0 {
            out.append(sep);
        }
        out.append(parts[i].as_str());
        proof {
            let prev = parts@.subrange(0, i as int);
            assert(parts@.subrange(0, i + 1) =~= prev.push(parts@[i as int]));
            lemma_str_views_push(prev, parts@[i as int]);
            assert(str_views(prev.push(parts@[i as int])).drop_last() =~= str_views(prev));
            assert(out@ == spec_join(str_views(parts@.subrange(0, i + 1)), sep@));
        }
        i = i + 1;
    }
    proof {
        assert(parts@.subrange(0, n as int) =~= parts@);
    }
    out
}

/// An attribute that the model may fill: anything but the two system
/// attributes.
pub open spec fn keep_attr(a: AttributeDef) -> bool {
    a.name@ != "created_at"@ && a.name@ != "expires_at"@
}

/// One prompt line for an attribute: its name, type, and whether it is
/// required, behind the given bullet prefix.
pub open spec fn spec_attr_line(pre: Seq<char>, a: AttributeDef) -> Seq<char> {
    pre + a.name@ + " ("@ + a.attr_type@ + (if a.required {
        ", required"@
    } else {
        Seq::<char>::empty()
    }) + ")"@
}

/// Render one attribute line.
fn attr_line(pre: &str, a: &AttributeDef) -> (r: String)
    ensures
        r@ == spec_attr_line(pre@, *a),
{
    let mut out = String::from_str(pre);
    out.append(a.name.as_str());
    out.append(" (");
    out.append(a.attr_type.as_str());
    if a.required {
        out.append(", required");
    }
    out.append(")");
    out
}

/// Render the prompt lines for the model-facing attributes of a schema.
fn attr_lines(pre: &str, attrs: &Vec<AttributeDef>) -> (r: Vec<String>)
    ensures
        str_views(r@) == attrs@.filter(|a: AttributeDef| keep_attr(a)).map_values(
            |a: AttributeDef| spec_attr_line(pre@, a),
        ),
{
    let mut out: Vec<String> = Vec::new();
    let n = attrs.len();
    let mut i: usize = 0;
    proof {
        assert(attrs@.subrange(0, 0) =~= Seq::<AttributeDef>::empty());
        assert(str_views(out@) =~= attrs@.subrange(0, 0).filter(
            |a: AttributeDef| keep_attr(a),
        ).map_values(|a: AttributeDef| spec_attr_line(pre@, a)));
    }
    while i < n
        invariant
            n == attrs@.len(),
            i <= n,
            str_views(out@) == attrs@.subrange(0, i as int).filter(
                |a: AttributeDef| keep_attr(a),
            ).map_values(|a: AttributeDef| spec_attr_line(pre@, a)),
        decreases n - i,
    {
        let ghost prev = attrs@.subrange(0, i as int);
        let a = &attrs[i];
        proof {
            assert(attrs@.subrange(0, i + 1) =~= prev.push(attrs@[i as int]));
            reveal_with_fuel(Seq::filter, 2);
            assert(prev.push(attrs@[i as int]).drop_last() =~= prev);
        }
        let keep = !(str_eq(a.name.as_str(), "created_at") || str_eq(
            a.name.as_str(),
            "expires_at",
        ));
        if keep {
            let line = attr_line(pre, a);
            let ghost before = out@;
            out.push(line);
            proof {
                lemma_str_views_push(before, out@[out@.len() - 1]);
                let f0 = prev.filter(|a: AttributeDef| keep_attr(a));
                let f1 = attrs@.subrange(0, i + 1).filter(|a: AttributeDef| keep_attr(a));
                assert(f1 =~= f0.push(attrs@[i as int]));
                assert(f1.map_values(|a: AttributeDef| spec_attr_line(pre@, a)) =~= f0.map_values(
                    |a: AttributeDef| spec_attr_line(pre@, a),
                ).push(spec_attr_line(pre@, attrs@[i as int])));
                assert(str_views(out@) =~= attrs@.subrange(0, i + 1).filter(
                    |a: AttributeDef| keep_attr(a),
                ).map_values(|a: AttributeDef| spec_attr_line(pre@, a)));
            }
        } else {
            proof {
                assert(attrs@.subrange(0, i + 1).filter(|a: AttributeDef| keep_attr(a)) =~= prev
                    .filter(|a: AttributeDef| keep_attr(a)));
            }
        }
        i = i + 1;
    }
    proof {
        assert(attrs@.subrange(0, n as int) =~= attrs@);
    }
    out
}

/// The prompt lines of a schema's model-facing attributes, joined.
pub open spec fn spec_attrs_desc(pre: Seq<char>, attrs: Seq<AttributeDef>) -> Seq<char> {
    spec_join(
        attrs.filter(|a: AttributeDef| keep_attr(a)).map_values(
            |a: AttributeDef| spec_attr_line(pre, a),
        ),
        "\n"@,
    )
}

/// The user message of a schema-directed parse: today's date, the target
/// category and schema, and the input.
pub open spec fn spec_parse_doc_message(
    today: Seq<char>,
    category: Seq<char>,
    schema: PartitionSchemaInfo,
    input: Seq<char>,
) -> Seq<char> {
    "Today's date: "@ + today + "\nCategory: "@ + category + "\nSchema description: "@
        + schema.description@ + "\nAttributes:\n"@ + spec_attrs_desc("  - "@, schema.attributes@)
        + "\n\nInput: "@ + input
}

/// Build the user message of a schema-directed parse.
fn parse_doc_message(today: &str, category: &str, schema: &PartitionSchemaInfo, input: &str) -> (r:
    String)
    ensures
        r@ == spec_parse_doc_message(today@, category@, *schema, input@),
{
    let lines = attr_lines("  - ", &schema.attributes);
    let joined = join_strings(&lines, "\n");
    let mut out = String::from_str("Today's date: ");
    out.append(today);
    out.append("\nCategory: ");
    out.append(category);
    out.append("\nSchema description: ");
    out.append(schema.description.as_str());
    out.append("\nAttributes:\n");
    out.append(joined.as_str());
    out.append("\n\nInput: ");
    out.append(input);
    out
}


/// One prompt block for a schema in the catalog-directed parse: its name,
/// description and model-facing attributes.
pub open spec fn spec_schema_block(s: PartitionSchemaInfo) -> Seq<char> {
    "\nCategory: "@ + s.prefix@ + "\n  Description: "@ + s.description@ + "\n  Attributes:\n"@
        + spec_attrs_desc("    - "@, s.attributes@) + "\n"@
}

/// Render one schema block.
fn schema_block(s: &PartitionSchemaInfo) -> (r: String)
    ensures
        r@ == spec_schema_block(*s),
{
    let lines = attr_lines("    - ", &s.attributes);
    let joined = join_strings(&lines, "\n");
    let mut out = String::from_str("\nCategory: ");
    out.append(s.prefix.as_str());
    out.append("\n  Description: ");
    out.append(s.description.as_str());
    out.append("\n  Attributes:\n");
    out.append(joined.as_str());
    out.append("\n");
    out
}

/// The user message of a catalog-directed parse: today's date, every
/// available category, and the input.
pub open spec fn spec_parse_with_category_message(
    today: Seq<char>,
    schemas: Seq<PartitionSchemaInfo>,
    input: Seq<char>,
) -> Seq<char> {
    "Today's date: "@ + today + "\n\nAvailable categories:"@ + spec_join(
        schemas.map_values(|s: PartitionSchemaInfo| spec_schema_block(s)),
        Seq::empty(),
    ) + "\n\nInput: "@ + input
}

/// Build the user message of a catalog-directed parse.
fn parse_with_category_message(today: &str, schemas: &Vec<PartitionSchemaInfo>, input: &str) -> (r:
    String)
    ensures
        r@ == spec_parse_with_category_message(today@, schemas@, input@),
{
    let mut blocks: Vec<String> = Vec::new();
    let n = schemas.len();
    let mut i: usize = 0;
    proof {
        assert(str_views(blocks@) =~= schemas@.subrange(0, 0).map_values(
            |s: PartitionSchemaInfo| spec_schema_block(s),
        ));
    }
    while i < n
        invariant
            n == schemas@.len(),
            i <= n,
            str_views(blocks@) == schemas@.subrange(0, i as int).map_values(
                |s: PartitionSchemaInfo| spec_schema_block(s),
            ),
        decreases n - i,
    {
        let ghost before = blocks@;
        let b = schema_block(&schemas[i]);
        blocks.push(b);
        proof {
            lemma_str_views_push(before, blocks@[blocks@.len() - 1]);
            assert(schemas@.subrange(0, i + 1) =~= schemas@.subrange(0, i as int).push(
                schemas@[i as int],
            ));
            assert(str_views(blocks@) =~= schemas@.subrange(0, i + 1).map_values(
                |s: PartitionSchemaInfo| spec_schema_block(s),
            ));
        }
        i = i + 1;
    }
    proof {
        assert(schemas@.subrange(0, n as int) =~= schemas@);
    }
    let empty_sep = String::new();
    let joined = join_strings(&blocks, empty_sep.as_str());
    let mut out = String::from_str("Today's date: ");
    out.append(today);
    out.append("\n\nAvailable categories:");
    out.append(joined.as_str());
    out.append("\n\nInput: ");
    out.append(input);
    out
}

/// One brief attribute mention in the resolver prompt: `name(TYPE)`.
pub open spec fn spec_attr_brief(a: AttributeDef) -> Seq<char> {
    a.name@ + "("@ + a.attr_type@ + ")"@
}

/// Render one brief attribute mention.
fn attr_brief(a: &AttributeDef) -> (r: String)
    ensures
        r@ == spec_attr_brief(*a),
{
    let mut out = String::new();
    out.append(a.name.as_str());
    out.append("(");
    out.append(a.attr_type.as_str());
    out.append(")");
    out
}

/// The sampled keys recorded for a category, if an entry exists.
pub open spec fn spec_keys_for(ck: Seq<(String, Vec<String>)>, cat: Seq<char>) -> Option<
    Seq<Seq<char>>,
>
    decreases ck.len(),
{
    if ck.len() == 0 {
        None
    } else if ck[0].0@ == cat {
        Some(str_views(ck[0].1@))
    } else {
        spec_keys_for(ck.drop_first(), cat)
    }
}

/// The `Keys:` part of a resolver block: the sampled keys joined, or
/// `(empty)` when there are none.
pub open spec fn spec_keys_str(ck: Seq<(String, Vec<String>)>, cat: Seq<char>) -> Seq<char> {
    match spec_keys_for(ck, cat) {
        Some(ks) => if ks.len() == 0 {
            "(empty)"@
        } else {
            spec_join(ks, ", "@)
        },
        None => "(empty)"@,
    }
}

/// Render the `Keys:` part for a category.
fn keys_str(ck: &Vec<(String, Vec<String>)>, cat: &str) -> (r: String)
    ensures
        r@ == spec_keys_str(ck@, cat@),
{
    let n = ck.len();
    proof {
        assert(ck@.subrange(0, n as int) =~= ck@);
    }
    let mut i: usize = 0;
    while i < n
        invariant
            n == ck@.len(),
            i <= n,
            spec_keys_for(ck@, cat@) == spec_keys_for(ck@.subrange(i as int, n as int), cat@),
        decreases n - i,
    {
        proof {
            assert(ck@.subrange(i as int, n as int)[0] == ck@[i as int]);
        }
        if str_eq(ck[i].0.as_str(), cat) {
            let ks = &ck[i].1;
            if ks.len() == 0 {
                return String::from_str("(empty)");
            }
            return join_strings(ks, ", ");
        }
        proof {
            assert(ck@.subrange(i as int, n as int).drop_first() =~= ck@.subrange(
                i + 1,
                n as int,
            ));
        }
        i = i + 1;
    }
    String::from_str("(empty)")
}

/// One prompt block for a schema in the resolver prompt: its name,
/// description, attributes and sampled keys.
pub open spec fn spec_resolve_block(
    s: PartitionSchemaInfo,
    ck: Seq<(String, Vec<String>)>,
) -> Seq<char> {
    "\nCategory: "@ + s.prefix@ + "\n  Description: "@ + s.description@ + "\n  Attributes: "@
        + spec_join(
        s.attributes@.map_values(|a: AttributeDef| spec_attr_brief(a)),
        ", "@,
    ) + "\n  Keys: "@ + spec_keys_str(ck, s.prefix@) + "\n"@
}

/// Render one resolver block for a schema.
fn resolve_block(s: &PartitionSchemaInfo, ck: &Vec<(String, Vec<String>)>) -> (r: String)
    ensures
        r@ == spec_resolve_block(*s, ck@),
{
    let mut briefs: Vec<String> = Vec::new();
    let n = s.attributes.len();
    let mut i: usize = 0;
    proof {
        assert(str_views(briefs@) =~= s.attributes@.subrange(0, 0).map_values(
            |a: AttributeDef| spec_attr_brief(a),
        ));
    }
    while i < n
        invariant
            n == s.attributes@.len(),
            i <= n,
            str_views(briefs@) == s.attributes@.subrange(0, i as int).map_values(
                |a: AttributeDef| spec_attr_brief(a),
            ),
        decreases n - i,
    {
        let ghost before = briefs@;
        let b = attr_brief(&s.attributes[i]);
        briefs.push(b);
        proof {
            lemma_str_views_push(before, briefs@[briefs@.len() - 1]);
            assert(s.attributes@.subrange(0, i + 1) =~= s.attributes@.subrange(0, i as int).push(
                s.attributes@[i as int],
            ));
            assert(str_views(briefs@) =~= s.attributes@.subrange(0, i + 1).map_values(
                |a: AttributeDef| spec_attr_brief(a),
            ));
        }
        i = i + 1;
    }
    proof {
        assert(s.attributes@.subrange(0, n as int) =~= s.attributes@);
    }
    let joined = join_strings(&briefs, ", ");
    let keys = keys_str(ck, s.prefix.as_str());
    let mut out = String::from_str("\nCategory: ");
    out.append(s.prefix.as_str());
    out.append("\n  Description: ");
    out.append(s.description.as_str());
    out.append("\n  Attributes: ");
    out.append(joined.as_str());
    out.append("\n  Keys: ");
    out.append(keys.as_str());
    out.append("\n");
    out
}

/// One prompt line for an index in the resolver prompt.
pub open spec fn spec_index_line(x: IndexInfo) -> Seq<char> {
    "\nIndex: "@ + x.name@ + " (category="@ + x.partition_schema@ + ", attribute="@
        + x.index_key_name@ + ", type="@ + x.index_key_type@ + ")"@
}

/// Render one index line.
fn index_line(x: &IndexInfo) -> (r: String)
    ensures
        r@ == spec_index_line(*x),
{
    let mut out = String::from_str("\nIndex: ");
    out.append(x.name.as_str());
    out.append(" (category=");
    out.append(x.partition_schema.as_str());
    out.append(", attribute=");
    out.append(x.index_key_name.as_str());
    out.append(", type=");
    out.append(x.index_key_type.as_str());
    out.append(")");
    out
}

/// The index section of the resolver prompt: `(none)` or the lines.
pub open spec fn spec_index_desc(indexes: Seq<IndexInfo>) -> Seq<char> {
    if indexes.len() == 0 {
        "\n(none)"@
    } else {
        spec_join(indexes.map_values(|x: IndexInfo| spec_index_line(x)), Seq::empty())
    }
}

/// The user message of a query resolution: today's date, every schema with
/// its sampled keys, every index, and the query.
pub open spec fn spec_resolve_message(
    today: Seq<char>,
    schemas: Seq<PartitionSchemaInfo>,
    indexes: Seq<IndexInfo>,
    ck: Seq<(String, Vec<String>)>,
    query: Seq<char>,
) -> Seq<char> {
    "Today's date: "@ + today + "\n\nAvailable schemas:"@ + spec_join(
        schemas.map_values(|s: PartitionSchemaInfo| spec_resolve_block(s, ck)),
        Seq::empty(),
    ) + "\nAvailable indexes:"@ + spec_index_desc(indexes) + "\n\nQuery: "@ + query
}

/// Build the user message of a query resolution.
fn resolve_message(
    today: &str,
    schemas: &Vec<PartitionSchemaInfo>,
    indexes: &Vec<IndexInfo>,
    ck: &Vec<(String, Vec<String>)>,
    query: &str,
) -> (r: String)
    ensures
        r@ == spec_resolve_message(today@, schemas@, indexes@, ck@, query@),
{
    let mut blocks: Vec<String> = Vec::new();
    let n = schemas.len();
    let mut i: usize = 0;
    proof {
        assert(str_views(blocks@) =~= schemas@.subrange(0, 0).map_values(
            |s: PartitionSchemaInfo| spec_resolve_block(s, ck@),
        ));
    }
    while i < n
        invariant
            n == schemas@.len(),
            i <= n,
            str_views(blocks@) == schemas@.subrange(0, i as int).map_values(
                |s: PartitionSchemaInfo| spec_resolve_block(s, ck@),
            ),
        decreases n - i,
    {
        let ghost before = blocks@;
        let b = resolve_block(&schemas[i], ck);
        blocks.push(b);
        proof {
            lemma_str_views_push(before, blocks@[blocks@.len() - 1]);
            assert(schemas@.subrange(0, i + 1) =~= schemas@.subrange(0, i as int).push(
                schemas@[i as int],
            ));
            assert(str_views(blocks@) =~= schemas@.subrange(0, i + 1).map_values(
                |s: PartitionSchemaInfo| spec_resolve_block(s, ck@),
            ));
        }
        i = i + 1;
    }
    proof {
        assert(schemas@.subrange(0, n as int) =~= schemas@);
    }
    let empty_sep = String::new();
    let schema_desc = join_strings(&blocks, empty_sep.as_str());
    let index_desc: String = if indexes.len() == 0 {
        String::from_str("\n(none)")
    } else {
        let mut lines: Vec<String> = Vec::new();
        let m = indexes.len();
        let mut k: usize = 0;
        proof {
            assert(str_views(lines@) =~= indexes@.subrange(0, 0).map_values(
                |x: IndexInfo| spec_index_line(x),
            ));
        }
        while k < m
            invariant
                m == indexes@.len(),
                k <= m,
                str_views(lines@) == indexes@.subrange(0, k as int).map_values(
                    |x: IndexInfo| spec_index_line(x),
                ),
            decreases m - k,
        {
            let ghost before = lines@;
            let l = index_line(&indexes[k]);
            lines.push(l);
            proof {
                lemma_str_views_push(before, lines@[lines@.len() - 1]);
                assert(indexes@.subrange(0, k + 1) =~= indexes@.subrange(0, k as int).push(
                    indexes@[k as int],
                ));
                assert(str_views(lines@) =~= indexes@.subrange(0, k + 1).map_values(
                    |x: IndexInfo| spec_index_line(x),
                ));
            }
            k = k + 1;
        }
        proof {
            assert(indexes@.subrange(0, m as int) =~= indexes@);
        }
        join_strings(&lines, empty_sep.as_str())
    };
    let mut out = String::from_str("Today's date: ");
    out.append(today);
    out.append("\n\nAvailable schemas:");
    out.append(schema_desc.as_str());
    out.append("\nAvailable indexes:");
    out.append(index_desc.as_str());
    out.append("\n\nQuery: ");
    out.append(query);
    out
}

/// The serialized item list in the answer prompt.
pub open spec fn spec_items_json(items: Seq<Document>) -> Seq<char> {
    "["@ + spec_join(
        items.map_values(|d: Document| json_text_of(d@)),
        ","@,
    ) + "]"@
}

/// The user message of an answer synthesis: today's date, the question,
/// and the retrieved items as JSON.
pub open spec fn spec_answer_message(
    today: Seq<char>,
    query: Seq<char>,
    items: Seq<Document>,
) -> Seq<char> {
    "Today's date: "@ + today + "\n\nQuestion: "@ + query + "\n\nRetrieved items:\n"@
        + spec_items_json(items)
}

/// Build the user message of an answer synthesis.
fn answer_message(today: &str, query: &str, items: &Vec<Document>) -> (r: String)
    ensures
        r@ == spec_answer_message(today@, query@, items@),
{
    let mut parts: Vec<String> = Vec::new();
    let n = items.len();
    let mut i: usize = 0;
    proof {
        assert(str_views(parts@) =~= items@.subrange(0, 0).map_values(
            |d: Document| json_text_of(d@),
        ));
    }
    while i < n
        invariant
            n == items@.len(),
            i <= n,
            str_views(parts@) == items@.subrange(0, i as int).map_values(
                |d: Document| json_text_of(d@),
            ),
        decreases n - i,
    {
        let ghost before = parts@;
        let j = document_to_json(&items[i]);
        parts.push(j);
        proof {
            lemma_str_views_push(before, parts@[parts@.len() - 1]);
            assert(items@.subrange(0, i + 1) =~= items@.subrange(0, i as int).push(
                items@[i as int],
            ));
            assert(str_views(parts@) =~= items@.subrange(0, i + 1).map_values(
                |d: Document| json_text_of(d@),
            ));
        }
        i = i + 1;
    }
    proof {
        assert(items@.subrange(0, n as int) =~= items@);
    }
    let joined = join_strings(&parts, ",");
    let mut out = String::from_str("Today's date: ");
    out.append(today);
    out.append("\n\nQuestion: ");
    out.append(query);
    out.append("\n\nRetrieved items:\n");
    out.append("[");
    out.append(joined.as_str());
    out.append("]");
    proof {
        assert(out@ =~= spec_answer_message(today@, query@, items@));
    }
    out
}

/// The intent a text interprets to matches the returned value.
pub open spec fn spec_intent_matches(t: Seq<char>, i: NlIntent) -> bool {
    match i {
        NlIntent::Remember { content } => spec_interpret_intent(t) == IntentOutcome::Remember(
            content@,
        ),
        NlIntent::Recall { query } => spec_interpret_intent(t) == IntentOutcome::Recall(query@),
    }
}

/// Classify a natural language input as a remember (store) or recall
/// (retrieve) intent. Whatever the model answered, any successful result
/// is the exact interpretation of some response text. Errors of the
/// client pass through unchanged; the only error added here is a parse
/// error for an uninterpretable response.
pub fn classify_intent<L: LlmClient>(llm: &mut L, input: &str) -> (r: Result<NlIntent, LlmError>)
    ensures
        r matches Ok(i) ==> exists|t: Seq<char>| spec_intent_matches(t, i),
{
    let completion = match llm.complete(CLASSIFY_INTENT_PROMPT, input) {
        Ok(c) => c,
        Err(e) => {
            return Err(e);
        },
    };
    let out = interpret_intent(completion.text.as_str());
    proof {
        match &out {
            Ok(i) => {
                assert(spec_intent_matches(completion.text@, *i));
            },
            Err(_) => {},
        }
    }
    out
}

/// The plan a text interprets to matches the returned value.
pub open spec fn spec_query_matches(t: Seq<char>, q: ResolvedQuery) -> bool {
    match q {
        ResolvedQuery::IndexLookup { category, index_name, key_value } => spec_interpret_query(t)
            == QueryOutcome::Index(category@, index_name@, key_value@),
        ResolvedQuery::PartitionScan { category, key_prefix } => spec_interpret_query(t)
            == QueryOutcome::Scan(
            category@,
            match key_prefix {
                Some(p) => Some(p@),
                None => None,
            },
        ),
        ResolvedQuery::ExactLookup { category, key } => spec_interpret_query(t)
            == QueryOutcome::Exact(category@, key@),
    }
}

/// Resolve a natural language query to a retrieval plan, giving the model
/// every schema, every index, and a sample of existing keys per category.
/// Any successful result is the exact interpretation of some response
/// text. Errors of the client pass through unchanged; the only error
/// added here is a parse error for an uninterpretable response.
pub fn resolve_query<L: LlmClient>(
    llm: &mut L,
    schemas: &Vec<PartitionSchemaInfo>,
    indexes: &Vec<IndexInfo>,
    category_keys: &Vec<(String, Vec<String>)>,
    query: &str,
) -> (r: Result<ResolvedQuery, LlmError>)
    ensures
        r matches Ok(q) ==> exists|t: Seq<char>| spec_query_matches(t, q),
{
    let today = local_today_formatted();
    let msg = resolve_message(today.as_str(), schemas, indexes, category_keys, query);
    let completion = match llm.complete(RESOLVE_QUERY_PROMPT, msg.as_str()) {
        Ok(c) => c,
        Err(e) => {
            return Err(e);
        },
    };
    let out = interpret_resolved_query(completion.text.as_str());
    proof {
        match &out {
            Ok(q) => {
                assert(spec_query_matches(completion.text@, *q));
            },
            Err(_) => {},
        }
    }
    out
}

/// Parse natural language input into a structured document using the
/// target category's schema. Any successful result is the JSON object
/// carried by some fence-stripped response text. Errors of the client
/// pass through unchanged; the only error added here is a parse error
/// for a response that is no JSON object.
pub fn parse_to_document<L: LlmClient>(
    llm: &mut L,
    category: &str,
    schema: &PartitionSchemaInfo,
    input: &str,
) -> (r: Result<Document, LlmError>)
    ensures
        r matches Ok(d) ==> exists|t: Seq<char>|
            json_object_of(spec_strip_fences(t)) == Some(d@),
{
    let today = local_today_formatted();
    let msg = parse_doc_message(today.as_str(), category, schema, input);
    let completion = match llm.complete(PARSE_DOCUMENT_PROMPT, msg.as_str()) {
        Ok(c) => c,
        Err(e) => {
            return Err(e);
        },
    };
    let cleaned = strip_markdown_fences(completion.text.as_str());
    match parse_json_object(cleaned.as_str()) {
        Some(d) => {
            proof {
                assert(json_object_of(spec_strip_fences(completion.text@)) == Some(d@));
            }
            Ok(d)
        },
        None => Err(LlmError::Parse(String::from_str("failed to parse document"))),
    }
}

/// Parse natural language input, letting the model pick the category from
/// the available schemas; the returned document carries a `category`
/// field. Any successful result is the JSON object carried by some
/// fence-stripped response text. Errors of the client pass through
/// unchanged; the only error added here is a parse error for a response
/// that is no JSON object.
pub fn parse_to_document_with_category<L: LlmClient>(
    llm: &mut L,
    schemas: &Vec<PartitionSchemaInfo>,
    input: &str,
) -> (r: Result<Document, LlmError>)
    ensures
        r matches Ok(d) ==> exists|t: Seq<char>|
            json_object_of(spec_strip_fences(t)) == Some(d@),
{
    let today = local_today_formatted();
    let msg = parse_with_category_message(today.as_str(), schemas, input);
    let completion = match llm.complete(PARSE_WITH_CATEGORY_PROMPT, msg.as_str()) {
        Ok(c) => c,
        Err(e) => {
            return Err(e);
        },
    };
    let cleaned = strip_markdown_fences(completion.text.as_str());
    match parse_json_object(cleaned.as_str()) {
        Some(d) => {
            proof {
                assert(json_object_of(spec_strip_fences(completion.text@)) == Some(d@));
            }
            Ok(d)
        },
        None => Err(LlmError::Parse(String::from_str("failed to parse document"))),
    }
}

/// Synthesize a natural language answer from the retrieved items and the
/// original query; `None` when the model judged nothing relevant. Any
/// successful result is the exact reading of some response text; errors
/// of the client pass through unchanged, and none is added here.
pub fn answer_query<L: LlmClient>(llm: &mut L, query: &str, items: &Vec<Document>) -> (r: Result<
    Option<String>,
    LlmError,
>)
    ensures
        r matches Ok(a) ==> exists|t: Seq<char>|
            match a {
                Some(s) => spec_interpret_answer(t) == Some(s@),
                None => spec_interpret_answer(t) is None,
            },
{
    let today = local_today_formatted();
    let msg = answer_message(today.as_str(), query, items);
    let completion = match llm.complete(ANSWER_QUERY_PROMPT, msg.as_str()) {
        Ok(c) => c,
        Err(e) => {
            return Err(e);
        },
    };
    let out = interpret_answer(completion.text.as_str());
    proof {
        match &out {
            Some(s) => {
                assert(spec_interpret_answer(completion.text@) == Some(s@));
            },
            None => {
                assert(spec_interpret_answer(completion.text@) is None);
            },
        }
    }
    Ok(out)
}

} // verus!
