//! Reading the JSON events that Cargo and nextest print, one line each.
//!
//! `serde_json` reads a line one level at a time: as a map or a sequence
//! whose values are kept as the JSON text that each one spans (read past
//! as serde reads past a field it ignores), or as a string, a `bool`,
//! `null` or a `usize`. The library decodes the events from those levels
//! the way serde's derived `Deserialize` reads a struct: from a JSON map
//! (unknown keys ignored, a missing `Option` field is `None`, a missing
//! `#[serde(default)]` field is its default) or from a JSON sequence of the
//! fields in order.

use vstd::prelude::*;

use crate::text::{chars_equal, chars_of, string_from};

verus! {

// ---------------------------------------------------------------------------
// One level of a JSON value
// ---------------------------------------------------------------------------

/// A JSON value, one level deep: each array element and each object member
/// is carried as its own JSON text.
pub enum JsonNode {
    Null,
    Bool(bool),
    /// A number that a `usize` field reads.
    Usize(usize),
    Str(String),
    Array(Vec<String>),
    /// The members, keys with the JSON text of their values.
    Object(Vec<(String, String)>),
}

pub enum JsonNodeV {
    Null,
    Bool(bool),
    Usize(usize),
    Str(Seq<char>),
    Array(Seq<Seq<char>>),
    Object(Seq<(Seq<char>, Seq<char>)>),
}

pub open spec fn texts_view(items: Seq<String>) -> Seq<Seq<char>> {
    items.map_values(|t: String| t@)
}

pub open spec fn members_view(members: Seq<(String, String)>) -> Seq<(Seq<char>, Seq<char>)> {
    members.map_values(|m: (String, String)| (m.0@, m.1@))
}

impl View for JsonNode {
    type V = JsonNodeV;

    open spec fn view(&self) -> JsonNodeV {
        match self {
            JsonNode::Null => JsonNodeV::Null,
            JsonNode::Bool(b) => JsonNodeV::Bool(*b),
            JsonNode::Usize(n) => JsonNodeV::Usize(*n),
            JsonNode::Str(s) => JsonNodeV::Str(s@),
            JsonNode::Array(items) => JsonNodeV::Array(texts_view(items@)),
            JsonNode::Object(members) => JsonNodeV::Object(members_view(members@)),
        }
    }
}

/// What `serde_json::from_str::<BTreeMap<String, Box<RawValue>>>` makes of
/// a text: the members, in key order, each with the text of its value.
pub uninterp spec fn json_object(text: Seq<char>) -> Option<Seq<(Seq<char>, Seq<char>)>>;

/// What `serde_json::from_str::<Vec<Box<RawValue>>>` makes of a text: the
/// text of each element.
pub uninterp spec fn json_array(text: Seq<char>) -> Option<Seq<Seq<char>>>;

/// What `serde_json::from_str::<String>` makes of a text.
pub uninterp spec fn json_string(text: Seq<char>) -> Option<Seq<char>>;

/// What `serde_json::from_str::<bool>` makes of a text.
pub uninterp spec fn json_bool(text: Seq<char>) -> Option<bool>;

/// Whether `serde_json::from_str::<()>` accepts a text.
pub uninterp spec fn json_null(text: Seq<char>) -> bool;

/// What `serde_json::from_str::<usize>` makes of a text.
pub uninterp spec fn json_usize(text: Seq<char>) -> Option<usize>;

/// `serde_json::from_str::<BTreeMap<String, Box<RawValue>>>`: the text as a
/// JSON object, each value kept as the JSON text it spans. The contract
/// names the result and says nothing of what it is on given texts.
#[verifier::external_body]
fn parse_json_object(text: &str) -> (r: Option<Vec<(String, String)>>)
    ensures
        match r {
            Some(ms) => json_object(text@) == Some(members_view(ms@)),
            None => json_object(text@) is None,
        },
{
    let map: std::collections::BTreeMap<String, Box<serde_json::value::RawValue>> =
        serde_json::from_str(text).ok()?;
    Some(map.into_iter().map(|(k, v)| (k, v.get().to_string())).collect())
}

/// `serde_json::from_str::<Vec<Box<RawValue>>>`: the text as a JSON array,
/// each element kept as the JSON text it spans.
#[verifier::external_body]
fn parse_json_array(text: &str) -> (r: Option<Vec<String>>)
    ensures
        match r {
            Some(items) => json_array(text@) == Some(texts_view(items@)),
            None => json_array(text@) is None,
        },
{
    let items: Vec<Box<serde_json::value::RawValue>> = serde_json::from_str(text).ok()?;
    Some(items.into_iter().map(|v| v.get().to_string()).collect())
}

/// `serde_json::from_str::<String>`: the text as a JSON string.
#[verifier::external_body]
fn parse_json_string(text: &str) -> (r: Option<String>)
    ensures
        match r {
            Some(v) => json_string(text@) == Some(v@),
            None => json_string(text@) is None,
        },
{
    serde_json::from_str::<String>(text).ok()
}

/// `serde_json::from_str::<bool>`: the text as a JSON `true` or `false`.
#[verifier::external_body]
fn parse_json_bool(text: &str) -> (r: Option<bool>)
    ensures
        r == json_bool(text@),
{
    serde_json::from_str::<bool>(text).ok()
}

/// `serde_json::from_str::<()>`: whether the text is a JSON `null`.
#[verifier::external_body]
fn parse_json_null(text: &str) -> (r: bool)
    ensures
        r == json_null(text@),
{
    serde_json::from_str::<()>(text).is_ok()
}

/// `serde_json::from_str::<usize>`: the text as a JSON number that a
/// `usize` holds.
#[verifier::external_body]
fn parse_json_usize(text: &str) -> (r: Option<usize>)
    ensures
        r == json_usize(text@),
{
    serde_json::from_str::<usize>(text).ok()
}

/// The top level of a JSON text: the first of object, array, string,
/// `bool`, `null` and `usize` that `serde_json` reads it as (`None` where it
/// reads it as none of them).
pub open spec fn json_node(text: Seq<char>) -> Option<JsonNodeV> {
    match json_object(text) {
        Some(ms) => Some(JsonNodeV::Object(ms)),
        None => match json_array(text) {
            Some(items) => Some(JsonNodeV::Array(items)),
            None => match json_string(text) {
                Some(v) => Some(JsonNodeV::Str(v)),
                None => match json_bool(text) {
                    Some(b) => Some(JsonNodeV::Bool(b)),
                    None => if json_null(text) {
                        Some(JsonNodeV::Null)
                    } else {
                        match json_usize(text) {
                            Some(n) => Some(JsonNodeV::Usize(n)),
                            None => None,
                        }
                    },
                },
            },
        },
    }
}

pub open spec fn node_view(r: Option<JsonNode>) -> Option<JsonNodeV> {
    match r {
        Some(n) => Some(n@),
        None => None,
    }
}

/// The top level of the JSON text given as characters.
pub fn node_of(text: &[char]) -> (r: Option<JsonNode>)
    ensures
        node_view(r) == json_node(text@),
{
    let s = string_from(text);
    let t = s.as_str();
    if let Some(ms) = parse_json_object(t) {
        return Some(JsonNode::Object(ms));
    }
    if let Some(items) = parse_json_array(t) {
        return Some(JsonNode::Array(items));
    }
    if let Some(v) = parse_json_string(t) {
        return Some(JsonNode::Str(v));
    }
    if let Some(b) = parse_json_bool(t) {
        return Some(JsonNode::Bool(b));
    }
    if parse_json_null(t) {
        return Some(JsonNode::Null);
    }
    match parse_json_usize(t) {
        Some(n) => Some(JsonNode::Usize(n)),
        None => None,
    }
}

// ---------------------------------------------------------------------------
// Struct fields
// ---------------------------------------------------------------------------

/// Where a struct field's value is: absent (from a map, or past the end of
/// a sequence), or the JSON text of its value.
pub enum Slot {
    Missing { in_seq: bool },
    Present(Vec<char>),
}

pub enum SlotV {
    Missing { in_seq: bool },
    Present(Seq<char>),
}

impl View for Slot {
    type V = SlotV;

    open spec fn view(&self) -> SlotV {
        match self {
            Slot::Missing { in_seq } => SlotV::Missing { in_seq: *in_seq },
            Slot::Present(t) => SlotV::Present(t@),
        }
    }
}

/// The value text of the first member named `key`.
pub open spec fn member_value(members: Seq<(Seq<char>, Seq<char>)>, key: Seq<char>) -> Option<
    Seq<char>,
>
    decreases members.len(),
{
    if members.len() == 0 {
        None
    } else if members[0].0 == key {
        Some(members[0].1)
    } else {
        member_value(members.drop_first(), key)
    }
}

/// The slot of field number `index` (named `key`) of a struct of `count`
/// fields; `None` where the value cannot hold such a struct at all.
pub open spec fn field_slot(node: JsonNodeV, key: Seq<char>, index: nat, count: nat) -> Option<
    SlotV,
> {
    match node {
        JsonNodeV::Object(members) => Some(
            match member_value(members, key) {
                Some(t) => SlotV::Present(t),
                None => SlotV::Missing { in_seq: false },
            },
        ),
        JsonNodeV::Array(items) => if items.len() <= count {
            Some(
                if index < items.len() {
                    SlotV::Present(items[index as int])
                } else {
                    SlotV::Missing { in_seq: true }
                },
            )
        } else {
            None
        },
        _ => None,
    }
}

pub fn field_slot_of(node: &JsonNode, key: &str, index: usize, count: usize) -> (r: Option<Slot>)
    ensures
        match r {
            Some(s) => field_slot(node@, key@, index as nat, count as nat) == Some(s@),
            None => field_slot(node@, key@, index as nat, count as nat) is None,
        },
{
    match node {
        JsonNode::Object(members) => {
            let k = chars_of(key);
            let ghost ms = members_view(members@);
            let mut i: usize = 0;
            assert(ms.subrange(0, ms.len() as int) =~= ms);
            while i < members.len()
                invariant
                    i <= members.len(),
                    ms == members_view(members@),
                    node@ == JsonNodeV::Object(ms),
                    k@ == key@,
                    member_value(ms, key@) == member_value(
                        ms.subrange(i as int, ms.len() as int),
                        key@,
                    ),
                decreases members.len() - i,
            {
                let name = chars_of(members[i].0.as_str());
                let ghost rest = ms.subrange(i as int, ms.len() as int);
                assert(rest[0] == ms[i as int]);
                if chars_equal(name.as_slice(), k.as_slice()) {
                    let value = chars_of(members[i].1.as_str());
                    assert(rest[0].0 == key@);
                    assert(member_value(rest, key@) == Some(value@));
                    assert(node@ == JsonNodeV::Object(ms));
                    assert(member_value(ms, key@) == Some(value@));
                    return Some(Slot::Present(value));
                }
                assert(rest.drop_first() =~= ms.subrange(i + 1, ms.len() as int));
                i = i + 1;
            }
            assert(ms.subrange(ms.len() as int, ms.len() as int).len() == 0);
            Some(Slot::Missing { in_seq: false })
        },
        JsonNode::Array(items) => {
            if items.len() > count {
                None
            } else if index < items.len() {
                Some(Slot::Present(chars_of(items[index].as_str())))
            } else {
                Some(Slot::Missing { in_seq: true })
            }
        },
        _ => None,
    }
}

// ---------------------------------------------------------------------------
// Field values
// ---------------------------------------------------------------------------

/// An `Option<String>` field.
pub open spec fn opt_string_field(slot: SlotV) -> Option<Option<Seq<char>>> {
    match slot {
        SlotV::Missing { in_seq } => if in_seq {
            None
        } else {
            Some(None)
        },
        SlotV::Present(t) => match json_node(t) {
            Some(JsonNodeV::Null) => Some(None),
            Some(JsonNodeV::Str(s)) => Some(Some(s)),
            _ => None,
        },
    }
}

/// A `String` field.
pub open spec fn string_field(slot: SlotV) -> Option<Seq<char>> {
    match slot {
        SlotV::Present(t) => match json_node(t) {
            Some(JsonNodeV::Str(s)) => Some(s),
            _ => None,
        },
        _ => None,
    }
}

/// A `bool` field.
pub open spec fn bool_field(slot: SlotV) -> Option<bool> {
    match slot {
        SlotV::Present(t) => match json_node(t) {
            Some(JsonNodeV::Bool(b)) => Some(b),
            _ => None,
        },
        _ => None,
    }
}

/// A `usize` field.
pub open spec fn usize_field(slot: SlotV) -> Option<nat> {
    match slot {
        SlotV::Present(t) => match json_node(t) {
            Some(JsonNodeV::Usize(n)) => Some(n as nat),
            _ => None,
        },
        _ => None,
    }
}

/// The element texts of a `#[serde(default)] Vec<_>` field.
pub open spec fn vec_field(slot: SlotV) -> Option<Seq<Seq<char>>> {
    match slot {
        SlotV::Missing { .. } => Some(Seq::empty()),
        SlotV::Present(t) => match json_node(t) {
            Some(JsonNodeV::Array(items)) => Some(items),
            _ => None,
        },
    }
}

pub fn opt_string_of(slot: &Slot) -> (r: Option<Option<Vec<char>>>)
    ensures
        match r {
            Some(Some(s)) => opt_string_field(slot@) == Some(Some(s@)),
            Some(None) => opt_string_field(slot@) == Some(None::<Seq<char>>),
            None => opt_string_field(slot@) is None,
        },
{
    match slot {
        Slot::Missing { in_seq } => if *in_seq {
            None
        } else {
            Some(None)
        },
        Slot::Present(t) => match node_of(t.as_slice()) {
            Some(JsonNode::Null) => Some(None),
            Some(JsonNode::Str(s)) => Some(Some(chars_of(s.as_str()))),
            _ => None,
        },
    }
}

pub fn string_of(slot: &Slot) -> (r: Option<Vec<char>>)
    ensures
        match r {
            Some(s) => string_field(slot@) == Some(s@),
            None => string_field(slot@) is None,
        },
{
    match slot {
        Slot::Present(t) => match node_of(t.as_slice()) {
            Some(JsonNode::Str(s)) => Some(chars_of(s.as_str())),
            _ => None,
        },
        _ => None,
    }
}

pub fn bool_of(slot: &Slot) -> (r: Option<bool>)
    ensures
        r == bool_field(slot@),
{
    match slot {
        Slot::Present(t) => match node_of(t.as_slice()) {
            Some(JsonNode::Bool(b)) => Some(b),
            _ => None,
        },
        _ => None,
    }
}

pub fn usize_of(slot: &Slot) -> (r: Option<usize>)
    ensures
        match r {
            Some(v) => usize_field(slot@) == Some(v as nat),
            None => usize_field(slot@) is None,
        },
{
    match slot {
        Slot::Present(t) => match node_of(t.as_slice()) {
            Some(JsonNode::Usize(n)) => Some(n),
            _ => None,
        },
        _ => None,
    }
}

pub fn vec_of(slot: &Slot) -> (r: Option<Vec<Vec<char>>>)
    ensures
        match r {
            Some(items) => vec_field(slot@) == Some(items.deep_view()),
            None => vec_field(slot@) is None,
        },
{
    match slot {
        Slot::Missing { .. } => {
            let v: Vec<Vec<char>> = Vec::new();
            assert(v.deep_view() =~= Seq::<Seq<char>>::empty());
            Some(v)
        },
        Slot::Present(t) => match node_of(t.as_slice()) {
            Some(JsonNode::Array(items)) => {
                let mut v: Vec<Vec<char>> = Vec::new();
                let mut i: usize = 0;
                while i < items.len()
                    invariant
                        i <= items.len(),
                        v@.len() == i,
                        forall|j: int| 0 <= j < i ==> #[trigger] v@[j]@ == items@[j]@,
                    decreases items.len() - i,
                {
                    let e = chars_of(items[i].as_str());
                    v.push(e);
                    i = i + 1;
                }
                proof {
                    let want = texts_view(items@);
                    assert forall|j: int| 0 <= j < v@.len() implies #[trigger] v.deep_view()[j]
                        == want[j] by {
                        assert(v@[j].deep_view() =~= v@[j]@);
                    }
                    assert(v.deep_view() =~= want);
                }
                Some(v)
            },
            _ => None,
        },
    }
}

// ---------------------------------------------------------------------------
// The events
// ---------------------------------------------------------------------------

pub struct CargoSpan {
    pub file_name: Vec<char>,
    pub line_start: usize,
    pub column_start: usize,
    pub is_primary: bool,
    pub label: Option<Vec<char>>,
}

pub struct SpanV {
    pub file_name: Seq<char>,
    pub line_start: nat,
    pub column_start: nat,
    pub is_primary: bool,
    pub label: Option<Seq<char>>,
}

pub open spec fn opt_chars_view(o: Option<Vec<char>>) -> Option<Seq<char>> {
    match o {
        Some(v) => Some(v@),
        None => None,
    }
}

impl View for CargoSpan {
    type V = SpanV;

    open spec fn view(&self) -> SpanV {
        SpanV {
            file_name: self.file_name@,
            line_start: self.line_start as nat,
            column_start: self.column_start as nat,
            is_primary: self.is_primary,
            label: opt_chars_view(self.label),
        }
    }
}

/// A span of a compiler message.
pub open spec fn decode_span(t: Seq<char>) -> Option<SpanV> {
    match json_node(t) {
        Some(n) => {
            let s0 = field_slot(n, "file_name"@, 0, 5);
            let s1 = field_slot(n, "line_start"@, 1, 5);
            let s2 = field_slot(n, "column_start"@, 2, 5);
            let s3 = field_slot(n, "is_primary"@, 3, 5);
            let s4 = field_slot(n, "label"@, 4, 5);
            if s0 is Some && s1 is Some && s2 is Some && s3 is Some && s4 is Some {
                let f = string_field(s0->0);
                let l = usize_field(s1->0);
                let c = usize_field(s2->0);
                let p = bool_field(s3->0);
                let lb = opt_string_field(s4->0);
                if f is Some && l is Some && c is Some && p is Some && lb is Some {
                    Some(
                        SpanV {
                            file_name: f->0,
                            line_start: l->0,
                            column_start: c->0,
                            is_primary: p->0,
                            label: lb->0,
                        },
                    )
                } else {
                    None
                }
            } else {
                None
            }
        },
        None => None,
    }
}

pub fn span_of(t: &[char]) -> (r: Option<CargoSpan>)
    ensures
        match r {
            Some(s) => decode_span(t@) == Some(s@),
            None => decode_span(t@) is None,
        },
{
    let n = match node_of(t) {
        Some(n) => n,
        None => return None,
    };
    let s0 = match field_slot_of(&n, "file_name", 0, 5) {
        Some(s) => s,
        None => return None,
    };
    let s1 = match field_slot_of(&n, "line_start", 1, 5) {
        Some(s) => s,
        None => return None,
    };
    let s2 = match field_slot_of(&n, "column_start", 2, 5) {
        Some(s) => s,
        None => return None,
    };
    let s3 = match field_slot_of(&n, "is_primary", 3, 5) {
        Some(s) => s,
        None => return None,
    };
    let s4 = match field_slot_of(&n, "label", 4, 5) {
        Some(s) => s,
        None => return None,
    };
    let file_name = match string_of(&s0) {
        Some(v) => v,
        None => return None,
    };
    let line_start = match usize_of(&s1) {
        Some(v) => v,
        None => return None,
    };
    let column_start = match usize_of(&s2) {
        Some(v) => v,
        None => return None,
    };
    let is_primary = match bool_of(&s3) {
        Some(v) => v,
        None => return None,
    };
    let label = match opt_string_of(&s4) {
        Some(v) => v,
        None => return None,
    };
    let r = CargoSpan { file_name, line_start, column_start, is_primary, label };
    assert(decode_span(t@) == Some(r@));
    Some(r)
}

/// Decodes every text with `f`; `None` as soon as one does not decode.
pub open spec fn decode_each<T>(texts: Seq<Seq<char>>, f: spec_fn(Seq<char>) -> Option<T>) -> Option<
    Seq<T>,
>
    decreases texts.len(),
{
    if texts.len() == 0 {
        Some(Seq::empty())
    } else {
        match (decode_each(texts.drop_last(), f), f(texts.last())) {
            (Some(a), Some(b)) => Some(a.push(b)),
            _ => None,
        }
    }
}

proof fn lemma_decode_each_prefix_fails<T>(
    texts: Seq<Seq<char>>,
    f: spec_fn(Seq<char>) -> Option<T>,
    k: int,
)
    requires
        0 <= k <= texts.len(),
        decode_each(texts.subrange(0, k), f) is None,
    ensures
        decode_each(texts, f) is None,
    decreases texts.len() - k,
{
    if k < texts.len() {
        assert(texts.subrange(0, k + 1).drop_last() =~= texts.subrange(0, k));
        lemma_decode_each_prefix_fails(texts, f, k + 1);
    } else {
        assert(texts.subrange(0, k) =~= texts);
    }
}

/// An `Option<T>` field of a struct type that `f` decodes.
pub open spec fn opt_struct_field<T>(slot: SlotV, f: spec_fn(Seq<char>) -> Option<T>) -> Option<
    Option<T>,
> {
    match slot {
        SlotV::Missing { in_seq } => if in_seq {
            None
        } else {
            Some(None)
        },
        SlotV::Present(t) => match json_node(t) {
            Some(JsonNodeV::Null) => Some(None),
            Some(_) => match f(t) {
                Some(v) => Some(Some(v)),
                None => None,
            },
            None => None,
        },
    }
}

pub open spec fn spans_view(v: Seq<CargoSpan>) -> Seq<SpanV> {
    v.map_values(|s: CargoSpan| s@)
}

pub open spec fn decode_span_fn() -> spec_fn(Seq<char>) -> Option<SpanV> {
    |t: Seq<char>| decode_span(t)
}

/// The spans of a `#[serde(default)] Vec<CargoSpan>` field.
pub open spec fn spans_field(slot: SlotV) -> Option<Seq<SpanV>> {
    match vec_field(slot) {
        Some(texts) => decode_each(texts, decode_span_fn()),
        None => None,
    }
}

pub fn spans_of(slot: &Slot) -> (r: Option<Vec<CargoSpan>>)
    ensures
        match r {
            Some(v) => spans_field(slot@) == Some(spans_view(v@)),
            None => spans_field(slot@) is None,
        },
{
    let texts = match vec_of(slot) {
        Some(t) => t,
        None => return None,
    };
    let ghost tv = texts.deep_view();
    let mut out: Vec<CargoSpan> = Vec::new();
    let mut i: usize = 0;
    while i < texts.len()
        invariant
            i <= texts.len(),
            tv == texts.deep_view(),
            vec_field(slot@) == Some(tv),
            decode_each(tv.subrange(0, i as int), decode_span_fn()) == Some(spans_view(out@)),
        decreases texts.len() - i,
    {
        assert(tv.subrange(0, i + 1).drop_last() =~= tv.subrange(0, i as int));
        assert(tv[i as int] =~= texts@[i as int]@);
        match span_of(texts[i].as_slice()) {
            Some(sp) => {
                let ghost prev = out@;
                let ghost spv = sp@;
                out.push(sp);
                i = i + 1;
                assert(spans_view(out@) =~= spans_view(prev).push(spv));
            },
            None => {
                proof {
                    let sub = tv.subrange(0, i + 1);
                    assert(sub.last() == tv[i as int]);
                    assert(decode_span_fn()(tv[i as int]) is None);
                    assert(decode_each(sub, decode_span_fn()) is None);
                    lemma_decode_each_prefix_fails(tv, decode_span_fn(), i + 1);
                }
                return None;
            },
        }
    }
    assert(tv.subrange(0, tv.len() as int) =~= tv);
    Some(out)
}

// --- children of a compiler message ---

pub struct CargoChild {
    pub level: Vec<char>,
    pub message: Vec<char>,
    pub spans: Vec<CargoSpan>,
}

pub struct ChildV {
    pub level: Seq<char>,
    pub message: Seq<char>,
    pub spans: Seq<SpanV>,
}

impl View for CargoChild {
    type V = ChildV;

    open spec fn view(&self) -> ChildV {
        ChildV { level: self.level@, message: self.message@, spans: spans_view(self.spans@) }
    }
}

/// A child (a note, a help) of a compiler message.
pub open spec fn decode_child(t: Seq<char>) -> Option<ChildV> {
    match json_node(t) {
        Some(n) => {
            let s0 = field_slot(n, "level"@, 0, 3);
            let s1 = field_slot(n, "message"@, 1, 3);
            let s2 = field_slot(n, "spans"@, 2, 3);
            if s0 is Some && s1 is Some && s2 is Some {
                let l = string_field(s0->0);
                let m = string_field(s1->0);
                let sp = spans_field(s2->0);
                if l is Some && m is Some && sp is Some {
                    Some(ChildV { level: l->0, message: m->0, spans: sp->0 })
                } else {
                    None
                }
            } else {
                None
            }
        },
        None => None,
    }
}

pub fn child_of(t: &[char]) -> (r: Option<CargoChild>)
    ensures
        match r {
            Some(c) => decode_child(t@) == Some(c@),
            None => decode_child(t@) is None,
        },
{
    let n = match node_of(t) {
        Some(n) => n,
        None => return None,
    };
    let s0 = match field_slot_of(&n, "level", 0, 3) {
        Some(s) => s,
        None => return None,
    };
    let s1 = match field_slot_of(&n, "message", 1, 3) {
        Some(s) => s,
        None => return None,
    };
    let s2 = match field_slot_of(&n, "spans", 2, 3) {
        Some(s) => s,
        None => return None,
    };
    let level = match string_of(&s0) {
        Some(v) => v,
        None => return None,
    };
    let message = match string_of(&s1) {
        Some(v) => v,
        None => return None,
    };
    let spans = match spans_of(&s2) {
        Some(v) => v,
        None => return None,
    };
    let r = CargoChild { level, message, spans };
    assert(decode_child(t@) == Some(r@));
    Some(r)
}

pub open spec fn children_view(v: Seq<CargoChild>) -> Seq<ChildV> {
    v.map_values(|c: CargoChild| c@)
}

pub open spec fn decode_child_fn() -> spec_fn(Seq<char>) -> Option<ChildV> {
    |t: Seq<char>| decode_child(t)
}

/// The children of a `#[serde(default)] Vec<CargoChild>` field.
pub open spec fn children_field(slot: SlotV) -> Option<Seq<ChildV>> {
    match vec_field(slot) {
        Some(texts) => decode_each(texts, decode_child_fn()),
        None => None,
    }
}

pub fn children_of(slot: &Slot) -> (r: Option<Vec<CargoChild>>)
    ensures
        match r {
            Some(v) => children_field(slot@) == Some(children_view(v@)),
            None => children_field(slot@) is None,
        },
{
    let texts = match vec_of(slot) {
        Some(t) => t,
        None => return None,
    };
    let ghost tv = texts.deep_view();
    let mut out: Vec<CargoChild> = Vec::new();
    let mut i: usize = 0;
    while i < texts.len()
        invariant
            i <= texts.len(),
            tv == texts.deep_view(),
            vec_field(slot@) == Some(tv),
            decode_each(tv.subrange(0, i as int), decode_child_fn()) == Some(children_view(out@)),
        decreases texts.len() - i,
    {
        assert(tv.subrange(0, i + 1).drop_last() =~= tv.subrange(0, i as int));
        assert(tv[i as int] =~= texts@[i as int]@);
        match child_of(texts[i].as_slice()) {
            Some(c) => {
                let ghost prev = out@;
                let ghost cv = c@;
                out.push(c);
                i = i + 1;
                assert(children_view(out@) =~= children_view(prev).push(cv));
            },
            None => {
                proof {
                    let sub = tv.subrange(0, i + 1);
                    assert(sub.last() == tv[i as int]);
                    assert(decode_child_fn()(tv[i as int]) is None);
                    assert(decode_each(sub, decode_child_fn()) is None);
                    lemma_decode_each_prefix_fails(tv, decode_child_fn(), i + 1);
                }
                return None;
            },
        }
    }
    assert(tv.subrange(0, tv.len() as int) =~= tv);
    Some(out)
}

// --- the code of a compiler message ---

/// A `{"code": ..}` object.
pub open spec fn decode_code(t: Seq<char>) -> Option<Seq<char>> {
    match json_node(t) {
        Some(n) => match field_slot(n, "code"@, 0, 1) {
            Some(s) => string_field(s),
            None => None,
        },
        None => None,
    }
}

pub open spec fn decode_code_fn() -> spec_fn(Seq<char>) -> Option<Seq<char>> {
    |t: Seq<char>| decode_code(t)
}

pub fn code_field_of(slot: &Slot) -> (r: Option<Option<Vec<char>>>)
    ensures
        match r {
            Some(Some(c)) => opt_struct_field(slot@, decode_code_fn()) == Some(Some(c@)),
            Some(None) => opt_struct_field(slot@, decode_code_fn()) == Some(None::<Seq<char>>),
            None => opt_struct_field(slot@, decode_code_fn()) is None,
        },
{
    match slot {
        Slot::Missing { in_seq } => if *in_seq {
            None
        } else {
            Some(None)
        },
        Slot::Present(t) => match node_of(t.as_slice()) {
            Some(JsonNode::Null) => Some(None),
            Some(n) => {
                let s = match field_slot_of(&n, "code", 0, 1) {
                    Some(s) => s,
                    None => return None,
                };
                match string_of(&s) {
                    Some(c) => Some(Some(c)),
                    None => None,
                }
            },
            None => None,
        },
    }
}

// --- compiler messages ---

pub struct CargoMessage {
    pub level: Vec<char>,
    pub message: Vec<char>,
    pub code: Option<Vec<char>>,
    pub spans: Vec<CargoSpan>,
    pub children: Vec<CargoChild>,
    pub rendered: Option<Vec<char>>,
}

pub struct MessageV {
    pub level: Seq<char>,
    pub message: Seq<char>,
    pub code: Option<Seq<char>>,
    pub spans: Seq<SpanV>,
    pub children: Seq<ChildV>,
    pub rendered: Option<Seq<char>>,
}

impl View for CargoMessage {
    type V = MessageV;

    open spec fn view(&self) -> MessageV {
        MessageV {
            level: self.level@,
            message: self.message@,
            code: opt_chars_view(self.code),
            spans: spans_view(self.spans@),
            children: children_view(self.children@),
            rendered: opt_chars_view(self.rendered),
        }
    }
}

/// The `message` object of a Cargo `compiler-message` event.
pub open spec fn decode_message(t: Seq<char>) -> Option<MessageV> {
    match json_node(t) {
        Some(n) => {
            let s0 = field_slot(n, "level"@, 0, 6);
            let s1 = field_slot(n, "message"@, 1, 6);
            let s2 = field_slot(n, "code"@, 2, 6);
            let s3 = field_slot(n, "spans"@, 3, 6);
            let s4 = field_slot(n, "children"@, 4, 6);
            let s5 = field_slot(n, "rendered"@, 5, 6);
            if s0 is Some && s1 is Some && s2 is Some && s3 is Some && s4 is Some && s5 is Some {
                let l = string_field(s0->0);
                let m = string_field(s1->0);
                let c = opt_struct_field(s2->0, decode_code_fn());
                let sp = spans_field(s3->0);
                let ch = children_field(s4->0);
                let r = opt_string_field(s5->0);
                if l is Some && m is Some && c is Some && sp is Some && ch is Some && r is Some {
                    Some(
                        MessageV {
                            level: l->0,
                            message: m->0,
                            code: c->0,
                            spans: sp->0,
                            children: ch->0,
                            rendered: r->0,
                        },
                    )
                } else {
                    None
                }
            } else {
                None
            }
        },
        None => None,
    }
}

pub fn message_of(t: &[char]) -> (r: Option<CargoMessage>)
    ensures
        match r {
            Some(m) => decode_message(t@) == Some(m@),
            None => decode_message(t@) is None,
        },
{
    let n = match node_of(t) {
        Some(n) => n,
        None => return None,
    };
    let s0 = match field_slot_of(&n, "level", 0, 6) {
        Some(s) => s,
        None => return None,
    };
    let s1 = match field_slot_of(&n, "message", 1, 6) {
        Some(s) => s,
        None => return None,
    };
    let s2 = match field_slot_of(&n, "code", 2, 6) {
        Some(s) => s,
        None => return None,
    };
    let s3 = match field_slot_of(&n, "spans", 3, 6) {
        Some(s) => s,
        None => return None,
    };
    let s4 = match field_slot_of(&n, "children", 4, 6) {
        Some(s) => s,
        None => return None,
    };
    let s5 = match field_slot_of(&n, "rendered", 5, 6) {
        Some(s) => s,
        None => return None,
    };
    let level = match string_of(&s0) {
        Some(v) => v,
        None => return None,
    };
    let message = match string_of(&s1) {
        Some(v) => v,
        None => return None,
    };
    let code = match code_field_of(&s2) {
        Some(v) => v,
        None => return None,
    };
    let spans = match spans_of(&s3) {
        Some(v) => v,
        None => return None,
    };
    let children = match children_of(&s4) {
        Some(v) => v,
        None => return None,
    };
    let rendered = match opt_string_of(&s5) {
        Some(v) => v,
        None => return None,
    };
    let r = CargoMessage { level, message, code, spans, children, rendered };
    assert(decode_message(t@) == Some(r@));
    Some(r)
}

pub open spec fn decode_message_fn() -> spec_fn(Seq<char>) -> Option<MessageV> {
    |t: Seq<char>| decode_message(t)
}

// --- Cargo events ---

pub struct CargoEvent {
    pub reason: Option<Vec<char>>,
    pub message: Option<CargoMessage>,
}

pub struct CargoEventV {
    pub reason: Option<Seq<char>>,
    pub message: Option<MessageV>,
}

impl View for CargoEvent {
    type V = CargoEventV;

    open spec fn view(&self) -> CargoEventV {
        CargoEventV {
            reason: opt_chars_view(self.reason),
            message: match self.message {
                Some(m) => Some(m@),
                None => None,
            },
        }
    }
}

/// A line of `cargo --message-format=json` output read as a Cargo event.
pub open spec fn decode_cargo_event(t: Seq<char>) -> Option<CargoEventV> {
    match json_node(t) {
        Some(n) => {
            let s0 = field_slot(n, "reason"@, 0, 2);
            let s1 = field_slot(n, "message"@, 1, 2);
            if s0 is Some && s1 is Some {
                let r = opt_string_field(s0->0);
                let m = opt_struct_field(s1->0, decode_message_fn());
                if r is Some && m is Some {
                    Some(CargoEventV { reason: r->0, message: m->0 })
                } else {
                    None
                }
            } else {
                None
            }
        },
        None => None,
    }
}

pub fn cargo_event_of(t: &[char]) -> (r: Option<CargoEvent>)
    ensures
        match r {
            Some(e) => decode_cargo_event(t@) == Some(e@),
            None => decode_cargo_event(t@) is None,
        },
{
    let n = match node_of(t) {
        Some(n) => n,
        None => return None,
    };
    let s0 = match field_slot_of(&n, "reason", 0, 2) {
        Some(s) => s,
        None => return None,
    };
    let s1 = match field_slot_of(&n, "message", 1, 2) {
        Some(s) => s,
        None => return None,
    };
    let reason = match opt_string_of(&s0) {
        Some(v) => v,
        None => return None,
    };
    let message = match &s1 {
        Slot::Missing { in_seq } => if *in_seq {
            return None;
        } else {
            None
        },
        Slot::Present(mt) => match node_of(mt.as_slice()) {
            Some(JsonNode::Null) => None,
            Some(_) => match message_of(mt.as_slice()) {
                Some(m) => Some(m),
                None => return None,
            },
            None => return None,
        },
    };
    let r = CargoEvent { reason, message };
    assert(decode_cargo_event(t@) == Some(r@));
    Some(r)
}

// --- nextest events ---

pub struct NextestEvent {
    pub kind: Option<Vec<char>>,
    pub event: Option<Vec<char>>,
    pub name: Option<Vec<char>>,
    pub stdout: Option<Vec<char>>,
    pub stderr: Option<Vec<char>>,
}

pub struct NextestEventV {
    pub kind: Option<Seq<char>>,
    pub event: Option<Seq<char>>,
    pub name: Option<Seq<char>>,
    pub stdout: Option<Seq<char>>,
    pub stderr: Option<Seq<char>>,
}

impl View for NextestEvent {
    type V = NextestEventV;

    open spec fn view(&self) -> NextestEventV {
        NextestEventV {
            kind: opt_chars_view(self.kind),
            event: opt_chars_view(self.event),
            name: opt_chars_view(self.name),
            stdout: opt_chars_view(self.stdout),
            stderr: opt_chars_view(self.stderr),
        }
    }
}

/// A line of `cargo nextest` JSON output read as a nextest event (its
/// `type` field is the event's kind).
pub open spec fn decode_nextest_event(t: Seq<char>) -> Option<NextestEventV> {
    match json_node(t) {
        Some(n) => {
            let s0 = field_slot(n, "type"@, 0, 5);
            let s1 = field_slot(n, "event"@, 1, 5);
            let s2 = field_slot(n, "name"@, 2, 5);
            let s3 = field_slot(n, "stdout"@, 3, 5);
            let s4 = field_slot(n, "stderr"@, 4, 5);
            if s0 is Some && s1 is Some && s2 is Some && s3 is Some && s4 is Some {
                let k = opt_string_field(s0->0);
                let e = opt_string_field(s1->0);
                let nm = opt_string_field(s2->0);
                let o = opt_string_field(s3->0);
                let r = opt_string_field(s4->0);
                if k is Some && e is Some && nm is Some && o is Some && r is Some {
                    Some(
                        NextestEventV {
                            kind: k->0,
                            event: e->0,
                            name: nm->0,
                            stdout: o->0,
                            stderr: r->0,
                        },
                    )
                } else {
                    None
                }
            } else {
                None
            }
        },
        None => None,
    }
}

pub fn nextest_event_of(t: &[char]) -> (r: Option<NextestEvent>)
    ensures
        match r {
            Some(e) => decode_nextest_event(t@) == Some(e@),
            None => decode_nextest_event(t@) is None,
        },
{
    let n = match node_of(t) {
        Some(n) => n,
        None => return None,
    };
    let s0 = match field_slot_of(&n, "type", 0, 5) {
        Some(s) => s,
        None => return None,
    };
    let s1 = match field_slot_of(&n, "event", 1, 5) {
        Some(s) => s,
        None => return None,
    };
    let s2 = match field_slot_of(&n, "name", 2, 5) {
        Some(s) => s,
        None => return None,
    };
    let s3 = match field_slot_of(&n, "stdout", 3, 5) {
        Some(s) => s,
        None => return None,
    };
    let s4 = match field_slot_of(&n, "stderr", 4, 5) {
        Some(s) => s,
        None => return None,
    };
    let kind = match opt_string_of(&s0) {
        Some(v) => v,
        None => return None,
    };
    let event = match opt_string_of(&s1) {
        Some(v) => v,
        None => return None,
    };
    let name = match opt_string_of(&s2) {
        Some(v) => v,
        None => return None,
    };
    let stdout = match opt_string_of(&s3) {
        Some(v) => v,
        None => return None,
    };
    let stderr = match opt_string_of(&s4) {
        Some(v) => v,
        None => return None,
    };
    let r = NextestEvent { kind, event, name, stdout, stderr };
    assert(decode_nextest_event(t@) == Some(r@));
    Some(r)
}

} // verus!
