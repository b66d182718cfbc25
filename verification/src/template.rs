//! Deterministic dotted-path templating over explicitly supplied mappings.
//!
//! Templates resolve `{dotted.path}` placeholders only through nested
//! mappings supplied by the caller. They never traverse Rust objects, invoke
//! methods, read ambient state, or perform I/O. Values follow the JSON data
//! model; mappings keep their keys in ascending order, and non-string values
//! render as compact JSON text.

use vstd::prelude::*;

use crate::errors::{CodedError, ErrorCode, valid_code_spec};
use crate::text::{
    chars_of, is_white_space, is_white_space_char, push_str,
    seq_lt, str_eq, str_less, string_from_chars,
};

verus! {

/// A JSON-like template value. Numbers are integers: a signed one, or an
/// unsigned one for the range beyond `i64::MAX`.
#[derive(Debug)]
pub enum TemplateValue {
    Null,
    Bool(bool),
    Number(i64),
    Unsigned(u64),
    String(String),
    Array(Vec<TemplateValue>),
    Object(TemplateContext),
}

/// A mapping from keys to template values, kept in ascending key order with
/// each key at most once.
#[derive(Debug)]
pub struct TemplateContext {
    entries: Vec<(String, TemplateValue)>,
}

/// Entry keys in strictly ascending order (so each key occurs at most once).
pub open spec fn keys_ascending(e: Seq<(String, TemplateValue)>) -> bool {
    forall|i: int, j: int| 0 <= i < j < e.len() ==> seq_lt(#[trigger] e[i].0@, #[trigger] e[j].0@)
}

/// The value stored under `key`, looking from the front.
pub open spec fn lookup(e: Seq<(String, TemplateValue)>, key: Seq<char>) -> Option<TemplateValue>
    decreases e.len(),
{
    if e.len() == 0 {
        None
    } else if e[0].0@ == key {
        Some(e[0].1)
    } else {
        lookup(e.drop_first(), key)
    }
}

/// Inserting `key` keeps ascending order: an equal key has its value replaced
/// in place, otherwise the entry goes before the first greater key.
pub open spec fn insert_sorted(e: Seq<(String, TemplateValue)>, key: String, value: TemplateValue) -> Seq<(String, TemplateValue)>
    decreases e.len(),
{
    if e.len() == 0 {
        seq![(key, value)]
    } else if e[0].0@ == key@ {
        seq![(e[0].0, value)] + e.drop_first()
    } else if seq_lt(key@, e[0].0@) {
        seq![(key, value)] + e
    } else {
        seq![e[0]] + insert_sorted(e.drop_first(), key, value)
    }
}

/// Inserts `(key, value)` into `entries` at its ascending position,
/// replacing the value of an equal key.
fn insert_entry(entries: Vec<(String, TemplateValue)>, key: String, value: TemplateValue) -> (r: Vec<(String, TemplateValue)>)
    ensures
        r@ == insert_sorted(entries@, key, value),
{
    let ghost e0 = entries@;
    let mut v = entries;
    let mut i: usize = 0;
    proof {
        assert(e0.take(0) + e0.skip(0) =~= e0);
        assert(e0.skip(0) =~= e0);
        assert(e0.take(0) + insert_sorted(e0, key, value) =~= insert_sorted(e0, key, value));
    }
    while i < v.len()
        invariant
            v@ == e0,
            e0 == entries@,
            i <= e0.len(),
            insert_sorted(e0, key, value) == e0.take(i as int) + insert_sorted(e0.skip(i as int), key, value),
        decreases e0.len() - i,
    {
        proof {
            assert(e0.skip(i as int)[0] == e0[i as int]);
            assert(e0.skip(i as int).drop_first() =~= e0.skip(i + 1));
        }
        if str_eq(v[i].0.as_str(), key.as_str()) {
            let old_key = v[i].0.clone();
            v.set(i, (old_key, value));
            proof {
                assert(insert_sorted(e0.skip(i as int), key, value) == seq![(e0[i as int].0, value)] + e0.skip(i + 1));
                assert(v@ =~= e0.take(i as int) + (seq![(e0[i as int].0, value)] + e0.skip(i + 1)));
            }
            return v;
        }
        if str_less(key.as_str(), v[i].0.as_str()) {
            v.insert(i, (key, value));
            proof {
                assert(insert_sorted(e0.skip(i as int), key, value) == seq![(key, value)] + e0.skip(i as int));
                assert(v@ =~= e0.take(i as int) + (seq![(key, value)] + e0.skip(i as int)));
            }
            return v;
        }
        proof {
            assert(e0.take(i + 1) =~= e0.take(i as int) + seq![e0[i as int]]);
            assert(insert_sorted(e0.skip(i as int), key, value) == seq![e0[i as int]] + insert_sorted(e0.skip(i + 1), key, value));
            assert(e0.take(i as int) + (seq![e0[i as int]] + insert_sorted(e0.skip(i + 1), key, value)) =~= e0.take(i + 1) + insert_sorted(e0.skip(i + 1), key, value));
        }
        i = i + 1;
    }
    v.push((key, value));
    proof {
        assert(e0.skip(i as int) =~= Seq::<(String, TemplateValue)>::empty());
        assert(insert_sorted(e0.skip(i as int), key, value) == seq![(key, value)]);
        assert(e0.take(i as int) =~= e0);
        assert(v@ =~= e0 + seq![(key, value)]);
    }
    v
}

impl TemplateContext {
    #[verifier::type_invariant]
    spec fn ascending(self) -> bool {
        keys_ascending(self.entries@)
    }

    /// The entries, in ascending key order.
    pub closed spec fn entries_spec(&self) -> Seq<(String, TemplateValue)> {
        self.entries@
    }

    pub fn new() -> (r: Self)
        ensures
            r.entries_spec() == Seq::<(String, TemplateValue)>::empty(),
    {
        TemplateContext { entries: Vec::new() }
    }

    pub fn len(&self) -> (r: usize)
        ensures
            r == self.entries_spec().len(),
    {
        self.entries.len()
    }

    /// Inserts or replaces the value under `key`.
    pub fn insert(&mut self, key: String, value: TemplateValue)
        ensures
            final(self).entries_spec() == insert_sorted(old(self).entries_spec(), key, value),
            lookup(final(self).entries_spec(), key@) == Some(value),
            forall|other: Seq<char>| other != key@ ==> #[trigger] lookup(final(self).entries_spec(), other) == lookup(old(self).entries_spec(), other),
    {
        proof {
            use_type_invariant(&*self);
            lemma_insert_then_get(self.entries@, key, value, key@);
            assert forall|other: Seq<char>| other != key@ implies #[trigger] lookup(insert_sorted(self.entries@, key, value), other) == lookup(self.entries@, other) by {
                lemma_insert_then_get(self.entries@, key, value, other);
            }
        }
        let mut entries: Vec<(String, TemplateValue)> = Vec::new();
        std::mem::swap(&mut entries, &mut self.entries);
        self.entries = insert_entry(entries, key, value);
    }

    /// The value stored under `key`, if any.
    pub fn get(&self, key: &str) -> (r: Option<&TemplateValue>)
        ensures
            r matches Some(v) ==> lookup(self.entries_spec(), key@) == Some(*v),
            r is None ==> lookup(self.entries_spec(), key@) is None,
    {
        let ghost e = self.entries@;
        let mut i: usize = 0;
        proof {
            assert(e.skip(0) =~= e);
        }
        while i < self.entries.len()
            invariant
                e == self.entries@,
                i <= e.len(),
                lookup(e, key@) == lookup(e.skip(i as int), key@),
            decreases e.len() - i,
        {
            proof {
                assert(e.skip(i as int)[0] == e[i as int]);
                assert(e.skip(i as int).drop_first() =~= e.skip(i + 1));
            }
            if str_eq(self.entries[i].0.as_str(), key) {
                return Some(&self.entries[i].1);
            }
            i = i + 1;
        }
        None
    }
}

/// Law: inserting into a context with ascending keys keeps the keys
/// ascending; afterwards the key holds the inserted value and every other
/// key holds what it held before.
pub proof fn lemma_insert_then_get(e: Seq<(String, TemplateValue)>, key: String, value: TemplateValue, other: Seq<char>)
    requires
        keys_ascending(e),
    ensures
        keys_ascending(insert_sorted(e, key, value)),
        lookup(insert_sorted(e, key, value), key@) == Some(value),
        other != key@ ==> lookup(insert_sorted(e, key, value), other) == lookup(e, other),
    decreases e.len(),
{
    let r = insert_sorted(e, key, value);
    if e.len() == 0 {
        assert(r[0].0@ == key@);
        assert(r.drop_first().len() == 0);
        assert(lookup(r.drop_first(), other) is None);
    } else {
        let t = e.drop_first();
        assert(keys_ascending(t)) by {
            assert forall|a: int, b: int| 0 <= a < b < t.len() implies seq_lt(#[trigger] t[a].0@, #[trigger] t[b].0@) by {
                assert(t[a] == e[a + 1] && t[b] == e[b + 1]);
            }
        }
        if e[0].0@ == key@ {
            assert(r[0].0@ == key@);
            assert(r.drop_first() =~= t);
            assert forall|a: int, b: int| 0 <= a < b < r.len() implies seq_lt(#[trigger] r[a].0@, #[trigger] r[b].0@) by {
                assert(r[b] == e[b]);
                if a > 0 {
                    assert(r[a] == e[a]);
                }
            }
        } else if seq_lt(key@, e[0].0@) {
            assert(r[0].0@ == key@);
            assert(r.drop_first() =~= e);
            assert forall|a: int, b: int| 0 <= a < b < r.len() implies seq_lt(#[trigger] r[a].0@, #[trigger] r[b].0@) by {
                assert(r[b] == e[b - 1]);
                if a > 0 {
                    assert(r[a] == e[a - 1]);
                } else if b > 1 {
                    crate::text::lemma_seq_lt_transitive(key@, e[0].0@, e[b - 1].0@);
                }
            }
        } else {
            lemma_insert_then_get(t, key, value, other);
            let rest = insert_sorted(t, key, value);
            assert(r == seq![e[0]] + rest);
            assert(r[0] == e[0]);
            assert(r.drop_first() =~= rest);
            crate::text::lemma_seq_lt_total(e[0].0@, key@);
            assert forall|a: int, b: int| 0 <= a < b < r.len() implies seq_lt(#[trigger] r[a].0@, #[trigger] r[b].0@) by {
                if a > 0 {
                    assert(r[a] == rest[a - 1] && r[b] == rest[b - 1]);
                } else {
                    assert(r[b] == rest[b - 1]);
                    lemma_insert_keys_from(t, key, value, e[0].0@);
                }
            }
        }
    }
}

/// Every key of an insertion result is the inserted key or a key of `e`, so
/// a bound below all of them is kept.
proof fn lemma_insert_keys_from(e: Seq<(String, TemplateValue)>, key: String, value: TemplateValue, low: Seq<char>)
    requires
        seq_lt(low, key@),
        forall|i: int| 0 <= i < e.len() ==> seq_lt(low, #[trigger] e[i].0@),
    ensures
        forall|i: int| 0 <= i < insert_sorted(e, key, value).len() ==> seq_lt(low, #[trigger] insert_sorted(e, key, value)[i].0@),
    decreases e.len(),
{
    let r = insert_sorted(e, key, value);
    if e.len() == 0 {
        assert(r[0].0@ == key@);
    } else if e[0].0@ == key@ {
        assert(r == seq![(e[0].0, value)] + e.drop_first());
        assert forall|i: int| 0 <= i < r.len() implies seq_lt(low, #[trigger] r[i].0@) by {
            if i > 0 {
                assert(r[i] == e[i]);
                assert(seq_lt(low, e[i].0@));
            } else {
                assert(r[0].0@ == key@);
            }
        }
    } else if seq_lt(key@, e[0].0@) {
        assert(r == seq![(key, value)] + e);
        assert forall|i: int| 0 <= i < r.len() implies seq_lt(low, #[trigger] r[i].0@) by {
            if i > 0 {
                assert(r[i] == e[i - 1]);
                assert(seq_lt(low, e[i - 1].0@));
            } else {
                assert(r[0].0@ == key@);
            }
        }
    } else {
        let t = e.drop_first();
        assert forall|i: int| 0 <= i < t.len() implies seq_lt(low, #[trigger] t[i].0@) by {
            assert(t[i] == e[i + 1]);
        }
        lemma_insert_keys_from(t, key, value, low);
        let rest = insert_sorted(t, key, value);
        assert forall|i: int| 0 <= i < r.len() implies seq_lt(low, #[trigger] r[i].0@) by {
            if i > 0 {
                assert(r[i] == rest[i - 1]);
                assert(seq_lt(low, rest[i - 1].0@));
            } else {
                assert(r[0] == e[0]);
                assert(seq_lt(low, e[0].0@));
            }
        }
    }
}

// ---------------------------------------------------------------------------
// Compact JSON text of values (used for non-string placeholder values).

#[verifier::external_type_specification]
#[verifier::external_body]
pub struct ExJsonValue(serde_json::Value);

/// The compact JSON text that `serde_json` writes for a value.
pub uninterp spec fn json_text_of(v: TemplateValue) -> Seq<char>;

/// The conversion half of [`json_text`]: builds the `serde_json::Value` of a
/// template value node for node, with `serde_json::Map::insert` for objects
/// and `Vec` for arrays, recursing into nested values.
#[verifier::external_body]
fn json_value_of(v: &TemplateValue) -> serde_json::Value {
    match v {
        TemplateValue::Null => serde_json::Value::Null,
        TemplateValue::Bool(b) => serde_json::Value::Bool(*b),
        TemplateValue::Number(n) => serde_json::Value::from(*n),
        TemplateValue::Unsigned(n) => serde_json::Value::from(*n),
        TemplateValue::String(s) => serde_json::Value::String(s.clone()),
        TemplateValue::Array(items) => serde_json::Value::Array(items.iter().map(json_value_of).collect()),
        TemplateValue::Object(ctx) => {
            let mut map = serde_json::Map::new();
            for (key, item) in &ctx.entries {
                map.insert(key.clone(), json_value_of(item));
            }
            serde_json::Value::Object(map)
        },
    }
}

/// The compact JSON text of a value, written by `serde_json`
/// (`serde_json::Value`'s `to_string`). The contract claims that the text is
/// a function of the value alone.
#[verifier::external_body]
fn json_text(v: &TemplateValue) -> (r: String)
    ensures
        r@ == json_text_of(*v),
{
    json_value_of(v).to_string()
}

// ---------------------------------------------------------------------------
// Parsing.

/// First position at or after `from` holding `c`, or the length if none.
pub open spec fn find_from(s: Seq<char>, from: int, c: char) -> int
    decreases s.len() - from,
{
    if from >= s.len() {
        s.len() as int
    } else if s[from] == c {
        from
    } else {
        find_from(s, from + 1, c)
    }
}

/// First position in `from..to` that is not white space, or `to`.
pub open spec fn trim_start(s: Seq<char>, from: int, to: int) -> int
    decreases to - from,
{
    if from >= to {
        to
    } else if !is_white_space(s[from]) {
        from
    } else {
        trim_start(s, from + 1, to)
    }
}

/// One past the last position in `from..to` that is not white space, or `from`.
pub open spec fn trim_end(s: Seq<char>, from: int, to: int) -> int
    decreases to - from,
{
    if to <= from {
        from
    } else if !is_white_space(s[to - 1]) {
        to
    } else {
        trim_end(s, from, to - 1)
    }
}

pub proof fn lemma_find_from_bounds(s: Seq<char>, from: int, c: char)
    requires
        0 <= from <= s.len(),
    ensures
        from <= find_from(s, from, c) <= s.len(),
        find_from(s, from, c) < s.len() ==> s[find_from(s, from, c)] == c,
    decreases s.len() - from,
{
    if from < s.len() && s[from] != c {
        lemma_find_from_bounds(s, from + 1, c);
    }
}

pub proof fn lemma_trim_bounds(s: Seq<char>, from: int, to: int)
    requires
        0 <= from <= to <= s.len(),
    ensures
        from <= trim_start(s, from, to) <= to,
        from <= trim_end(s, from, to) <= to,
    decreases to - from,
{
    if from < to {
        lemma_trim_bounds(s, from + 1, to);
        lemma_trim_bounds(s, from, to - 1);
    }
}

/// One piece of a parsed template.
pub ghost enum TemplatePart {
    Literal(Seq<char>),
    Slot(Seq<char>),
}

#[derive(Debug, Clone, PartialEq, Eq, Copy, Structural)]
pub enum TemplateErrorKind {
    EmptySlot,
    UnclosedSlot,
}

/// Parse of `s` from position `cursor`: text runs become literals and each
/// `{path}` a slot holding the trimmed path; a `{` with no later `}` is
/// unclosed and a slot whose trimmed path is empty is rejected.
pub open spec fn parse_from(s: Seq<char>, cursor: int) -> Result<Seq<TemplatePart>, TemplateErrorKind>
    decreases s.len() - cursor,
{
    if cursor < 0 || cursor >= s.len() {
        Ok(Seq::empty())
    } else {
        let open = find_from(s, cursor, '{');
        proof {
            lemma_find_from_bounds(s, cursor, '{');
        }
        if open >= s.len() {
            Ok(seq![TemplatePart::Literal(s.subrange(cursor, s.len() as int))])
        } else {
            let close = find_from(s, open + 1, '}');
            proof {
                lemma_find_from_bounds(s, open + 1, '}');
            }
            if close >= s.len() {
                Err(TemplateErrorKind::UnclosedSlot)
            } else {
                let start = trim_start(s, open + 1, close);
                proof {
                    lemma_trim_bounds(s, open + 1, close);
                }
                let end = trim_end(s, start, close);
                proof {
                    lemma_trim_bounds(s, start, close);
                }
                if start >= end {
                    Err(TemplateErrorKind::EmptySlot)
                } else {
                    let lead: Seq<TemplatePart> = if open > cursor {
                        seq![TemplatePart::Literal(s.subrange(cursor, open))]
                    } else {
                        Seq::empty()
                    };
                    match parse_from(s, close + 1) {
                        Ok(rest) => Ok(lead + seq![TemplatePart::Slot(s.subrange(start, end))] + rest),
                        Err(e) => Err(e),
                    }
                }
            }
        }
    }
}

pub open spec fn parse_spec(s: Seq<char>) -> Result<Seq<TemplatePart>, TemplateErrorKind> {
    parse_from(s, 0)
}

#[derive(Debug, Clone, PartialEq, Eq)]
enum Part {
    Literal(String),
    Slot(String),
}

spec fn part_view(p: Part) -> TemplatePart {
    match p {
        Part::Literal(t) => TemplatePart::Literal(t@),
        Part::Slot(t) => TemplatePart::Slot(t@),
    }
}

/// A parsed message template.
#[derive(Debug, Clone, PartialEq, Eq)]
pub struct Template {
    parts: Vec<Part>,
}

impl View for Template {
    type V = Seq<TemplatePart>;

    closed spec fn view(&self) -> Seq<TemplatePart> {
        self.parts@.map_values(|p: Part| part_view(p))
    }
}

#[derive(Debug, Clone, PartialEq, Eq)]
pub enum TemplateError {
    EmptySlot,
    UnclosedSlot,
    MissingValue(String),
}

pub open spec fn kind_error(k: TemplateErrorKind) -> TemplateError {
    match k {
        TemplateErrorKind::EmptySlot => TemplateError::EmptySlot,
        TemplateErrorKind::UnclosedSlot => TemplateError::UnclosedSlot,
    }
}

impl TemplateError {
    /// Human-readable description of the failure.
    pub fn message(&self) -> (r: String)
        ensures
            self is EmptySlot ==> r@ == "template path must not be empty"@,
            self is UnclosedSlot ==> r@ == "template placeholder is not closed"@,
            self matches TemplateError::MissingValue(p) ==> r@ == "missing template value: "@ + p@,
    {
        match self {
            TemplateError::EmptySlot => "template path must not be empty".to_owned(),
            TemplateError::UnclosedSlot => "template placeholder is not closed".to_owned(),
            TemplateError::MissingValue(path) => "missing template value: ".to_owned().concat(
                path.as_str(),
            ),
        }
    }
}

impl TemplateError {
    /// The stable code of this error.
    pub open spec fn code_spec(&self) -> Seq<char> {
        match self {
            TemplateError::EmptySlot => "VAL-TEMPLATE-001"@,
            TemplateError::UnclosedSlot => "VAL-TEMPLATE-002"@,
            TemplateError::MissingValue(_) => "RES-TEMPLATE-001"@,
        }
    }
}

impl CodedError for TemplateError {
    fn code(&self) -> (r: ErrorCode)
        ensures
            r@ == self.code_spec(),
    {
        match self {
            TemplateError::EmptySlot => {
                proof {
                    reveal_strlit("VAL-TEMPLATE-001");
                    reveal_with_fuel(crate::errors::segments_ok, 10);
                    crate::errors::lemma_valid_code("VAL-TEMPLATE-001"@);
                }
                ErrorCode::new("VAL-TEMPLATE-001")
            },
            TemplateError::UnclosedSlot => {
                proof {
                    reveal_strlit("VAL-TEMPLATE-002");
                    reveal_with_fuel(crate::errors::segments_ok, 10);
                    crate::errors::lemma_valid_code("VAL-TEMPLATE-002"@);
                }
                ErrorCode::new("VAL-TEMPLATE-002")
            },
            TemplateError::MissingValue(_) => {
                proof {
                    reveal_strlit("RES-TEMPLATE-001");
                    reveal_with_fuel(crate::errors::segments_ok, 10);
                    crate::errors::lemma_valid_code("RES-TEMPLATE-001"@);
                }
                ErrorCode::new("RES-TEMPLATE-001")
            },
        }
    }
}

fn find_char(v: &Vec<char>, from: usize, c: char) -> (r: usize)
    requires
        from <= v.len(),
    ensures
        r as int == find_from(v@, from as int, c),
        from <= r <= v.len(),
{
    let mut i = from;
    while i < v.len()
        invariant
            from <= i <= v.len(),
            find_from(v@, from as int, c) == find_from(v@, i as int, c),
        decreases v.len() - i,
    {
        if v[i] == c {
            return i;
        }
        i = i + 1;
    }
    i
}

fn trim_start_in(v: &Vec<char>, from: usize, to: usize) -> (r: usize)
    requires
        from <= to <= v.len(),
    ensures
        r as int == trim_start(v@, from as int, to as int),
        from <= r <= to,
{
    let mut i = from;
    while i < to
        invariant
            from <= i <= to <= v.len(),
            trim_start(v@, from as int, to as int) == trim_start(v@, i as int, to as int),
        decreases to - i,
    {
        if !is_white_space_char(v[i]) {
            return i;
        }
        i = i + 1;
    }
    i
}

fn trim_end_in(v: &Vec<char>, from: usize, to: usize) -> (r: usize)
    requires
        from <= to <= v.len(),
    ensures
        r as int == trim_end(v@, from as int, to as int),
        from <= r <= to,
{
    let mut j = to;
    while j > from
        invariant
            from <= j <= to <= v.len(),
            trim_end(v@, from as int, to as int) == trim_end(v@, from as int, j as int),
        decreases j - from,
    {
        if !is_white_space_char(v[j - 1]) {
            return j;
        }
        j = j - 1;
    }
    j
}

fn slice_string(v: &Vec<char>, from: usize, to: usize) -> (r: String)
    requires
        from <= to <= v.len(),
    ensures
        r@ == v@.subrange(from as int, to as int),
{
    let mut s = String::new();
    let mut i = from;
    while i < to
        invariant
            from <= i <= to <= v.len(),
            s@ == v@.subrange(from as int, i as int),
        decreases to - i,
    {
        crate::text::push_char(&mut s, v[i]);
        proof {
            assert(v@.subrange(from as int, i + 1) =~= v@.subrange(from as int, i as int).push(v@[i as int]));
        }
        i = i + 1;
    }
    s
}

impl Template {
    /// Parses `{dotted.path}` placeholders; see [`parse_spec`].
    pub fn parse(source: &str) -> (r: Result<Self, TemplateError>)
        ensures
            parse_spec(source@) matches Ok(parts) ==> r matches Ok(t) && t@ == parts,
            parse_spec(source@) matches Err(k) ==> r == Err::<Self, TemplateError>(kind_error(k)),
    {
        let v = chars_of(source);
        let ghost s = source@;
        let mut parts: Vec<Part> = Vec::new();
        let mut cursor: usize = 0;
        loop
            invariant
                v@ == s,
                s == source@,
                cursor <= v.len(),
                parse_from(s, cursor as int) matches Ok(rest) ==> parse_spec(s) == Ok::<Seq<TemplatePart>, TemplateErrorKind>(
                    parts@.map_values(|p: Part| part_view(p)) + rest),
                parse_from(s, cursor as int) matches Err(e) ==> parse_spec(s) == Err::<Seq<TemplatePart>, TemplateErrorKind>(e),
            ensures
                parse_spec(s) == Ok::<Seq<TemplatePart>, TemplateErrorKind>(parts@.map_values(|p: Part| part_view(p))),
            decreases v.len() - cursor,
        {
            let ghost before = parts@.map_values(|p: Part| part_view(p));
            if cursor >= v.len() {
                proof {
                    assert(before + Seq::<TemplatePart>::empty() =~= before);
                }
                break;
            }
            let open = find_char(&v, cursor, '{');
            if open >= v.len() {
                let lit = slice_string(&v, cursor, v.len());
                parts.push(Part::Literal(lit));
                proof {
                    assert(parts@.map_values(|p: Part| part_view(p)) =~= before + seq![TemplatePart::Literal(s.subrange(cursor as int, s.len() as int))]);
                    assert(parse_from(s, v.len() as int) == Ok::<Seq<TemplatePart>, TemplateErrorKind>(Seq::empty()));
                    assert(parts@.map_values(|p: Part| part_view(p)) + Seq::<TemplatePart>::empty() =~= parts@.map_values(|p: Part| part_view(p)));
                }
                cursor = v.len();
                break;
            }
            let close = find_char(&v, open + 1, '}');
            if close >= v.len() {
                return Err(TemplateError::UnclosedSlot);
            }
            let start = trim_start_in(&v, open + 1, close);
            let end = trim_end_in(&v, start, close);
            if start >= end {
                return Err(TemplateError::EmptySlot);
            }
            if open > cursor {
                let lit = slice_string(&v, cursor, open);
                parts.push(Part::Literal(lit));
            }
            let path = slice_string(&v, start, end);
            parts.push(Part::Slot(path));
            proof {
                let lead: Seq<TemplatePart> = if open > cursor {
                    seq![TemplatePart::Literal(s.subrange(cursor as int, open as int))]
                } else {
                    Seq::empty()
                };
                assert(parts@.map_values(|p: Part| part_view(p)) =~= before + lead + seq![TemplatePart::Slot(s.subrange(start as int, end as int))]);
                match parse_from(s, close + 1) {
                    Ok(rest) => {
                        assert(before + (lead + seq![TemplatePart::Slot(s.subrange(start as int, end as int))] + rest) =~= parts@.map_values(|p: Part| part_view(p)) + rest);
                    },
                    Err(e) => {},
                }
            }
            cursor = close + 1;
        }
        Ok(Template { parts })
    }

    pub fn has_placeholders(&self) -> (r: bool)
        ensures
            r == exists|i: int| 0 <= i < self@.len() && self@[i] is Slot,
    {
        let mut i: usize = 0;
        while i < self.parts.len()
            invariant
                i <= self.parts.len(),
                forall|j: int| 0 <= j < i ==> !(self@[j] is Slot),
            decreases self.parts.len() - i,
        {
            match &self.parts[i] {
                Part::Slot(_) => {
                    assert(self@[i as int] is Slot);
                    return true;
                },
                Part::Literal(_) => {},
            }
            i = i + 1;
        }
        false
    }
}

// ---------------------------------------------------------------------------
// Rendering.

/// Resolution of the dotted path `path[start..]`: the segment before the next
/// dot is looked up in `entries`; further segments are only followed through
/// nested mappings.
pub closed spec fn resolve_at(entries: Seq<(String, TemplateValue)>, path: Seq<char>, start: int) -> Option<TemplateValue>
    decreases path.len() - start,
{
    if start < 0 || start > path.len() {
        None
    } else {
        let dot = find_from(path, start, '.');
        proof {
            lemma_find_from_bounds(path, start, '.');
        }
        match lookup(entries, path.subrange(start, dot)) {
            None => None,
            Some(v) => if dot >= path.len() {
                Some(v)
            } else {
                match v {
                    TemplateValue::Object(c) => resolve_at(c.entries@, path, dot + 1),
                    _ => None,
                }
            },
        }
    }
}

pub open spec fn resolve_spec(entries: Seq<(String, TemplateValue)>, path: Seq<char>) -> Option<TemplateValue> {
    resolve_at(entries, path, 0)
}

/// The text a resolved placeholder value renders as: nothing for null, the
/// string itself for strings, compact JSON otherwise.
pub open spec fn slot_text(v: TemplateValue) -> Seq<char> {
    match v {
        TemplateValue::Null => Seq::empty(),
        TemplateValue::String(s) => s@,
        _ => json_text_of(v),
    }
}

/// Rendering of template parts against a context; the error is the path of
/// the first placeholder that does not resolve.
pub open spec fn render_spec(parts: Seq<TemplatePart>, entries: Seq<(String, TemplateValue)>) -> Result<Seq<char>, Seq<char>>
    decreases parts.len(),
{
    if parts.len() == 0 {
        Ok(Seq::empty())
    } else {
        match parts[0] {
            TemplatePart::Literal(t) => match render_spec(parts.drop_first(), entries) {
                Ok(r) => Ok(t + r),
                Err(p) => Err(p),
            },
            TemplatePart::Slot(p) => match resolve_spec(entries, p) {
                None => Err(p),
                Some(v) => match render_spec(parts.drop_first(), entries) {
                    Ok(r) => Ok(slot_text(v) + r),
                    Err(e) => Err(e),
                },
            },
        }
    }
}

/// Whether `s` holds no dot.
pub open spec fn dot_free(s: Seq<char>) -> bool {
    forall|i: int| 0 <= i < s.len() ==> s[i] != '.'
}

/// The segments joined with a dot between each two.
pub open spec fn dotted(segments: Seq<Seq<char>>) -> Seq<char>
    decreases segments.len(),
{
    if segments.len() == 0 {
        Seq::empty()
    } else if segments.len() == 1 {
        segments[0]
    } else {
        segments[0] + seq!['.'] + dotted(segments.drop_first())
    }
}

/// Looking up the first segment in `entries`, then each further segment in
/// the mapping the previous one found.
pub open spec fn follow_segments(entries: Seq<(String, TemplateValue)>, segments: Seq<Seq<char>>) -> Option<TemplateValue>
    decreases segments.len(),
{
    if segments.len() == 0 {
        None
    } else {
        match lookup(entries, segments[0]) {
            None => None,
            Some(v) => if segments.len() == 1 {
                Some(v)
            } else {
                match v {
                    TemplateValue::Object(c) => follow_segments(c.entries_spec(), segments.drop_first()),
                    _ => None,
                }
            },
        }
    }
}

proof fn lemma_find_dot_at(s: Seq<char>, from: int, end: int)
    requires
        0 <= from <= end <= s.len(),
        forall|i: int| from <= i < end ==> s[i] != '.',
        end == s.len() || s[end] == '.',
    ensures
        find_from(s, from, '.') == end,
    decreases end - from,
{
    if from < end {
        lemma_find_dot_at(s, from + 1, end);
    }
}

proof fn lemma_resolve_at_segments(entries: Seq<(String, TemplateValue)>, path: Seq<char>, start: int, segments: Seq<Seq<char>>)
    requires
        0 <= start <= path.len(),
        segments.len() > 0,
        forall|k: int| 0 <= k < segments.len() ==> dot_free(#[trigger] segments[k]),
        path.subrange(start, path.len() as int) == dotted(segments),
    ensures
        resolve_at(entries, path, start) == follow_segments(entries, segments),
    decreases segments.len(),
{
    let first = segments[0];
    let n = first.len() as int;
    let tail = path.subrange(start, path.len() as int);
    assert(dot_free(first));
    if segments.len() == 1 {
        assert(tail == first);
        assert forall|i: int| start <= i < start + n implies path[i] != '.' by {
            assert(tail[i - start] == path[i]);
        }
        lemma_find_dot_at(path, start, start + n);
        assert(path.subrange(start, start + n) =~= first);
    } else {
        let rest = segments.drop_first();
        assert(tail == first + seq!['.'] + dotted(rest));
        assert forall|i: int| start <= i < start + n implies path[i] != '.' by {
            assert(tail[i - start] == path[i]);
            assert(tail[i - start] == first[i - start]);
        }
        assert(path[start + n] == '.') by {
            assert(tail[n] == path[start + n]);
        }
        lemma_find_dot_at(path, start, start + n);
        assert(path.subrange(start, start + n) =~= first) by {
            assert forall|i: int| 0 <= i < n implies path.subrange(start, start + n)[i] == first[i] by {
                assert(tail[i] == path[start + i]);
            }
        }
        assert(path.subrange(start + n + 1, path.len() as int) =~= dotted(rest)) by {
            assert forall|i: int| 0 <= i < dotted(rest).len() implies path.subrange(start + n + 1, path.len() as int)[i] == dotted(rest)[i] by {
                assert(tail[n + 1 + i] == path[start + n + 1 + i]);
            }
        }
        assert forall|k: int| 0 <= k < rest.len() implies dot_free(#[trigger] rest[k]) by {
            assert(rest[k] == segments[k + 1]);
        }
        match lookup(entries, first) {
            None => {},
            Some(v) => match v {
                TemplateValue::Object(c) => {
                    lemma_resolve_at_segments(c.entries@, path, start + n + 1, rest);
                },
                _ => {},
            },
        }
    }
}

/// Law: a placeholder path made of dot-free segments `p1.p2...pn` resolves
/// by looking up `p1` in the context, then `p2` in the mapping found, and so
/// on down to `pn`: each segment is one key one level deeper, and a path
/// that reaches a non-mapping before its last segment, or a missing key,
/// does not resolve.
pub proof fn lemma_dotted_path_follows_segments(entries: Seq<(String, TemplateValue)>, segments: Seq<Seq<char>>)
    requires
        segments.len() > 0,
        forall|k: int| 0 <= k < segments.len() ==> dot_free(#[trigger] segments[k]),
    ensures
        resolve_spec(entries, dotted(segments)) == follow_segments(entries, segments),
{
    let path = dotted(segments);
    assert(path.subrange(0, path.len() as int) =~= path);
    lemma_resolve_at_segments(entries, path, 0, segments);
}

fn resolve_path<'a>(context: &'a TemplateContext, path: &str) -> (r: Option<&'a TemplateValue>)
    ensures
        r matches Some(v) ==> resolve_spec(context.entries_spec(), path@) == Some(*v),
        r is None ==> resolve_spec(context.entries_spec(), path@) is None,
{
    let v = chars_of(path);
    let mut ctx: &'a TemplateContext = context;
    let mut start: usize = 0;
    loop
        invariant
            v@ == path@,
            start <= v.len(),
            resolve_spec(context.entries_spec(), path@) == resolve_at(ctx.entries@, path@, start as int),
        decreases v.len() - start,
    {
        let dot = find_char(&v, start, '.');
        let seg = slice_string(&v, start, dot);
        match ctx.get(seg.as_str()) {
            None => {
                return None;
            },
            Some(val) => {
                if dot >= v.len() {
                    return Some(val);
                }
                match val {
                    TemplateValue::Object(c) => {
                        ctx = c;
                        start = dot + 1;
                    },
                    _ => {
                        return None;
                    },
                }
            },
        }
    }
}

fn push_slot_text(v: &TemplateValue, out: &mut Vec<char>)
    ensures
        final(out)@ == old(out)@ + slot_text(*v),
{
    match v {
        TemplateValue::Null => {
            assert(old(out)@ + Seq::<char>::empty() =~= old(out)@);
        },
        TemplateValue::String(s) => {
            push_str(s.as_str(), out);
        },
        _ => {
            let text = json_text(v);
            push_str(text.as_str(), out);
        },
    }
}

impl Template {
    /// Renders the template; a placeholder whose path does not resolve fails
    /// with that path.
    pub fn render(&self, context: &TemplateContext) -> (r: Result<String, TemplateError>)
        ensures
            render_spec(self@, context.entries_spec()) matches Ok(t) ==> r matches Ok(s) && s@ == t,
            render_spec(self@, context.entries_spec()) matches Err(p) ==> r matches Err(
                TemplateError::MissingValue(q),
            ) && q@ == p,
    {
        let ghost parts = self@;
        let ghost entries = context.entries_spec();
        let mut out: Vec<char> = Vec::new();
        let mut i: usize = 0;
        proof {
            assert(parts.skip(0) =~= parts);
            assert(out@ =~= Seq::<char>::empty());
            match render_spec(parts, entries) {
                Ok(t) => {
                    assert(t =~= out@ + t);
                },
                Err(p) => {},
            }
        }
        while i < self.parts.len()
            invariant
                parts == self@,
                entries == context.entries_spec(),
                i <= self.parts.len(),
                render_spec(parts, entries) matches Ok(t) ==> render_spec(parts.skip(i as int), entries) matches Ok(u) && t == out@ + u,
                render_spec(parts, entries) matches Err(p) ==> render_spec(parts.skip(i as int), entries) == Err::<Seq<char>, Seq<char>>(p),
            decreases self.parts.len() - i,
        {
            proof {
                assert(parts.skip(i as int)[0] == part_view(self.parts@[i as int]));
                assert(parts.skip(i as int).drop_first() =~= parts.skip(i + 1));
            }
            let ghost before = out@;
            match &self.parts[i] {
                Part::Literal(t) => {
                    push_str(t.as_str(), &mut out);
                },
                Part::Slot(path) => {
                    match resolve_path(context, path.as_str()) {
                        None => {
                            return Err(TemplateError::MissingValue(path.clone()));
                        },
                        Some(value) => {
                            push_slot_text(value, &mut out);
                        },
                    }
                },
            }
            proof {
                match render_spec(parts, entries) {
                    Ok(t) => {
                        let u = render_spec(parts.skip(i + 1), entries)->Ok_0;
                        assert(t == out@ + u);
                    },
                    Err(p) => {},
                }
            }
            i = i + 1;
        }
        proof {
            assert(parts.skip(i as int).len() == 0);
            assert(out@ + Seq::<char>::empty() =~= out@);
        }
        Ok(string_from_chars(&out))
    }
}

} // verus!
