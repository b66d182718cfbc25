//! Ordered in-memory configuration resolution with exact-input provenance.
//!
//! This module parses and merges configuration content already acquired by
//! an application edge. It never discovers files, reads environment
//! variables, performs I/O, or owns policy semantics.

use vstd::prelude::*;

use crate::errors::{CodedError, ErrorCode};
use crate::text::{is_blank, is_blank_spec, seq_lt, str_eq, str_less};

verus! {

/// The FNV-1a 64-bit offset basis.
pub const FNV_OFFSET_BASIS: u64 = 0xcbf29ce484222325u64;

/// The FNV-1a 64-bit prime.
pub const FNV_PRIME: u64 = 0x00000100000001b3u64;

#[verifier::external_type_specification]
#[verifier::external_body]
pub struct ExTomlDeError(toml::de::Error);

#[derive(Debug, PartialEq, Eq, PartialOrd, Ord, Hash)]
pub struct ConfigLayerId(String);

impl View for ConfigLayerId {
    type V = Seq<char>;

    closed spec fn view(&self) -> Seq<char> {
        self.0@
    }
}

impl Clone for ConfigLayerId {
    fn clone(&self) -> (r: Self)
        ensures
            r@ == self@,
    {
        proof {
            use_type_invariant(self);
        }
        ConfigLayerId(self.0.clone())
    }
}

impl ConfigLayerId {
    #[verifier::type_invariant]
    spec fn not_blank(self) -> bool {
        !is_blank_spec(self.0@)
    }

    /// Accepts any value that is not blank.
    pub fn new(value: &str) -> (r: Result<Self, ConfigError>)
        ensures
            is_blank_spec(value@) <==> r is Err,
            r matches Ok(id) ==> id@ == value@,
            r matches Err(e) ==> e is EmptyLayerId,
    {
        if is_blank(value) {
            return Err(ConfigError::EmptyLayerId);
        }
        Ok(ConfigLayerId(value.to_owned()))
    }

    pub fn as_str(&self) -> (r: &str)
        ensures
            r@ == self@,
            !is_blank_spec(r@),
    {
        proof {
            use_type_invariant(self);
        }
        self.0.as_str()
    }

    /// The identifier text.
    pub fn to_string(&self) -> (r: String)
        ensures
            r@ == self@,
    {
        self.0.clone()
    }
}

/// A fingerprint of the exact ordered layer inputs.
#[derive(Debug, Clone, Copy, PartialEq, Eq, Structural, Hash)]
pub struct ConfigRevision(u64);

/// The lowercase hexadecimal digit for `d < 16`.
pub open spec fn hex_digit(d: u64) -> char {
    if d < 10 {
        ((d + 48) as u8) as char
    } else {
        ((d + 87) as u8) as char
    }
}

/// `n` as exactly `width` lowercase hexadecimal digits, most significant
/// first.
pub open spec fn hex_text(n: u64, width: nat) -> Seq<char>
    decreases width,
{
    if width == 0 {
        Seq::empty()
    } else {
        hex_text(n / 16, (width - 1) as nat).push(hex_digit(n % 16))
    }
}

fn hex_digit_of(d: u64) -> (c: char)
    requires
        d < 16,
    ensures
        c == hex_digit(d),
{
    if d < 10 {
        ((d + 48) as u8) as char
    } else {
        ((d + 87) as u8) as char
    }
}

fn push_hex(n: u64, width: u64, out: &mut Vec<char>)
    ensures
        final(out)@ == old(out)@ + hex_text(n, width as nat),
    decreases width,
{
    if width > 0 {
        push_hex(n / 16, width - 1, out);
        out.push(hex_digit_of(n % 16));
        proof {
            assert(old(out)@ + hex_text(n, width as nat) =~= (old(out)@ + hex_text(n / 16, (width - 1) as nat)).push(
                hex_digit(n % 16),
            ));
        }
    } else {
        proof {
            assert(old(out)@ + hex_text(n, 0) =~= old(out)@);
        }
    }
}

impl ConfigRevision {
    pub closed spec fn value(self) -> u64 {
        self.0
    }

    pub fn as_u64(self) -> (r: u64)
        ensures
            r == self.value(),
    {
        self.0
    }

    /// The revision as sixteen lowercase hexadecimal digits.
    pub fn to_hex(self) -> (r: String)
        ensures
            r@ == hex_text(self.value(), 16),
    {
        let mut out: Vec<char> = Vec::new();
        push_hex(self.0, 16, &mut out);
        proof {
            assert(out@ =~= hex_text(self.0, 16));
        }
        crate::text::string_from_chars(out.as_slice())
    }
}

/// One FNV-1a step: mix in a byte, then multiply by the prime, wrapping.
pub open spec fn fnv_step(state: u64, byte: u8) -> u64 {
    (state ^ (byte as u64)).wrapping_mul(FNV_PRIME)
}

/// FNV-1a over `bytes`, starting from `state`.
pub open spec fn fnv_bytes(state: u64, bytes: Seq<u8>) -> u64
    decreases bytes.len(),
{
    if bytes.len() == 0 {
        state
    } else {
        fnv_step(fnv_bytes(state, bytes.drop_last()), bytes.last())
    }
}

/// The eight little-endian bytes of `n`.
pub open spec fn le_bytes(n: u64) -> Seq<u8> {
    Seq::new(8, |i: int| ((n >> ((8 * i) as u64)) & 0xff) as u8)
}

/// Mixes one length-prefixed part into `state`: the part's byte length as
/// eight little-endian bytes, then its bytes.
pub open spec fn hash_part_spec(state: u64, bytes: Seq<u8>) -> u64 {
    fnv_bytes(fnv_bytes(state, le_bytes(bytes.len() as u64)), bytes)
}

fn fnv_byte(state: u64, byte: u8) -> (r: u64)
    ensures
        r == fnv_step(state, byte),
{
    (state ^ (byte as u64)).wrapping_mul(FNV_PRIME)
}

/// Mixes one length-prefixed part into `state`.
pub fn hash_part(state: u64, bytes: &[u8]) -> (r: u64)
    ensures
        r == hash_part_spec(state, bytes@),
{
    let len: u64 = bytes.len() as u64;
    let ghost prefix = le_bytes(len);
    let mut state = state;
    let ghost start = state;
    let mut i: u64 = 0;
    while i < 8
        invariant
            i <= 8,
            prefix == le_bytes(len),
            state == fnv_bytes(start, prefix.take(i as int)),
        decreases 8 - i,
    {
        let byte: u8 = ((len >> (8 * i)) & 0xff) as u8;
        proof {
            assert(prefix.take(i + 1).drop_last() =~= prefix.take(i as int));
            assert(prefix.take(i + 1).last() == byte);
        }
        state = fnv_byte(state, byte);
        i = i + 1;
    }
    proof {
        assert(prefix.take(8) =~= prefix);
    }
    let ghost mid = state;
    let mut j: usize = 0;
    while j < bytes.len()
        invariant
            j <= bytes@.len(),
            state == fnv_bytes(mid, bytes@.take(j as int)),
        decreases bytes.len() - j,
    {
        proof {
            assert(bytes@.take(j + 1).drop_last() =~= bytes@.take(j as int));
        }
        state = fnv_byte(state, bytes[j]);
        j = j + 1;
    }
    proof {
        assert(bytes@.take(bytes@.len() as int) =~= bytes@);
    }
    state
}

#[derive(Debug)]
pub enum ConfigError {
    EmptyLayerId,
    InvalidLayer { layer: ConfigLayerId, source: toml::de::Error },
    ResolutionFailed { source: toml::de::Error },
}

impl ConfigError {
    pub open spec fn message_spec(&self) -> Seq<char> {
        match self {
            ConfigError::EmptyLayerId => "configuration layer id must not be empty"@,
            ConfigError::InvalidLayer { layer, .. } => "configuration layer "@ + layer@ + " is invalid TOML"@,
            ConfigError::ResolutionFailed { .. } => "configuration resolution failed"@,
        }
    }

    /// The human-readable description of the error.
    pub fn message(&self) -> (r: String)
        ensures
            r@ == self.message_spec(),
    {
        match self {
            ConfigError::EmptyLayerId => "configuration layer id must not be empty".to_owned(),
            ConfigError::InvalidLayer { layer, .. } => "configuration layer ".to_owned().concat(
                layer.as_str(),
            ).concat(" is invalid TOML"),
            ConfigError::ResolutionFailed { .. } => "configuration resolution failed".to_owned(),
        }
    }

    /// The parser's error underneath, where there is one.
    pub fn source_error(&self) -> (r: Option<&toml::de::Error>)
        ensures
            self is EmptyLayerId <==> r is None,
    {
        match self {
            ConfigError::EmptyLayerId => None,
            ConfigError::InvalidLayer { source, .. } => Some(source),
            ConfigError::ResolutionFailed { source } => Some(source),
        }
    }
}

impl ConfigError {
    /// The stable code of this error.
    pub open spec fn code_spec(&self) -> Seq<char> {
        match self {
            ConfigError::EmptyLayerId => "VAL-CONFIG-001"@,
            ConfigError::InvalidLayer { .. } => "CFG-CONFIG-001"@,
            ConfigError::ResolutionFailed { .. } => "CFG-CONFIG-002"@,
        }
    }
}

impl CodedError for ConfigError {
    fn code(&self) -> (r: ErrorCode)
        ensures
            r@ == self.code_spec(),
    {
        match self {
            ConfigError::EmptyLayerId => {
                proof {
                    reveal_strlit("VAL-CONFIG-001");
                    reveal_with_fuel(crate::errors::segments_ok, 8);
                    crate::errors::lemma_valid_code("VAL-CONFIG-001"@);
                }
                ErrorCode::new("VAL-CONFIG-001")
            },
            ConfigError::InvalidLayer { .. } => {
                proof {
                    reveal_strlit("CFG-CONFIG-001");
                    reveal_with_fuel(crate::errors::segments_ok, 8);
                    crate::errors::lemma_valid_code("CFG-CONFIG-001"@);
                }
                ErrorCode::new("CFG-CONFIG-001")
            },
            ConfigError::ResolutionFailed { .. } => {
                proof {
                    reveal_strlit("CFG-CONFIG-002");
                    reveal_with_fuel(crate::errors::segments_ok, 8);
                    crate::errors::lemma_valid_code("CFG-CONFIG-002"@);
                }
                ErrorCode::new("CFG-CONFIG-002")
            },
        }
    }
}

#[verifier::external_type_specification]
#[verifier::external_body]
pub struct ExTomlValue(toml::Value);

/// A node of a configuration tree: a table of named nodes, or any other
/// TOML value, kept as the parser produced it.
#[derive(Debug)]
pub enum ConfigNode {
    Table(ConfigTable),
    Leaf(toml::Value),
}

/// A configuration table: named nodes, keys in ascending order as the
/// parser hands them out.
#[derive(Debug)]
pub struct ConfigTable {
    entries: Vec<(String, ConfigNode)>,
}

/// The shape of a configuration node, with each key taken as text.
pub enum NodeView {
    Table(Seq<(Seq<char>, NodeView)>),
    Leaf(toml::Value),
}

pub closed spec fn node_view(n: ConfigNode) -> NodeView
    decreases n,
{
    match n {
        ConfigNode::Table(t) => NodeView::Table(entries_view(t.entries@)),
        ConfigNode::Leaf(v) => NodeView::Leaf(v),
    }
}

pub closed spec fn entries_view(s: Seq<(String, ConfigNode)>) -> Seq<(Seq<char>, NodeView)>
    decreases s,
{
    if s.len() == 0 {
        Seq::empty()
    } else {
        entries_view(s.drop_last()).push((s.last().0@, node_view(s.last().1)))
    }
}

/// Entry `j` of the view is the view of entry `j`.
pub proof fn lemma_entries_view_index(s: Seq<(String, ConfigNode)>)
    ensures
        entries_view(s).len() == s.len(),
        forall|j: int| 0 <= j < s.len() ==> #[trigger] entries_view(s)[j] == (s[j].0@, node_view(s[j].1)),
    decreases s.len(),
{
    if s.len() > 0 {
        lemma_entries_view_index(s.drop_last());
        assert forall|j: int| 0 <= j < s.len() implies #[trigger] entries_view(s)[j] == (s[j].0@, node_view(s[j].1)) by {
            if j < s.len() - 1 {
                assert(entries_view(s)[j] == entries_view(s.drop_last())[j]);
            }
        }
    }
}

impl View for ConfigTable {
    type V = Seq<(Seq<char>, NodeView)>;

    closed spec fn view(&self) -> Seq<(Seq<char>, NodeView)> {
        entries_view(self.entries@)
    }
}

/// Overlays `incoming` on `base`, both in ascending key order: a key in
/// only one of them keeps its node; a key in both takes the incoming node,
/// except that two tables are overlaid recursively.
pub open spec fn merge_view(base: Seq<(Seq<char>, NodeView)>, incoming: Seq<(Seq<char>, NodeView)>) -> Seq<(Seq<char>, NodeView)>
    decreases incoming, base,
{
    if incoming.len() == 0 {
        base
    } else if base.len() == 0 {
        incoming
    } else if seq_lt(base[0].0, incoming[0].0) {
        seq![base[0]] + merge_view(base.drop_first(), incoming)
    } else if base[0].0 == incoming[0].0 {
        let node = match (base[0].1, incoming[0].1) {
            (NodeView::Table(b), NodeView::Table(i)) => NodeView::Table(merge_view(b, i)),
            _ => incoming[0].1,
        };
        seq![(base[0].0, node)] + merge_view(base.drop_first(), incoming.drop_first())
    } else {
        seq![incoming[0]] + merge_view(base, incoming.drop_first())
    }
}

/// Views distribute over concatenation.
pub proof fn lemma_entries_view_concat(a: Seq<(String, ConfigNode)>, b: Seq<(String, ConfigNode)>)
    ensures
        entries_view(a + b) == entries_view(a) + entries_view(b),
{
    lemma_entries_view_index(a);
    lemma_entries_view_index(b);
    lemma_entries_view_index(a + b);
    assert(entries_view(a + b) =~= entries_view(a) + entries_view(b));
}

/// Views commute with dropping a prefix.
pub proof fn lemma_entries_view_skip(s: Seq<(String, ConfigNode)>, k: int)
    requires
        0 <= k <= s.len(),
    ensures
        entries_view(s.skip(k)) == entries_view(s).skip(k),
{
    lemma_entries_view_index(s);
    lemma_entries_view_index(s.skip(k));
    assert(entries_view(s.skip(k)) =~= entries_view(s).skip(k));
}

/// Overlays the entries of `incoming` on those of `base`.
fn merge_entries(base: Vec<(String, ConfigNode)>, incoming: Vec<(String, ConfigNode)>) -> (r: Vec<(String, ConfigNode)>)
    ensures
        entries_view(r@) == merge_view(entries_view(base@), entries_view(incoming@)),
    decreases entries_view(incoming@),
{
    let ghost bs = base@;
    let ghost is = incoming@;
    let ghost bv = entries_view(bs);
    let ghost iv = entries_view(is);
    proof {
        lemma_entries_view_index(bs);
        lemma_entries_view_index(is);
        lemma_entries_view_skip(bs, 0);
        lemma_entries_view_skip(is, 0);
        assert(bs.skip(0) =~= bs);
        assert(is.skip(0) =~= is);
    }
    let mut b = base;
    let mut i = incoming;
    let mut out: Vec<(String, ConfigNode)> = Vec::new();
    let ghost mut nb: int = 0;
    let ghost mut ni: int = 0;
    proof {
        assert(entries_view(out@) =~= Seq::<(Seq<char>, NodeView)>::empty());
        assert(merge_view(bv, iv) =~= entries_view(out@) + merge_view(bv, iv));
    }
    while b.len() > 0 && i.len() > 0
        invariant
            0 <= nb <= bs.len(),
            0 <= ni <= is.len(),
            b@ == bs.skip(nb),
            i@ == is.skip(ni),
            bv == entries_view(bs),
            iv == entries_view(is),
            is == incoming@,
            bv.len() == bs.len(),
            iv.len() == is.len(),
            forall|j: int| 0 <= j < is.len() ==> #[trigger] iv[j] == (is[j].0@, node_view(is[j].1)),
            forall|j: int| 0 <= j < bs.len() ==> #[trigger] bv[j] == (bs[j].0@, node_view(bs[j].1)),
            merge_view(bv, iv) == entries_view(out@) + merge_view(bv.skip(nb), iv.skip(ni)),
        decreases b.len() + i.len(),
    {
        let ghost rb = bv.skip(nb);
        let ghost ri = iv.skip(ni);
        proof {
            assert(rb[0] == bv[nb]);
            assert(ri[0] == iv[ni]);
            assert(rb.drop_first() =~= bv.skip(nb + 1));
            assert(ri.drop_first() =~= iv.skip(ni + 1));
            assert(b@[0] == bs[nb]);
            assert(i@[0] == is[ni]);
        }
        let ghost before = out@;
        if str_less(b[0].0.as_str(), i[0].0.as_str()) {
            let e = b.remove(0);
            out.push(e);
            proof {
                assert(out@.drop_last() =~= before);
                assert(entries_view(out@) == entries_view(before).push(bv[nb]));
                assert(merge_view(rb, ri) == seq![rb[0]] + merge_view(rb.drop_first(), ri));
                assert(entries_view(out@) + merge_view(bv.skip(nb + 1), ri) =~= entries_view(before) + (seq![rb[0]] + merge_view(rb.drop_first(), ri)));
                assert(b@ =~= bs.skip(nb + 1));
                nb = nb + 1;
            }
        } else if str_eq(b[0].0.as_str(), i[0].0.as_str()) {
            let be = b.remove(0);
            let ie = i.remove(0);
            let ghost bn = be.1;
            let ghost inn = ie.1;
            let (key, base_node) = be;
            let (_, incoming_node) = ie;
            let node = match (base_node, incoming_node) {
                (ConfigNode::Table(bt), ConfigNode::Table(it)) => {
                    proof {
                        assert(iv[ni] == (is[ni].0@, NodeView::Table(entries_view(it.entries@))));
                        assert(decreases_to!(iv => iv[ni]));
                        assert(decreases_to!(iv[ni] => iv[ni].1));
                        assert(decreases_to!(iv[ni].1 => entries_view(it.entries@)));
                        assert(decreases_to!(iv => entries_view(it.entries@)));
                    }
                    let merged = merge_entries(bt.entries, it.entries);
                    ConfigNode::Table(ConfigTable { entries: merged })
                },
                (_, other) => other,
            };
            let ghost nv = match (node_view(bn), node_view(inn)) {
                (NodeView::Table(x), NodeView::Table(y)) => NodeView::Table(merge_view(x, y)),
                _ => node_view(inn),
            };
            proof {
                assert(node_view(node) == nv);
            }
            out.push((key, node));
            proof {
                assert(out@.drop_last() =~= before);
                assert(entries_view(out@) == entries_view(before).push((bs[nb].0@, nv)));
                assert(merge_view(rb, ri) == seq![(rb[0].0, nv)] + merge_view(rb.drop_first(), ri.drop_first()));
                assert(entries_view(out@) + merge_view(bv.skip(nb + 1), iv.skip(ni + 1)) =~= entries_view(before) + (seq![(rb[0].0, nv)] + merge_view(rb.drop_first(), ri.drop_first())));
                assert(b@ =~= bs.skip(nb + 1));
                assert(i@ =~= is.skip(ni + 1));
                nb = nb + 1;
                ni = ni + 1;
            }
        } else {
            proof {
                crate::text::lemma_seq_lt_total(bs[nb].0@, is[ni].0@);
            }
            let e = i.remove(0);
            out.push(e);
            proof {
                assert(out@.drop_last() =~= before);
                assert(entries_view(out@) == entries_view(before).push(iv[ni]));
                assert(merge_view(rb, ri) == seq![ri[0]] + merge_view(rb, ri.drop_first()));
                assert(entries_view(out@) + merge_view(rb, iv.skip(ni + 1)) =~= entries_view(before) + (seq![ri[0]] + merge_view(rb, ri.drop_first())));
                assert(i@ =~= is.skip(ni + 1));
                ni = ni + 1;
            }
        }
    }
    let ghost before = out@;
    if i.len() == 0 {
        proof {
            assert(iv.skip(ni).len() == 0);
            lemma_entries_view_concat(before, b@);
            lemma_entries_view_skip(bs, nb);
        }
        out.append(&mut b);
    } else {
        proof {
            assert(bv.skip(nb).len() == 0);
            lemma_entries_view_concat(before, i@);
            lemma_entries_view_skip(is, ni);
        }
        out.append(&mut i);
    }
    out
}

impl ConfigTable {
    /// An empty table.
    pub fn new() -> (r: Self)
        ensures
            r@ == Seq::<(Seq<char>, NodeView)>::empty(),
    {
        ConfigTable { entries: Vec::new() }
    }

    pub fn len(&self) -> (r: usize)
        ensures
            r == self@.len(),
    {
        proof {
            lemma_entries_view_index(self.entries@);
        }
        self.entries.len()
    }

    /// Overlays `incoming` on this table.
    pub fn merge(&mut self, incoming: ConfigTable)
        ensures
            final(self)@ == merge_view(old(self)@, incoming@),
    {
        let mut entries: Vec<(String, ConfigNode)> = Vec::new();
        std::mem::swap(&mut entries, &mut self.entries);
        self.entries = merge_entries(entries, incoming.entries);
    }
}

/// The configuration tree that TOML text describes, or `None` when the text
/// is not a TOML document.
pub uninterp spec fn toml_config(source: Seq<char>) -> Option<Seq<(Seq<char>, NodeView)>>;

/// The conversion half of [`parse_config_toml`]: turns a parsed
/// `toml::Table` into a configuration table node for node, iterating the
/// table's entries (`toml::map::Map::into_iter`) and recursing into nested
/// tables; a `toml::Value::Table` becomes a table, any other value a leaf.
#[verifier::external_body]
fn config_table_from_toml(table: toml::Table) -> ConfigTable {
    let mut entries = Vec::new();
    for (key, value) in table {
        let node = match value {
            toml::Value::Table(inner) => ConfigNode::Table(config_table_from_toml(inner)),
            other => ConfigNode::Leaf(other),
        };
        entries.push((key, node));
    }
    ConfigTable { entries }
}

/// Parses TOML text with `str::parse::<toml::Table>` (the `toml` crate's
/// document parser) and converts the table node for node. The contract
/// claims that the outcome is a function of the text and that the keys of
/// every table, nested ones included, come in strictly ascending order:
/// `toml::Table` is a `BTreeMap`, iterated in key order, as long as the
/// crate's `preserve_order` feature is off, which this crate does not enable.
#[verifier::external_body]
fn parse_config_toml(source: &str) -> (r: Result<ConfigTable, toml::de::Error>)
    ensures
        r matches Ok(t) ==> toml_config(source@) == Some(t@),
        r is Err <==> toml_config(source@) is None,
        r matches Ok(t) ==> tables_ascending(t@),
{
    let table: toml::Table = source.parse()?;
    Ok(config_table_from_toml(table))
}

/// Deserializes a `T` from the merged table with `T::deserialize` on the
/// table converted back to `toml::Table`. Nothing is claimed of the outcome,
/// which the type's own `Deserialize` implementation decides.
#[verifier::external_body]
fn deserialize_config<T: serde::de::DeserializeOwned>(table: ConfigTable) -> (r: Result<T, toml::de::Error>) {
    T::deserialize(config_table_into_toml(table))
}

/// `v` is an outcome of deserializing a `T` from a table whose view is
/// `table`: that is, of [`deserialize_config`] handed such a table. Which
/// outcome it is the type's own `Deserialize` implementation decides.
pub closed spec fn deserializes_to<T: serde::de::DeserializeOwned>(table: Seq<(Seq<char>, NodeView)>, v: Result<T, toml::de::Error>) -> bool {
    exists|t: ConfigTable| t@ == table && call_ensures(deserialize_config::<T>, (t,), v)
}

/// The conversion half of [`deserialize_config`]: builds a `toml::Table`
/// node for node with `toml::Table::new` and `insert`, recursing into nested
/// tables.
#[verifier::external_body]
fn config_table_into_toml(table: ConfigTable) -> toml::Table {
    let mut out = toml::Table::new();
    for (key, node) in table.entries {
        let value = match node {
            ConfigNode::Table(inner) => toml::Value::Table(config_table_into_toml(inner)),
            ConfigNode::Leaf(value) => value,
        };
        out.insert(key, value);
    }
    out
}

#[verifier::external_type_specification]
#[verifier::external_body]
#[verifier::reject_recursive_types(K)]
#[verifier::reject_recursive_types(V)]
pub struct ExTomlMap<K, V>(toml::map::Map<K, V>);

/// A resolved configuration value with the provenance of its inputs.
#[derive(Debug, Clone, PartialEq, Eq)]
pub struct ResolvedConfig<T> {
    value: T,
    revision: ConfigRevision,
    layers: Vec<ConfigLayerId>,
}

pub open spec fn layer_ids_view(l: Seq<ConfigLayerId>) -> Seq<Seq<char>> {
    l.map_values(|id: ConfigLayerId| id@)
}

impl<T> ResolvedConfig<T> {
    pub closed spec fn value_spec(&self) -> T {
        self.value
    }

    pub closed spec fn revision_spec(&self) -> ConfigRevision {
        self.revision
    }

    pub closed spec fn layers_spec(&self) -> Seq<Seq<char>> {
        layer_ids_view(self.layers@)
    }

    pub fn value(&self) -> (r: &T)
        ensures
            *r == self.value_spec(),
    {
        &self.value
    }

    pub fn revision(&self) -> (r: ConfigRevision)
        ensures
            r == self.revision_spec(),
    {
        self.revision
    }

    pub fn layers(&self) -> (r: &[ConfigLayerId])
        ensures
            layer_ids_view(r@) == self.layers_spec(),
    {
        self.layers.as_slice()
    }
}

/// Ordered configuration layers merged so far, with the fingerprint of
/// their exact inputs.
#[derive(Debug)]
pub struct ConfigLayers {
    merged: ConfigTable,
    revision_state: u64,
    layers: Vec<ConfigLayerId>,
}

/// The fingerprint after adding a layer `id` with text `source`.
pub open spec fn next_revision(state: u64, id: Seq<char>, source: Seq<char>) -> u64 {
    hash_part_spec(hash_part_spec(state, vstd::utf8::encode_utf8(id)), vstd::utf8::encode_utf8(source))
}

/// A part as it enters the fingerprint: its byte length as eight
/// little-endian bytes, then the bytes themselves.
pub open spec fn framed(bytes: Seq<u8>) -> Seq<u8> {
    le_bytes(bytes.len() as u64) + bytes
}

/// FNV-1a over two byte strings one after the other is FNV-1a over the
/// second, started from the state the first left.
pub proof fn lemma_fnv_bytes_concat(state: u64, a: Seq<u8>, b: Seq<u8>)
    ensures
        fnv_bytes(state, a + b) == fnv_bytes(fnv_bytes(state, a), b),
    decreases b.len(),
{
    if b.len() == 0 {
        assert(a + b =~= a);
    } else {
        lemma_fnv_bytes_concat(state, a, b.drop_last());
        assert((a + b).drop_last() =~= a + b.drop_last());
        assert((a + b).last() == b.last());
    }
}

/// Law: adding a layer moves the fingerprint from `state` by plain FNV-1a
/// over one byte stream: the layer identifier's UTF-8 bytes framed by their
/// length, then the layer text's UTF-8 bytes framed by theirs. So the
/// identifier, and not only the text, goes into every revision, ahead of
/// the text.
pub proof fn lemma_revision_hashes_id_then_text(state: u64, id: Seq<char>, source: Seq<char>)
    ensures
        next_revision(state, id, source) == fnv_bytes(
            state,
            framed(vstd::utf8::encode_utf8(id)) + framed(vstd::utf8::encode_utf8(source)),
        ),
{
    let a = vstd::utf8::encode_utf8(id);
    let b = vstd::utf8::encode_utf8(source);
    lemma_fnv_bytes_concat(state, le_bytes(a.len() as u64), a);
    let mid = hash_part_spec(state, a);
    lemma_fnv_bytes_concat(mid, le_bytes(b.len() as u64), b);
    lemma_fnv_bytes_concat(state, framed(a), framed(b));
}

impl ConfigLayers {
    pub closed spec fn merged_spec(&self) -> Seq<(Seq<char>, NodeView)> {
        self.merged@
    }

    pub closed spec fn revision_spec(&self) -> u64 {
        self.revision_state
    }

    pub closed spec fn layers_spec(&self) -> Seq<Seq<char>> {
        layer_ids_view(self.layers@)
    }

    /// No layers yet: an empty table and the FNV offset basis.
    pub fn new() -> (r: Self)
        ensures
            r.merged_spec() == Seq::<(Seq<char>, NodeView)>::empty(),
            tables_ascending(r.merged_spec()),
            r.revision_spec() == FNV_OFFSET_BASIS,
            r.layers_spec() == Seq::<Seq<char>>::empty(),
    {
        let r = ConfigLayers { merged: ConfigTable::new(), revision_state: FNV_OFFSET_BASIS, layers: Vec::new() };
        proof {
            assert(layer_ids_view(r.layers@) =~= Seq::<Seq<char>>::empty());
        }
        r
    }

    /// The fingerprint of the layers added so far.
    pub fn revision(&self) -> (r: ConfigRevision)
        ensures
            r.value() == self.revision_spec(),
    {
        ConfigRevision(self.revision_state)
    }

    /// The merged table so far.
    pub fn merged(&self) -> (r: &ConfigTable)
        ensures
            r@ == self.merged_spec(),
    {
        &self.merged
    }

    /// The layers added so far, in order.
    pub fn layers(&self) -> (r: &[ConfigLayerId])
        ensures
            layer_ids_view(r@) == self.layers_spec(),
    {
        self.layers.as_slice()
    }

    /// Adds a layer whose text `source` was parsed into `parsed`: a parse
    /// error is reported against the layer; a table is overlaid on what was
    /// merged so far, the layer's identifier and text are mixed into the
    /// fingerprint, and the layer is recorded.
    pub fn merge_parsed(self, id: ConfigLayerId, source: &str, parsed: Result<ConfigTable, toml::de::Error>) -> (r: Result<Self, ConfigError>)
        ensures
            parsed matches Err(e) ==> (r matches Err(ConfigError::InvalidLayer { layer, source: s }) && layer@ == id@ && s == e),
            parsed matches Ok(t) ==> (r matches Ok(n) && n.merged_spec() == merge_view(self.merged_spec(), t@)
                && n.revision_spec() == next_revision(self.revision_spec(), id@, source@)
                && n.layers_spec() == self.layers_spec().push(id@)),
            parsed matches Ok(t) && tables_ascending(self.merged_spec()) && tables_ascending(t@) ==> (r matches Ok(n)
                && tables_ascending(n.merged_spec())),
    {
        proof {
            if parsed is Ok && tables_ascending(self.merged_spec()) && tables_ascending(parsed->Ok_0@) {
                lemma_overlay_keeps_tables_ascending(self.merged_spec(), parsed->Ok_0@);
            }
        }
        match parsed {
            Err(e) => Err(ConfigError::InvalidLayer { layer: id, source: e }),
            Ok(table) => {
                let mut next = self;
                next.merged.merge(table);
                let state = hash_part(next.revision_state, id.as_str().as_bytes());
                let state = hash_part(state, source.as_bytes());
                next.revision_state = state;
                let ghost before = next.layers@;
                next.layers.push(id);
                proof {
                    assert(layer_ids_view(next.layers@) =~= layer_ids_view(before).push(id@));
                }
                Ok(next)
            },
        }
    }

    /// Parses `source` as TOML and adds it as the layer `id`.
    pub fn merge_toml(self, id: ConfigLayerId, source: &str) -> (r: Result<Self, ConfigError>)
        ensures
            toml_config(source@) is None ==> (r matches Err(ConfigError::InvalidLayer { layer, .. }) && layer@ == id@),
            toml_config(source@) matches Some(t) ==> (r matches Ok(n) && n.merged_spec() == merge_view(self.merged_spec(), t)
                && n.revision_spec() == next_revision(self.revision_spec(), id@, source@)
                && n.layers_spec() == self.layers_spec().push(id@)),
            tables_ascending(self.merged_spec()) ==> (r matches Ok(n) ==> tables_ascending(n.merged_spec())),
    {
        let parsed = parse_config_toml(source);
        self.merge_parsed(id, source, parsed)
    }

    /// Finishes with a value deserialized from the merged table: a
    /// deserialization error is reported as such, otherwise the value comes
    /// with the fingerprint and the layers.
    pub fn resolved<T>(self, value: Result<T, toml::de::Error>) -> (r: Result<ResolvedConfig<T>, ConfigError>)
        ensures
            value matches Err(e) ==> (r matches Err(ConfigError::ResolutionFailed { source }) && source == e),
            value matches Ok(v) ==> (r matches Ok(c) && c.value_spec() == v
                && c.revision_spec().value() == self.revision_spec()
                && c.layers_spec() == self.layers_spec()),
    {
        match value {
            Err(e) => Err(ConfigError::ResolutionFailed { source: e }),
            Ok(v) => Ok(ResolvedConfig { value: v, revision: ConfigRevision(self.revision_state), layers: self.layers }),
        }
    }

    /// Deserializes a `T` from the merged table: the outcome `v` of
    /// deserializing exactly the merged table decides the result, an error
    /// as `ResolutionFailed`, a value together with the fingerprint and the
    /// layers.
    pub fn resolve<T: serde::de::DeserializeOwned>(self) -> (r: Result<ResolvedConfig<T>, ConfigError>)
        ensures
            exists|v: Result<T, toml::de::Error>|
                #[trigger] deserializes_to::<T>(self.merged_spec(), v)
                && (v matches Err(e) ==> (r matches Err(ConfigError::ResolutionFailed { source }) && source == e))
                && (v matches Ok(x) ==> (r matches Ok(c) && c.value_spec() == x
                    && c.revision_spec().value() == self.revision_spec()
                    && c.layers_spec() == self.layers_spec())),
    {
        let ConfigLayers { merged, revision_state, layers } = self;
        let ghost table = merged;
        let value = deserialize_config::<T>(merged);
        proof {
            assert(call_ensures(deserialize_config::<T>, (table,), value));
            assert(deserializes_to::<T>(table@, value));
        }
        let rest = ConfigLayers { merged: ConfigTable::new(), revision_state, layers };
        let r = rest.resolved(value);
        proof {
            assert(self.merged_spec() == table@);
            assert(deserializes_to::<T>(self.merged_spec(), value));
        }
        r
    }
}

impl Default for ConfigLayers {
    fn default() -> (r: Self)
        ensures
            r.merged_spec() == Seq::<(Seq<char>, NodeView)>::empty(),
            tables_ascending(r.merged_spec()),
            r.revision_spec() == FNV_OFFSET_BASIS,
            r.layers_spec() == Seq::<Seq<char>>::empty(),
    {
        ConfigLayers::new()
    }
}

/// Keys in strictly ascending order.
pub open spec fn keys_ascending(t: Seq<(Seq<char>, NodeView)>) -> bool {
    forall|a: int, b: int| 0 <= a < b < t.len() ==> seq_lt(#[trigger] t[a].0, #[trigger] t[b].0)
}

/// Keys in strictly ascending order in the table and in every table nested
/// in it.
pub open spec fn tables_ascending(t: Seq<(Seq<char>, NodeView)>) -> bool
    decreases t,
{
    &&& keys_ascending(t)
    &&& forall|i: int| 0 <= i < t.len() ==> ((#[trigger] t[i]).1 matches NodeView::Table(u) ==> {
        proof {
            assert(decreases_to!(t => t[i]));
        }
        tables_ascending(u)
    })
}

/// The node stored under `key`, looking from the front.
pub open spec fn lookup_node(t: Seq<(Seq<char>, NodeView)>, key: Seq<char>) -> Option<NodeView>
    decreases t.len(),
{
    if t.len() == 0 {
        None
    } else if t[0].0 == key {
        Some(t[0].1)
    } else {
        lookup_node(t.drop_first(), key)
    }
}

/// What one key holds after an overlay: the incoming node if there is one,
/// two tables overlaid recursively, and otherwise the base node.
pub open spec fn overlay_node(base: Option<NodeView>, incoming: Option<NodeView>) -> Option<NodeView> {
    match incoming {
        None => base,
        Some(i) => match (base, i) {
            (Some(NodeView::Table(b)), NodeView::Table(t)) => Some(NodeView::Table(merge_view(b, t))),
            _ => Some(i),
        },
    }
}

proof fn lemma_absent_below(t: Seq<(Seq<char>, NodeView)>, key: Seq<char>)
    requires
        keys_ascending(t),
        t.len() > 0,
        seq_lt(key, t[0].0),
    ensures
        lookup_node(t, key) is None,
    decreases t.len(),
{
    crate::text::lemma_seq_lt_irreflexive(key);
    assert(t[0].0 != key);
    let u = t.drop_first();
    if u.len() == 0 {
        assert(lookup_node(u, key) is None);
    } else {
        assert(seq_lt(t[0].0, t[1].0));
        crate::text::lemma_seq_lt_transitive(key, t[0].0, t[1].0);
        assert(keys_ascending(u)) by {
            assert forall|a: int, b: int| 0 <= a < b < u.len() implies seq_lt(#[trigger] u[a].0, #[trigger] u[b].0) by {
                assert(u[a] == t[a + 1] && u[b] == t[b + 1]);
            }
        }
        assert(u[0] == t[1]);
        lemma_absent_below(u, key);
    }
}

/// Law: overlaying one layer on another gives each key the incoming node if
/// the incoming layer has the key (two tables being overlaid in turn), and
/// the base node otherwise; keys that neither layer has stay absent.
pub proof fn lemma_overlay_per_key(base: Seq<(Seq<char>, NodeView)>, incoming: Seq<(Seq<char>, NodeView)>, key: Seq<char>)
    requires
        keys_ascending(base),
        keys_ascending(incoming),
    ensures
        lookup_node(merge_view(base, incoming), key) == overlay_node(lookup_node(base, key), lookup_node(incoming, key)),
    decreases incoming, base,
{
    if incoming.len() == 0 {
    } else if base.len() == 0 {
        match lookup_node(incoming, key) {
            Some(i) => {},
            None => {},
        }
    } else {
        let b1 = base.drop_first();
        let i1 = incoming.drop_first();
        assert(keys_ascending(b1)) by {
            assert forall|a: int, b: int| 0 <= a < b < b1.len() implies seq_lt(#[trigger] b1[a].0, #[trigger] b1[b].0) by {
                assert(b1[a] == base[a + 1] && b1[b] == base[b + 1]);
            }
        }
        assert(keys_ascending(i1)) by {
            assert forall|a: int, b: int| 0 <= a < b < i1.len() implies seq_lt(#[trigger] i1[a].0, #[trigger] i1[b].0) by {
                assert(i1[a] == incoming[a + 1] && i1[b] == incoming[b + 1]);
            }
        }
        let m = merge_view(base, incoming);
        if seq_lt(base[0].0, incoming[0].0) {
            let rest = merge_view(b1, incoming);
            assert(m == seq![base[0]] + rest);
            assert(m[0] == base[0]);
            assert(m.drop_first() =~= rest);
            if key == base[0].0 {
                lemma_absent_below(incoming, key);
            } else {
                lemma_overlay_per_key(b1, incoming, key);
            }
        } else if base[0].0 == incoming[0].0 {
            let node = match (base[0].1, incoming[0].1) {
                (NodeView::Table(b), NodeView::Table(i)) => NodeView::Table(merge_view(b, i)),
                _ => incoming[0].1,
            };
            let rest = merge_view(b1, i1);
            assert(m == seq![(base[0].0, node)] + rest);
            assert(m[0] == (base[0].0, node));
            assert(m.drop_first() =~= rest);
            if key != base[0].0 {
                lemma_overlay_per_key(b1, i1, key);
            }
        } else {
            crate::text::lemma_seq_lt_total(base[0].0, incoming[0].0);
            let rest = merge_view(base, i1);
            assert(m == seq![incoming[0]] + rest);
            assert(m[0] == incoming[0]);
            assert(m.drop_first() =~= rest);
            if key == incoming[0].0 {
                lemma_absent_below(base, key);
            } else {
                lemma_overlay_per_key(base, i1, key);
            }
        }
    }
}

proof fn lemma_drop_first_ascending(t: Seq<(Seq<char>, NodeView)>)
    requires
        keys_ascending(t),
        t.len() > 0,
    ensures
        keys_ascending(t.drop_first()),
{
    let u = t.drop_first();
    assert forall|a: int, b: int| 0 <= a < b < u.len() implies seq_lt(#[trigger] u[a].0, #[trigger] u[b].0) by {
        assert(u[a] == t[a + 1] && u[b] == t[b + 1]);
    }
}

/// A key below every key of two layers is below every key of their overlay.
proof fn lemma_merge_lower_bound(base: Seq<(Seq<char>, NodeView)>, incoming: Seq<(Seq<char>, NodeView)>, low: Seq<char>)
    requires
        forall|j: int| 0 <= j < base.len() ==> seq_lt(low, #[trigger] base[j].0),
        forall|j: int| 0 <= j < incoming.len() ==> seq_lt(low, #[trigger] incoming[j].0),
    ensures
        forall|j: int| 0 <= j < merge_view(base, incoming).len() ==> seq_lt(low, #[trigger] merge_view(base, incoming)[j].0),
    decreases incoming, base,
{
    let m = merge_view(base, incoming);
    if incoming.len() == 0 || base.len() == 0 {
    } else {
        let b1 = base.drop_first();
        let i1 = incoming.drop_first();
        assert forall|j: int| 0 <= j < b1.len() implies seq_lt(low, #[trigger] b1[j].0) by {
            assert(b1[j] == base[j + 1]);
        }
        assert forall|j: int| 0 <= j < i1.len() implies seq_lt(low, #[trigger] i1[j].0) by {
            assert(i1[j] == incoming[j + 1]);
        }
        if seq_lt(base[0].0, incoming[0].0) {
            lemma_merge_lower_bound(b1, incoming, low);
            let rest = merge_view(b1, incoming);
            assert(m == seq![base[0]] + rest);
            assert forall|j: int| 0 <= j < m.len() implies seq_lt(low, #[trigger] m[j].0) by {
                if j > 0 {
                    assert(m[j] == rest[j - 1]);
                }
            }
        } else if base[0].0 == incoming[0].0 {
            lemma_merge_lower_bound(b1, i1, low);
            let rest = merge_view(b1, i1);
            assert(m[0].0 == base[0].0);
            assert forall|j: int| 0 <= j < m.len() implies seq_lt(low, #[trigger] m[j].0) by {
                if j > 0 {
                    assert(m[j] == rest[j - 1]);
                }
            }
        } else {
            lemma_merge_lower_bound(base, i1, low);
            let rest = merge_view(base, i1);
            assert(m == seq![incoming[0]] + rest);
            assert forall|j: int| 0 <= j < m.len() implies seq_lt(low, #[trigger] m[j].0) by {
                if j > 0 {
                    assert(m[j] == rest[j - 1]);
                }
            }
        }
    }
}

/// Law: overlaying two layers whose keys are ascending gives a layer whose
/// keys are ascending, so the per-key law applies to it in turn.
pub proof fn lemma_overlay_keeps_keys_ascending(base: Seq<(Seq<char>, NodeView)>, incoming: Seq<(Seq<char>, NodeView)>)
    requires
        keys_ascending(base),
        keys_ascending(incoming),
    ensures
        keys_ascending(merge_view(base, incoming)),
    decreases incoming, base,
{
    let m = merge_view(base, incoming);
    if incoming.len() == 0 || base.len() == 0 {
    } else {
        let b1 = base.drop_first();
        let i1 = incoming.drop_first();
        lemma_drop_first_ascending(base);
        lemma_drop_first_ascending(incoming);
        let (x, rest) = if seq_lt(base[0].0, incoming[0].0) {
            lemma_overlay_keeps_keys_ascending(b1, incoming);
            (base[0].0, merge_view(b1, incoming))
        } else if base[0].0 == incoming[0].0 {
            lemma_overlay_keeps_keys_ascending(b1, i1);
            (base[0].0, merge_view(b1, i1))
        } else {
            crate::text::lemma_seq_lt_total(base[0].0, incoming[0].0);
            lemma_overlay_keeps_keys_ascending(base, i1);
            (incoming[0].0, merge_view(base, i1))
        };
        assert(m[0].0 == x);
        assert(m.drop_first() =~= rest);
        if seq_lt(base[0].0, incoming[0].0) {
            assert forall|j: int| 0 <= j < incoming.len() implies seq_lt(x, #[trigger] incoming[j].0) by {
                if j > 0 {
                    crate::text::lemma_seq_lt_transitive(x, incoming[0].0, incoming[j].0);
                }
            }
            assert forall|j: int| 0 <= j < b1.len() implies seq_lt(x, #[trigger] b1[j].0) by {
                assert(b1[j] == base[j + 1]);
            }
            lemma_merge_lower_bound(b1, incoming, x);
        } else if base[0].0 == incoming[0].0 {
            assert forall|j: int| 0 <= j < i1.len() implies seq_lt(x, #[trigger] i1[j].0) by {
                assert(i1[j] == incoming[j + 1]);
            }
            assert forall|j: int| 0 <= j < b1.len() implies seq_lt(x, #[trigger] b1[j].0) by {
                assert(b1[j] == base[j + 1]);
            }
            lemma_merge_lower_bound(b1, i1, x);
        } else {
            assert forall|j: int| 0 <= j < base.len() implies seq_lt(x, #[trigger] base[j].0) by {
                if j > 0 {
                    crate::text::lemma_seq_lt_transitive(x, base[0].0, base[j].0);
                }
            }
            assert forall|j: int| 0 <= j < i1.len() implies seq_lt(x, #[trigger] i1[j].0) by {
                assert(i1[j] == incoming[j + 1]);
            }
            lemma_merge_lower_bound(base, i1, x);
        }
        assert forall|a: int, b: int| 0 <= a < b < m.len() implies seq_lt(#[trigger] m[a].0, #[trigger] m[b].0) by {
            assert(m[b] == rest[b - 1]);
            if a > 0 {
                assert(m[a] == rest[a - 1]);
            }
        }
    }
}

proof fn lemma_drop_first_tables(t: Seq<(Seq<char>, NodeView)>)
    requires
        tables_ascending(t),
        t.len() > 0,
    ensures
        tables_ascending(t.drop_first()),
{
    let u = t.drop_first();
    lemma_drop_first_ascending(t);
    assert forall|j: int| 0 <= j < u.len() implies ((#[trigger] u[j]).1 matches NodeView::Table(v) ==> tables_ascending(v)) by {
        assert(u[j] == t[j + 1]);
    }
}

/// Law: overlaying two layers whose tables, nested ones included, have
/// ascending keys gives a layer of which the same holds, so the per-key law
/// applies at every depth.
pub proof fn lemma_overlay_keeps_tables_ascending(base: Seq<(Seq<char>, NodeView)>, incoming: Seq<(Seq<char>, NodeView)>)
    requires
        tables_ascending(base),
        tables_ascending(incoming),
    ensures
        tables_ascending(merge_view(base, incoming)),
    decreases incoming, base,
{
    let m = merge_view(base, incoming);
    if incoming.len() == 0 || base.len() == 0 {
    } else {
        lemma_overlay_keeps_keys_ascending(base, incoming);
        let b1 = base.drop_first();
        let i1 = incoming.drop_first();
        lemma_drop_first_tables(base);
        lemma_drop_first_tables(incoming);
        assert(base[0] == base[0]);
        assert(incoming[0] == incoming[0]);
        if seq_lt(base[0].0, incoming[0].0) {
            lemma_overlay_keeps_tables_ascending(b1, incoming);
            let rest = merge_view(b1, incoming);
            assert(m == seq![base[0]] + rest);
            assert forall|j: int| 0 <= j < m.len() implies ((#[trigger] m[j]).1 matches NodeView::Table(v) ==> tables_ascending(v)) by {
                if j > 0 {
                    assert(m[j] == rest[j - 1]);
                }
            }
        } else if base[0].0 == incoming[0].0 {
            let node = match (base[0].1, incoming[0].1) {
                (NodeView::Table(b), NodeView::Table(i)) => NodeView::Table(merge_view(b, i)),
                _ => incoming[0].1,
            };
            match (base[0].1, incoming[0].1) {
                (NodeView::Table(b), NodeView::Table(i)) => {
                    assert(decreases_to!(incoming => incoming[0]));
                    lemma_overlay_keeps_tables_ascending(b, i);
                },
                _ => {},
            }
            lemma_overlay_keeps_tables_ascending(b1, i1);
            let rest = merge_view(b1, i1);
            assert(m == seq![(base[0].0, node)] + rest);
            assert forall|j: int| 0 <= j < m.len() implies ((#[trigger] m[j]).1 matches NodeView::Table(v) ==> tables_ascending(v)) by {
                if j > 0 {
                    assert(m[j] == rest[j - 1]);
                }
            }
        } else {
            lemma_overlay_keeps_tables_ascending(base, i1);
            let rest = merge_view(base, i1);
            assert(m == seq![incoming[0]] + rest);
            assert forall|j: int| 0 <= j < m.len() implies ((#[trigger] m[j]).1 matches NodeView::Table(v) ==> tables_ascending(v)) by {
                if j > 0 {
                    assert(m[j] == rest[j - 1]);
                }
            }
        }
    }
}

} // verus!
