//! Caller-owned configured error definitions and rendering.
//!
//! Stable code/category identity stays in [`crate::errors`]. This module owns
//! caller-supplied canonical messages, resolutions and definition-source
//! provenance. It performs no discovery or I/O and keeps no global registry.

use vstd::prelude::*;

use crate::errors::{code_category, category_name, valid_code_spec, ErrorCategory, ErrorCode};
use crate::template::{
    kind_error, parse_spec, render_spec, Template, TemplateContext, TemplateError, TemplateErrorKind, TemplatePart,
};
use crate::text::{is_blank, is_blank_spec, push_quoted, push_str, quoted_spec, str_eq, string_from_chars};

verus! {

#[verifier::external_type_specification]
#[verifier::external_body]
pub struct ExYamlError(yaml_serde::Error);

/// The code → (field → text) tables that YAML text describes, or `None` when
/// the text is not such a document (malformed YAML, a repeated key at any
/// level, or a shape other than a mapping of mappings of scalars, each scalar
/// taken as its text).
pub uninterp spec fn catalogue_yaml_tables(yaml: Seq<char>) -> Option<Seq<(Seq<char>, Seq<(Seq<char>, Seq<char>)>)>>;

pub open spec fn fields_view(f: Seq<(String, String)>) -> Seq<(Seq<char>, Seq<char>)> {
    f.map_values(|p: (String, String)| (p.0@, p.1@))
}

pub open spec fn tables_view(t: Seq<(String, Vec<(String, String)>)>) -> Seq<(Seq<char>, Seq<(Seq<char>, Seq<char>)>)> {
    t.map_values(|e: (String, Vec<(String, String)>)| (e.0@, fields_view(e.1@)))
}

/// Parses catalogue YAML with `yaml_serde`: `yaml_serde::from_str` into a
/// generic YAML value, used only for its error, which refuses malformed text
/// and a repeated key in any mapping; then `yaml_serde::from_str` into a
/// table of codes to field/text pairs, where any scalar reads as its text.
/// The contract claims that the result is a function of the text alone.
#[verifier::external_body]
fn parse_catalogue_yaml(yaml: &str) -> (r: Result<Vec<(String, Vec<(String, String)>)>, yaml_serde::Error>)
    ensures
        r matches Ok(t) ==> catalogue_yaml_tables(yaml@) == Some(tables_view(t@)),
        r is Err <==> catalogue_yaml_tables(yaml@) is None,
{
    yaml_serde::from_str::<yaml_serde::Value>(yaml)?;
    let tables: std::collections::BTreeMap<String, std::collections::BTreeMap<String, String>> =
        yaml_serde::from_str(yaml)?;
    Ok(tables.into_iter().map(|(code, fields)| (code, fields.into_iter().collect())).collect())
}

/// A configured definition: message template, resolution and the source
/// that supplied it.
#[derive(Debug, Clone, PartialEq, Eq)]
pub struct ErrorDefinition {
    message: Template,
    resolution: String,
    source: String,
}

pub ghost struct DefinitionView {
    pub message: Seq<TemplatePart>,
    pub resolution: Seq<char>,
    pub source: Seq<char>,
}

impl View for ErrorDefinition {
    type V = DefinitionView;

    closed spec fn view(&self) -> DefinitionView {
        DefinitionView { message: self.message@, resolution: self.resolution@, source: self.source@ }
    }
}

impl ErrorDefinition {
    pub fn resolution(&self) -> (r: &str)
        ensures
            r@ == self@.resolution,
    {
        self.resolution.as_str()
    }

    pub fn source(&self) -> (r: &str)
        ensures
            r@ == self@.source,
    {
        self.source.as_str()
    }

    pub fn message(&self) -> (r: &Template)
        ensures
            r@ == self@.message,
    {
        &self.message
    }
}

/// A configured error presentation.
#[derive(Debug, Clone)]
pub struct RenderedError {
    code: ErrorCode,
    message: String,
    resolution: String,
}

pub ghost struct RenderedView {
    pub code: Seq<char>,
    pub message: Seq<char>,
    pub resolution: Seq<char>,
}

impl View for RenderedError {
    type V = RenderedView;

    closed spec fn view(&self) -> RenderedView {
        RenderedView { code: self.code@, message: self.message@, resolution: self.resolution@ }
    }
}

impl RenderedError {
    pub fn code(&self) -> (r: ErrorCode)
        ensures
            r@ == self@.code,
    {
        self.code
    }

    /// The category name, derived from the code.
    pub fn kind(&self) -> (r: &'static str)
        ensures
            r@ == category_name(code_category(self@.code)),
    {
        self.code.category().as_str()
    }

    pub fn message(&self) -> (r: &str)
        ensures
            r@ == self@.message,
    {
        self.message.as_str()
    }

    pub fn resolution(&self) -> (r: &str)
        ensures
            r@ == self@.resolution,
    {
        self.resolution.as_str()
    }
}

/// What is wrong with the shape of a catalogue document.
#[derive(Debug)]
pub enum CatalogueYamlIssue {
    /// Not YAML, a repeated key, or not a mapping of mappings of text.
    Syntax(yaml_serde::Error),
    /// A definition names a field other than `message` and `resolution`.
    UnknownField { code: String, field: String },
    /// A definition lacks `message` or `resolution`.
    MissingField { code: String, field: String },
}

#[derive(Debug)]
#[allow(inconsistent_fields)]
pub enum ErrorCatalogueError {
    InvalidYaml { source_name: String, issue: CatalogueYamlIssue },
    InvalidCode { source: String, code: String },
    EmptyMessage { source: String, code: String },
    EmptyResolution { source: String, code: String },
    InvalidTemplate { source: String, code: String, error: TemplateError },
    DuplicateCode { code: String, first_source: String, second_source: String },
    MissingDefinition { code: ErrorCode },
    Render { code: ErrorCode, source: TemplateError },
}

impl ErrorCatalogueError {
    pub open spec fn message_spec(&self) -> Seq<char> {
        match self {
            ErrorCatalogueError::InvalidYaml { source_name, .. } => "invalid error catalogue YAML from "@ + source_name@,
            ErrorCatalogueError::InvalidCode { source, code } => "invalid error code "@ + quoted_spec(code@) + " in "@
                + source@,
            ErrorCatalogueError::EmptyMessage { source, code } => "empty canonical message for "@ + code@ + " in "@
                + source@,
            ErrorCatalogueError::EmptyResolution { source, code } => "empty resolution for "@ + code@ + " in "@ + source@,
            ErrorCatalogueError::InvalidTemplate { source, code, .. } => "invalid message template for "@ + code@
                + " in "@ + source@,
            ErrorCatalogueError::DuplicateCode { code, first_source, second_source } => "duplicate error code "@
                + code@ + " in "@ + first_source@ + " and "@ + second_source@,
            ErrorCatalogueError::MissingDefinition { code } => "no configured definition registered for "@ + code@,
            ErrorCatalogueError::Render { code, .. } => "configured message for "@ + code@
                + " could not be rendered"@,
        }
    }

    /// The human-readable description of the error.
    pub fn message(&self) -> (r: String)
        ensures
            r@ == self.message_spec(),
    {
        let mut out: Vec<char> = Vec::new();
        match self {
            ErrorCatalogueError::InvalidYaml { source_name, .. } => {
                push_str("invalid error catalogue YAML from ", &mut out);
                push_str(source_name.as_str(), &mut out);
            },
            ErrorCatalogueError::InvalidCode { source, code } => {
                push_str("invalid error code ", &mut out);
                push_quoted(code.as_str(), &mut out);
                push_str(" in ", &mut out);
                push_str(source.as_str(), &mut out);
            },
            ErrorCatalogueError::EmptyMessage { source, code } => {
                push_str("empty canonical message for ", &mut out);
                push_str(code.as_str(), &mut out);
                push_str(" in ", &mut out);
                push_str(source.as_str(), &mut out);
            },
            ErrorCatalogueError::EmptyResolution { source, code } => {
                push_str("empty resolution for ", &mut out);
                push_str(code.as_str(), &mut out);
                push_str(" in ", &mut out);
                push_str(source.as_str(), &mut out);
            },
            ErrorCatalogueError::InvalidTemplate { source, code, .. } => {
                push_str("invalid message template for ", &mut out);
                push_str(code.as_str(), &mut out);
                push_str(" in ", &mut out);
                push_str(source.as_str(), &mut out);
            },
            ErrorCatalogueError::DuplicateCode { code, first_source, second_source } => {
                push_str("duplicate error code ", &mut out);
                push_str(code.as_str(), &mut out);
                push_str(" in ", &mut out);
                push_str(first_source.as_str(), &mut out);
                push_str(" and ", &mut out);
                push_str(second_source.as_str(), &mut out);
            },
            ErrorCatalogueError::MissingDefinition { code } => {
                push_str("no configured definition registered for ", &mut out);
                push_str(code.as_str(), &mut out);
            },
            ErrorCatalogueError::Render { code, .. } => {
                push_str("configured message for ", &mut out);
                push_str(code.as_str(), &mut out);
                push_str(" could not be rendered", &mut out);
            },
        }
        proof {
            assert(out@ =~= self.message_spec());
        }
        string_from_chars(out.as_slice())
    }

    /// The template error underneath an invalid or unrenderable message.
    pub fn template_error(&self) -> (r: Option<&TemplateError>)
        ensures
            match self {
                ErrorCatalogueError::InvalidTemplate { error, .. } => r == Some(error),
                ErrorCatalogueError::Render { source, .. } => r == Some(source),
                _ => r is None,
            },
    {
        match self {
            ErrorCatalogueError::InvalidTemplate { error, .. } => Some(error),
            ErrorCatalogueError::Render { source, .. } => Some(source),
            _ => None,
        }
    }

    /// The YAML parser's error underneath a malformed document.
    pub fn yaml_error(&self) -> (r: Option<&yaml_serde::Error>)
        ensures
            (self matches ErrorCatalogueError::InvalidYaml { issue: CatalogueYamlIssue::Syntax(_), .. }) <==> r is Some,
    {
        match self {
            ErrorCatalogueError::InvalidYaml { issue: CatalogueYamlIssue::Syntax(e), .. } => Some(e),
            _ => None,
        }
    }
}

// ---------------------------------------------------------------------------
// The layer validation, as a specification over the parsed tables.

/// The outcome of checking one definition's fields.
pub ghost enum FieldCheck {
    Complete { message: Seq<char>, resolution: Seq<char> },
    Unknown(Seq<char>),
    Missing(Seq<char>),
}

/// The text under `name`, taking the first occurrence.
pub open spec fn field_text(f: Seq<(Seq<char>, Seq<char>)>, name: Seq<char>) -> Option<Seq<char>>
    decreases f.len(),
{
    if f.len() == 0 {
        None
    } else if f[0].0 == name {
        Some(f[0].1)
    } else {
        field_text(f.drop_first(), name)
    }
}

/// The first field that is neither `message` nor `resolution`.
pub open spec fn unknown_field(f: Seq<(Seq<char>, Seq<char>)>) -> Option<Seq<char>>
    decreases f.len(),
{
    if f.len() == 0 {
        None
    } else if f[0].0 != "message"@ && f[0].0 != "resolution"@ {
        Some(f[0].0)
    } else {
        unknown_field(f.drop_first())
    }
}

/// A definition has exactly the fields `message` and `resolution`.
pub open spec fn check_fields(f: Seq<(Seq<char>, Seq<char>)>) -> FieldCheck {
    match unknown_field(f) {
        Some(n) => FieldCheck::Unknown(n),
        None => match field_text(f, "message"@) {
            None => FieldCheck::Missing("message"@),
            Some(m) => match field_text(f, "resolution"@) {
                None => FieldCheck::Missing("resolution"@),
                Some(r) => FieldCheck::Complete { message: m, resolution: r },
            },
        },
    }
}

/// Why a layer is rejected, with the code concerned.
pub ghost enum LayerRejection {
    UnknownField { code: Seq<char>, field: Seq<char> },
    MissingField { code: Seq<char>, field: Seq<char> },
    InvalidCode { code: Seq<char> },
    EmptyMessage { code: Seq<char> },
    EmptyResolution { code: Seq<char> },
    InvalidTemplate { code: Seq<char>, error: TemplateError },
}

/// The first definition, in table order, whose fields are not exactly
/// `message` and `resolution`.
pub open spec fn shape_rejection(t: Seq<(Seq<char>, Seq<(Seq<char>, Seq<char>)>)>) -> Option<LayerRejection>
    decreases t.len(),
{
    if t.len() == 0 {
        None
    } else {
        match check_fields(t[0].1) {
            FieldCheck::Unknown(n) => Some(LayerRejection::UnknownField { code: t[0].0, field: n }),
            FieldCheck::Missing(n) => Some(LayerRejection::MissingField { code: t[0].0, field: n }),
            FieldCheck::Complete { .. } => shape_rejection(t.drop_first()),
        }
    }
}

/// A definition accepted into a layer: code, parsed message, resolution.
pub ghost struct LayerDefinition {
    pub code: Seq<char>,
    pub message: Seq<TemplatePart>,
    pub resolution: Seq<char>,
}

/// The definitions of well-shaped tables, checked in table order: the code
/// must be valid, message and resolution non-blank, and the message a valid
/// template.
pub open spec fn layer_definitions(t: Seq<(Seq<char>, Seq<(Seq<char>, Seq<char>)>)>) -> Result<Seq<LayerDefinition>, LayerRejection>
    decreases t.len(),
{
    if t.len() == 0 {
        Ok(Seq::empty())
    } else {
        let code = t[0].0;
        let (message, resolution) = match check_fields(t[0].1) {
            FieldCheck::Complete { message, resolution } => (message, resolution),
            _ => (Seq::empty(), Seq::empty()),
        };
        if !valid_code_spec(code) {
            Err(LayerRejection::InvalidCode { code })
        } else if is_blank_spec(message) {
            Err(LayerRejection::EmptyMessage { code })
        } else if is_blank_spec(resolution) {
            Err(LayerRejection::EmptyResolution { code })
        } else {
            match parse_spec(message) {
                Err(k) => Err(LayerRejection::InvalidTemplate { code, error: kind_error(k) }),
                Ok(parts) => match layer_definitions(t.drop_first()) {
                    Err(e) => Err(e),
                    Ok(rest) => Ok(seq![LayerDefinition { code, message: parts, resolution }] + rest),
                },
            }
        }
    }
}

/// Validation of a parsed layer: shape first, then each definition.
pub open spec fn layer_spec(t: Seq<(Seq<char>, Seq<(Seq<char>, Seq<char>)>)>) -> Result<Seq<LayerDefinition>, LayerRejection> {
    match shape_rejection(t) {
        Some(r) => Err(r),
        None => layer_definitions(t),
    }
}

/// Whether an error value is the given rejection for `source`.
pub open spec fn is_rejection(e: ErrorCatalogueError, source: Seq<char>, r: LayerRejection) -> bool {
    match r {
        LayerRejection::UnknownField { code, field } => e matches ErrorCatalogueError::InvalidYaml {
            source_name,
            issue: CatalogueYamlIssue::UnknownField { code: c, field: f },
        } && source_name@ == source && c@ == code && f@ == field,
        LayerRejection::MissingField { code, field } => e matches ErrorCatalogueError::InvalidYaml {
            source_name,
            issue: CatalogueYamlIssue::MissingField { code: c, field: f },
        } && source_name@ == source && c@ == code && f@ == field,
        LayerRejection::InvalidCode { code } => e matches ErrorCatalogueError::InvalidCode {
            source: s,
            code: c,
        } && s@ == source && c@ == code,
        LayerRejection::EmptyMessage { code } => e matches ErrorCatalogueError::EmptyMessage {
            source: s,
            code: c,
        } && s@ == source && c@ == code,
        LayerRejection::EmptyResolution { code } => e matches ErrorCatalogueError::EmptyResolution {
            source: s,
            code: c,
        } && s@ == source && c@ == code,
        LayerRejection::InvalidTemplate { code, error } => e matches ErrorCatalogueError::InvalidTemplate {
            source: s,
            code: c,
            error: te,
        } && s@ == source && c@ == code && te == error,
    }
}

/// The view of an accepted definition from `source`.
pub open spec fn definition_of(d: LayerDefinition, source: Seq<char>) -> DefinitionView {
    DefinitionView { message: d.message, resolution: d.resolution, source }
}

/// The map from codes to definitions of a list of entries; a later entry
/// for the same code wins.
pub open spec fn entries_map(e: Seq<(Seq<char>, DefinitionView)>) -> Map<Seq<char>, DefinitionView>
    decreases e.len(),
{
    if e.len() == 0 {
        Map::empty()
    } else {
        entries_map(e.drop_last()).insert(e.last().0, e.last().1)
    }
}

pub open spec fn entry_views(e: Seq<(String, ErrorDefinition)>) -> Seq<(Seq<char>, DefinitionView)> {
    e.map_values(|p: (String, ErrorDefinition)| (p.0@, p.1@))
}

/// The entries of an accepted layer from `source`.
pub open spec fn layer_entries(defs: Seq<LayerDefinition>, source: Seq<char>) -> Seq<(Seq<char>, DefinitionView)> {
    defs.map_values(|d: LayerDefinition| (d.code, definition_of(d, source)))
}

/// The first code of `defs`, in order, that `existing` already defines.
pub open spec fn first_duplicate(defs: Seq<LayerDefinition>, existing: Map<Seq<char>, DefinitionView>) -> Option<Seq<char>>
    decreases defs.len(),
{
    if defs.len() == 0 {
        None
    } else if existing.dom().contains(defs[0].code) {
        Some(defs[0].code)
    } else {
        first_duplicate(defs.drop_first(), existing)
    }
}

fn find_field<'a>(fields: &'a Vec<(String, String)>, name: &str) -> (r: Option<&'a String>)
    ensures
        r matches Some(t) ==> field_text(fields_view(fields@), name@) == Some(t@),
        r is None ==> field_text(fields_view(fields@), name@) is None,
{
    let ghost f = fields_view(fields@);
    let mut i: usize = 0;
    proof {
        assert(f.skip(0) =~= f);
    }
    while i < fields.len()
        invariant
            f == fields_view(fields@),
            i <= fields.len(),
            field_text(f, name@) == field_text(f.skip(i as int), name@),
        decreases fields.len() - i,
    {
        proof {
            assert(f.skip(i as int)[0] == (fields@[i as int].0@, fields@[i as int].1@));
            assert(f.skip(i as int).drop_first() =~= f.skip(i + 1));
        }
        if str_eq(fields[i].0.as_str(), name) {
            return Some(&fields[i].1);
        }
        i = i + 1;
    }
    None
}

fn find_unknown_field(fields: &Vec<(String, String)>) -> (r: Option<&String>)
    ensures
        r matches Some(t) ==> unknown_field(fields_view(fields@)) == Some(t@),
        r is None ==> unknown_field(fields_view(fields@)) is None,
{
    let ghost f = fields_view(fields@);
    let mut i: usize = 0;
    proof {
        assert(f.skip(0) =~= f);
    }
    while i < fields.len()
        invariant
            f == fields_view(fields@),
            i <= fields.len(),
            unknown_field(f) == unknown_field(f.skip(i as int)),
        decreases fields.len() - i,
    {
        proof {
            assert(f.skip(i as int)[0] == (fields@[i as int].0@, fields@[i as int].1@));
            assert(f.skip(i as int).drop_first() =~= f.skip(i + 1));
        }
        if !str_eq(fields[i].0.as_str(), "message") && !str_eq(fields[i].0.as_str(), "resolution") {
            return Some(&fields[i].0);
        }
        i = i + 1;
    }
    None
}

/// Checks one definition's fields; on success gives message and resolution.
fn check_definition_fields(fields: &Vec<(String, String)>) -> (r: Result<(String, String), CatalogueYamlIssue>)
    ensures
        match check_fields(fields_view(fields@)) {
            FieldCheck::Complete { message, resolution } => r matches Ok((m, res)) && m@ == message && res@ == resolution,
            FieldCheck::Unknown(n) => r matches Err(CatalogueYamlIssue::UnknownField { field, .. }) && field@ == n,
            FieldCheck::Missing(n) => r matches Err(CatalogueYamlIssue::MissingField { field, .. }) && field@ == n,
        },
{
    match find_unknown_field(fields) {
        Some(name) => {
            return Err(CatalogueYamlIssue::UnknownField { code: String::new(), field: name.clone() });
        },
        None => {},
    }
    let message = match find_field(fields, "message") {
        Some(m) => m.clone(),
        None => {
            return Err(CatalogueYamlIssue::MissingField { code: String::new(), field: "message".to_owned() });
        },
    };
    let resolution = match find_field(fields, "resolution") {
        Some(m) => m.clone(),
        None => {
            return Err(CatalogueYamlIssue::MissingField { code: String::new(), field: "resolution".to_owned() });
        },
    };
    Ok((message, resolution))
}

/// Validates a parsed layer from `source` into definitions; see [`layer_spec`].
fn parse_layer(source: &str, tables: &Vec<(String, Vec<(String, String)>)>) -> (r: Result<Vec<(String, ErrorDefinition)>, ErrorCatalogueError>)
    ensures
        layer_spec(tables_view(tables@)) matches Ok(defs) ==> r matches Ok(e) && entry_views(e@) == layer_entries(defs, source@),
        layer_spec(tables_view(tables@)) matches Err(rej) ==> r matches Err(err) && is_rejection(err, source@, rej),
{
    let ghost t = tables_view(tables@);
    // Shape of every definition first, keeping each message and resolution.
    let mut pairs: Vec<(String, String)> = Vec::new();
    let mut i: usize = 0;
    proof {
        assert(t.skip(0) =~= t);
    }
    while i < tables.len()
        invariant
            t == tables_view(tables@),
            i <= tables.len(),
            shape_rejection(t) == shape_rejection(t.skip(i as int)),
            pairs@.len() == i,
            forall|k: int| 0 <= k < i ==> check_fields(fields_view(tables@[k].1@)) == (FieldCheck::Complete {
                message: (#[trigger] pairs@[k]).0@,
                resolution: pairs@[k].1@,
            }),
        decreases tables.len() - i,
    {
        proof {
            assert(t.skip(i as int)[0] == (tables@[i as int].0@, fields_view(tables@[i as int].1@)));
            assert(t.skip(i as int).drop_first() =~= t.skip(i + 1));
        }
        match check_definition_fields(&tables[i].1) {
            Ok(pair) => {
                pairs.push(pair);
            },
            Err(CatalogueYamlIssue::UnknownField { field, .. }) => {
                return Err(ErrorCatalogueError::InvalidYaml {
                    source_name: source.to_owned(),
                    issue: CatalogueYamlIssue::UnknownField { code: tables[i].0.clone(), field },
                });
            },
            Err(CatalogueYamlIssue::MissingField { field, .. }) => {
                return Err(ErrorCatalogueError::InvalidYaml {
                    source_name: source.to_owned(),
                    issue: CatalogueYamlIssue::MissingField { code: tables[i].0.clone(), field },
                });
            },
            Err(CatalogueYamlIssue::Syntax(e)) => {
                return Err(ErrorCatalogueError::InvalidYaml { source_name: source.to_owned(), issue: CatalogueYamlIssue::Syntax(e) });
            },
        }
        i = i + 1;
    }
    proof {
        assert(t.skip(i as int).len() == 0);
    }
    // Then each definition's content.
    let mut parsed: Vec<(String, ErrorDefinition)> = Vec::new();
    let mut j: usize = 0;
    proof {
        assert(entry_views(parsed@) =~= Seq::<(Seq<char>, DefinitionView)>::empty());
        match layer_definitions(t) {
            Ok(defs) => {
                assert(layer_entries(defs, source@) =~= Seq::<(Seq<char>, DefinitionView)>::empty() + layer_entries(defs, source@));
            },
            Err(_) => {},
        }
    }
    while j < tables.len()
        invariant
            t == tables_view(tables@),
            j <= tables.len(),
            shape_rejection(t) is None,
            layer_definitions(t) matches Ok(defs) ==> layer_definitions(t.skip(j as int)) matches Ok(rest) && layer_entries(defs, source@) == entry_views(parsed@) + layer_entries(rest, source@),
            layer_definitions(t) matches Err(rej) ==> layer_definitions(t.skip(j as int)) == Err::<Seq<LayerDefinition>, LayerRejection>(rej),
            shape_rejection(t.skip(j as int)) is None,
            pairs@.len() == tables@.len(),
            forall|k: int| 0 <= k < tables@.len() ==> check_fields(fields_view(tables@[k].1@)) == (FieldCheck::Complete {
                message: (#[trigger] pairs@[k]).0@,
                resolution: pairs@[k].1@,
            }),
        decreases tables.len() - j,
    {
        let ghost rest_t = t.skip(j as int);
        proof {
            assert(rest_t[0] == (tables@[j as int].0@, fields_view(tables@[j as int].1@)));
            assert(rest_t.drop_first() =~= t.skip(j + 1));
        }
        let code = &tables[j].0;
        let message = pairs[j].0.clone();
        let resolution = pairs[j].1.clone();
        proof {
            assert(check_fields(fields_view(tables@[j as int].1@)) == (FieldCheck::Complete {
                message: pairs@[j as int].0@,
                resolution: pairs@[j as int].1@,
            }));
        }
        if !ErrorCode::is_valid(code.as_str()) {
            return Err(ErrorCatalogueError::InvalidCode { source: source.to_owned(), code: code.clone() });
        }
        if is_blank(message.as_str()) {
            return Err(ErrorCatalogueError::EmptyMessage { source: source.to_owned(), code: code.clone() });
        }
        if is_blank(resolution.as_str()) {
            return Err(ErrorCatalogueError::EmptyResolution { source: source.to_owned(), code: code.clone() });
        }
        let template = match Template::parse(message.as_str()) {
            Ok(template) => template,
            Err(error) => {
                return Err(ErrorCatalogueError::InvalidTemplate { source: source.to_owned(), code: code.clone(), error });
            },
        };
        let ghost d = LayerDefinition { code: code@, message: template@, resolution: resolution@ };
        let definition = ErrorDefinition { message: template, resolution, source: source.to_owned() };
        let ghost before = entry_views(parsed@);
        parsed.push((code.clone(), definition));
        proof {
            assert(entry_views(parsed@) =~= before.push((d.code, definition_of(d, source@))));
            match layer_definitions(t) {
                Ok(defs) => {
                    let rest = layer_definitions(rest_t)->Ok_0;
                    let rest2 = layer_definitions(t.skip(j + 1))->Ok_0;
                    assert(rest == seq![d] + rest2);
                    assert(layer_entries(rest, source@) =~= seq![(d.code, definition_of(d, source@))] + layer_entries(rest2, source@));
                    assert(layer_entries(defs, source@) =~= entry_views(parsed@) + layer_entries(rest2, source@));
                },
                Err(_) => {},
            }
        }
        j = j + 1;
    }
    proof {
        assert(t.skip(j as int).len() == 0);
        match layer_definitions(t) {
            Ok(defs) => {
                assert(layer_entries(Seq::<LayerDefinition>::empty(), source@) =~= Seq::<(Seq<char>, DefinitionView)>::empty());
                assert(entry_views(parsed@) + Seq::<(Seq<char>, DefinitionView)>::empty() =~= entry_views(parsed@));
            },
            Err(_) => {},
        }
    }
    Ok(parsed)
}

/// Configured definitions by code. Registration refuses to change the owner
/// of a code; an overlay replaces definitions explicitly.
#[derive(Debug)]
pub struct ErrorCatalogue {
    definitions: Vec<(String, ErrorDefinition)>,
}

impl View for ErrorCatalogue {
    type V = Map<Seq<char>, DefinitionView>;

    closed spec fn view(&self) -> Map<Seq<char>, DefinitionView> {
        entries_map(entry_views(self.definitions@))
    }
}

proof fn lemma_entries_map_push(e: Seq<(Seq<char>, DefinitionView)>, x: (Seq<char>, DefinitionView))
    ensures
        entries_map(e.push(x)) == entries_map(e).insert(x.0, x.1),
{
    assert(e.push(x).drop_last() =~= e);
}

proof fn lemma_entries_map_concat(a: Seq<(Seq<char>, DefinitionView)>, b: Seq<(Seq<char>, DefinitionView)>)
    ensures
        entries_map(a + b) == entries_map(a).union_prefer_right(entries_map(b)),
    decreases b.len(),
{
    if b.len() == 0 {
        assert(a + b =~= a);
        assert(entries_map(a).union_prefer_right(Map::empty()) =~= entries_map(a));
    } else {
        lemma_entries_map_concat(a, b.drop_last());
        assert((a + b).drop_last() =~= a + b.drop_last());
        assert((a + b).last() == b.last());
        assert(entries_map(a + b) =~= entries_map(a).union_prefer_right(entries_map(b)));
    }
}

/// The map of an accepted layer from `source`.
pub open spec fn layer_map(defs: Seq<LayerDefinition>, source: Seq<char>) -> Map<Seq<char>, DefinitionView> {
    entries_map(layer_entries(defs, source))
}

/// Result of registering parsed tables from `source` on a catalogue whose
/// definitions were `before`: `Ok(after)` or the error kind that stops it.
pub ghost enum RegisterOutcome {
    Accepted(Map<Seq<char>, DefinitionView>),
    Malformed,
    Rejected(LayerRejection),
    Duplicate(Seq<char>),
}

/// Registration: every code of the layer must be new to the catalogue.
pub open spec fn register_spec(before: Map<Seq<char>, DefinitionView>, source: Seq<char>, tables: Option<Seq<(Seq<char>, Seq<(Seq<char>, Seq<char>)>)>>) -> RegisterOutcome {
    match tables {
        None => RegisterOutcome::Malformed,
        Some(t) => match layer_spec(t) {
            Err(rej) => RegisterOutcome::Rejected(rej),
            Ok(defs) => match first_duplicate(defs, before) {
                Some(code) => RegisterOutcome::Duplicate(code),
                None => RegisterOutcome::Accepted(before.union_prefer_right(layer_map(defs, source))),
            },
        },
    }
}

/// Overlay: an accepted layer replaces whatever it names.
pub open spec fn overlay_spec(before: Map<Seq<char>, DefinitionView>, source: Seq<char>, tables: Option<Seq<(Seq<char>, Seq<(Seq<char>, Seq<char>)>)>>) -> RegisterOutcome {
    match tables {
        None => RegisterOutcome::Malformed,
        Some(t) => match layer_spec(t) {
            Err(rej) => RegisterOutcome::Rejected(rej),
            Ok(defs) => RegisterOutcome::Accepted(before.union_prefer_right(layer_map(defs, source))),
        },
    }
}

/// Whether a registration's result and final catalogue match its outcome.
pub open spec fn registered_as(outcome: RegisterOutcome, source: Seq<char>, before: Map<Seq<char>, DefinitionView>, after: Map<Seq<char>, DefinitionView>, r: Result<(), ErrorCatalogueError>) -> bool {
    match outcome {
        RegisterOutcome::Accepted(m) => r is Ok && after == m,
        RegisterOutcome::Malformed => {
            &&& after == before
            &&& r matches Err(ErrorCatalogueError::InvalidYaml {
                source_name,
                issue: CatalogueYamlIssue::Syntax(_),
            })
            &&& source_name@ == source
        },
        RegisterOutcome::Rejected(rej) => {
            &&& after == before
            &&& r matches Err(e)
            &&& is_rejection(e, source, rej)
        },
        RegisterOutcome::Duplicate(code) => {
            &&& after == before
            &&& r matches Err(ErrorCatalogueError::DuplicateCode { code: c, first_source, second_source })
            &&& c@ == code
            &&& first_source@ == before[code].source
            &&& second_source@ == source
        },
    }
}

pub open spec fn tables_of(parsed: Result<Vec<(String, Vec<(String, String)>)>, yaml_serde::Error>) -> Option<Seq<(Seq<char>, Seq<(Seq<char>, Seq<char>)>)>> {
    match parsed {
        Ok(t) => Some(tables_view(t@)),
        Err(_) => None,
    }
}

impl ErrorCatalogue {
    pub fn new() -> (r: Self)
        ensures
            r@ == Map::<Seq<char>, DefinitionView>::empty(),
    {
        let r = ErrorCatalogue { definitions: Vec::new() };
        proof {
            assert(entry_views(r.definitions@) =~= Seq::<(Seq<char>, DefinitionView)>::empty());
        }
        r
    }

    /// Position of the entry that defines `code`: the last one naming it.
    fn position(&self, code: &str) -> (r: Option<usize>)
        ensures
            r matches Some(i) ==> i < self.definitions@.len() && self@.dom().contains(code@)
                && self.definitions@[i as int].1@ == self@[code@],
            r is None ==> !self@.dom().contains(code@),
    {
        let ghost e = entry_views(self.definitions@);
        let mut i = self.definitions.len();
        proof {
            assert(e.take(i as int) =~= e);
            assert(e.skip(i as int) =~= Seq::<(Seq<char>, DefinitionView)>::empty());
            assert(entries_map(e).union_prefer_right(Map::empty()) =~= entries_map(e));
        }
        while i > 0
            invariant
                e == entry_views(self.definitions@),
                i <= self.definitions@.len(),
                entries_map(e) == entries_map(e.take(i as int)).union_prefer_right(entries_map(e.skip(i as int))),
                !entries_map(e.skip(i as int)).dom().contains(code@),
            decreases i,
        {
            let k = i - 1;
            if str_eq(self.definitions[k].0.as_str(), code) {
                proof {
                    assert(e.take(i as int) =~= e.take(k as int).push(e[k as int]));
                    lemma_entries_map_push(e.take(k as int), e[k as int]);
                }
                return Some(k);
            }
            proof {
                assert(e.take(i as int) =~= e.take(k as int) + seq![e[k as int]]);
                assert(e.skip(k as int) =~= seq![e[k as int]] + e.skip(i as int));
                lemma_entries_map_concat(e.take(k as int), seq![e[k as int]]);
                lemma_entries_map_concat(seq![e[k as int]], e.skip(i as int));
                lemma_entries_map_push(Seq::<(Seq<char>, DefinitionView)>::empty(), e[k as int]);
                assert(Seq::<(Seq<char>, DefinitionView)>::empty().push(e[k as int]) =~= seq![e[k as int]]);
                assert(e[k as int].0 == self.definitions@[k as int].0@);
                assert(entries_map(e.take(i as int)).union_prefer_right(entries_map(e.skip(i as int))) =~=
                    entries_map(e.take(k as int)).union_prefer_right(entries_map(e.skip(k as int))));
            }
            i = k;
        }
        proof {
            assert(e.take(0) =~= Seq::<(Seq<char>, DefinitionView)>::empty());
            assert(e.skip(0) =~= e);
            assert(entries_map(e.take(0)).union_prefer_right(entries_map(e.skip(0))) =~= entries_map(e));
        }
        None
    }

    /// Appends the entries of an accepted layer, later entries overriding.
    fn extend(&mut self, parsed: Vec<(String, ErrorDefinition)>)
        ensures
            final(self)@ == old(self)@.union_prefer_right(entries_map(entry_views(parsed@))),
    {
        let ghost before = self.definitions@;
        let mut parsed = parsed;
        let ghost added = parsed@;
        self.definitions.append(&mut parsed);
        proof {
            assert(entry_views(self.definitions@) =~= entry_views(before) + entry_views(added));
            lemma_entries_map_concat(entry_views(before), entry_views(added));
        }
    }

    fn first_duplicate_in(&self, parsed: &Vec<(String, ErrorDefinition)>) -> (r: Option<usize>)
        ensures
            r matches Some(i) ==> i < parsed@.len() && self@.dom().contains(parsed@[i as int].0@)
                && forall|j: int| 0 <= j < i ==> !self@.dom().contains(#[trigger] parsed@[j].0@),
            r is None ==> forall|j: int| 0 <= j < parsed@.len() ==> !self@.dom().contains(#[trigger] parsed@[j].0@),
    {
        let mut i: usize = 0;
        while i < parsed.len()
            invariant
                i <= parsed@.len(),
                forall|j: int| 0 <= j < i ==> !self@.dom().contains(#[trigger] parsed@[j].0@),
            decreases parsed.len() - i,
        {
            if self.position(parsed[i].0.as_str()).is_some() {
                return Some(i);
            }
            i = i + 1;
        }
        None
    }

    /// Registers an already-parsed owner-local layer; see [`register_spec`].
    pub fn register_parsed(&mut self, source: &str, parsed: Result<Vec<(String, Vec<(String, String)>)>, yaml_serde::Error>) -> (r: Result<(), ErrorCatalogueError>)
        ensures
            registered_as(register_spec(old(self)@, source@, tables_of(parsed)), source@, old(self)@, final(self)@, r),
    {
        let tables = match parsed {
            Ok(t) => t,
            Err(e) => {
                return Err(ErrorCatalogueError::InvalidYaml { source_name: source.to_owned(), issue: CatalogueYamlIssue::Syntax(e) });
            },
        };
        let layer = parse_layer(source, &tables)?;
        match self.first_duplicate_in(&layer) {
            Some(i) => {
                let existing = self.position(layer[i].0.as_str());
                let first_source = match existing {
                    Some(k) => self.definitions[k].1.source.clone(),
                    None => String::new(),
                };
                proof {
                    let defs = layer_spec(tables_view(tables@))->Ok_0;
                    lemma_first_duplicate(defs, source@, self@, i as int, layer@);
                }
                return Err(ErrorCatalogueError::DuplicateCode {
                    code: layer[i].0.clone(),
                    first_source,
                    second_source: source.to_owned(),
                });
            },
            None => {
                proof {
                    let defs = layer_spec(tables_view(tables@))->Ok_0;
                    lemma_no_duplicate(defs, source@, self@, layer@);
                }
            },
        }
        self.extend(layer);
        Ok(())
    }

    /// Overlays an already-parsed layer; see [`overlay_spec`].
    pub fn overlay_parsed(&mut self, source: &str, parsed: Result<Vec<(String, Vec<(String, String)>)>, yaml_serde::Error>) -> (r: Result<(), ErrorCatalogueError>)
        ensures
            registered_as(overlay_spec(old(self)@, source@, tables_of(parsed)), source@, old(self)@, final(self)@, r),
    {
        let tables = match parsed {
            Ok(t) => t,
            Err(e) => {
                return Err(ErrorCatalogueError::InvalidYaml { source_name: source.to_owned(), issue: CatalogueYamlIssue::Syntax(e) });
            },
        };
        let layer = parse_layer(source, &tables)?;
        self.extend(layer);
        Ok(())
    }

    /// Registers one owner-local catalogue layer. A code that another layer
    /// already defines is rejected rather than silently changing ownership.
    pub fn register_yaml(&mut self, source: &str, yaml: &str) -> (r: Result<(), ErrorCatalogueError>)
        ensures
            registered_as(register_spec(old(self)@, source@, catalogue_yaml_tables(yaml@)), source@, old(self)@, final(self)@, r),
    {
        let parsed = parse_catalogue_yaml(yaml);
        self.register_parsed(source, parsed)
    }

    /// Explicitly overlays a complete definition layer.
    pub fn overlay_yaml(&mut self, source: &str, yaml: &str) -> (r: Result<(), ErrorCatalogueError>)
        ensures
            registered_as(overlay_spec(old(self)@, source@, catalogue_yaml_tables(yaml@)), source@, old(self)@, final(self)@, r),
    {
        let parsed = parse_catalogue_yaml(yaml);
        self.overlay_parsed(source, parsed)
    }

    pub fn definition(&self, code: ErrorCode) -> (r: Option<&ErrorDefinition>)
        ensures
            r matches Some(d) ==> self@.dom().contains(code@) && d@ == self@[code@],
            r is None ==> !self@.dom().contains(code@),
    {
        match self.position(code.as_str()) {
            Some(k) => Some(&self.definitions[k].1),
            None => None,
        }
    }

    /// Renders the configured message for `code` with `message_params`.
    pub fn render(&self, code: ErrorCode, message_params: &TemplateContext) -> (r: Result<RenderedError, ErrorCatalogueError>)
        ensures
            !self@.dom().contains(code@) ==> (r matches Err(ErrorCatalogueError::MissingDefinition { code: c }) && c@ == code@),
            self@.dom().contains(code@) ==> match render_spec(self@[code@].message, message_params.entries_spec()) {
                Ok(t) => r matches Ok(re) && re@ == (RenderedView { code: code@, message: t, resolution: self@[code@].resolution }),
                Err(p) => r matches Err(ErrorCatalogueError::Render { code: c, source: TemplateError::MissingValue(q) }) && c@ == code@ && q@ == p,
            },
    {
        let definition = match self.definition(code) {
            Some(d) => d,
            None => {
                return Err(ErrorCatalogueError::MissingDefinition { code });
            },
        };
        match definition.message.render(message_params) {
            Ok(message) => Ok(RenderedError { code, message, resolution: definition.resolution.clone() }),
            Err(source) => Err(ErrorCatalogueError::Render { code, source }),
        }
    }
}

proof fn lemma_first_duplicate(defs: Seq<LayerDefinition>, source: Seq<char>, existing: Map<Seq<char>, DefinitionView>, i: int, layer: Seq<(String, ErrorDefinition)>)
    requires
        entry_views(layer) == layer_entries(defs, source),
        0 <= i < layer.len(),
        existing.dom().contains(layer[i].0@),
        forall|j: int| 0 <= j < i ==> !existing.dom().contains(#[trigger] layer[j].0@),
    ensures
        first_duplicate(defs, existing) == Some(layer[i].0@),
    decreases i,
{
    assert(entry_views(layer).len() == layer.len());
    assert(layer_entries(defs, source).len() == defs.len());
    assert(defs.len() == layer.len());
    assert(defs[0].code == layer[0].0@) by {
        assert(entry_views(layer)[0] == layer_entries(defs, source)[0]);
    }
    if i > 0 {
        assert forall|j: int| 0 <= j < layer.len() - 1 implies #[trigger] entry_views(layer.drop_first())[j]
            == layer_entries(defs.drop_first(), source)[j] by {
            assert(entry_views(layer.drop_first())[j] == entry_views(layer)[j + 1]);
            assert(layer_entries(defs.drop_first(), source)[j] == layer_entries(defs, source)[j + 1]);
        }
        assert(entry_views(layer.drop_first()) =~= layer_entries(defs.drop_first(), source));
        assert(!existing.dom().contains(layer[0].0@));
        assert forall|j: int| 0 <= j < i - 1 implies !existing.dom().contains(#[trigger] layer.drop_first()[j].0@) by {
            assert(layer.drop_first()[j] == layer[j + 1]);
        }
        lemma_first_duplicate(defs.drop_first(), source, existing, i - 1, layer.drop_first());
    }
}

proof fn lemma_no_duplicate(defs: Seq<LayerDefinition>, source: Seq<char>, existing: Map<Seq<char>, DefinitionView>, layer: Seq<(String, ErrorDefinition)>)
    requires
        entry_views(layer) == layer_entries(defs, source),
        forall|j: int| 0 <= j < layer.len() ==> !existing.dom().contains(#[trigger] layer[j].0@),
    ensures
        first_duplicate(defs, existing) is None,
    decreases defs.len(),
{
    assert(entry_views(layer).len() == layer.len());
    assert(layer_entries(defs, source).len() == defs.len());
    assert(defs.len() == layer.len());
    if defs.len() > 0 {
        assert(defs[0].code == layer[0].0@) by {
            assert(entry_views(layer)[0] == layer_entries(defs, source)[0]);
        }
        assert forall|j: int| 0 <= j < layer.len() - 1 implies #[trigger] entry_views(layer.drop_first())[j]
            == layer_entries(defs.drop_first(), source)[j] by {
            assert(entry_views(layer.drop_first())[j] == entry_views(layer)[j + 1]);
            assert(layer_entries(defs.drop_first(), source)[j] == layer_entries(defs, source)[j + 1]);
        }
        assert(entry_views(layer.drop_first()) =~= layer_entries(defs.drop_first(), source));
        assert forall|j: int| 0 <= j < layer.drop_first().len() implies !existing.dom().contains(#[trigger] layer.drop_first()[j].0@) by {
            assert(layer.drop_first()[j] == layer[j + 1]);
        }
        lemma_no_duplicate(defs.drop_first(), source, existing, layer.drop_first());
    }
}

proof fn lemma_no_duplicate_disjoint(defs: Seq<LayerDefinition>, existing: Map<Seq<char>, DefinitionView>)
    requires
        first_duplicate(defs, existing) is None,
    ensures
        forall|i: int| 0 <= i < defs.len() ==> !existing.dom().contains(#[trigger] defs[i].code),
    decreases defs.len(),
{
    if defs.len() > 0 {
        lemma_no_duplicate_disjoint(defs.drop_first(), existing);
        assert forall|i: int| 0 <= i < defs.len() implies !existing.dom().contains(#[trigger] defs[i].code) by {
            if i > 0 {
                assert(defs[i] == defs.drop_first()[i - 1]);
            }
        }
    }
}

proof fn lemma_entries_map_from_entry(e: Seq<(Seq<char>, DefinitionView)>, k: Seq<char>)
    requires
        entries_map(e).dom().contains(k),
    ensures
        exists|i: int| 0 <= i < e.len() && (#[trigger] e[i]).0 == k && entries_map(e)[k] == e[i].1,
    decreases e.len(),
{
    if e.last().0 != k {
        lemma_entries_map_from_entry(e.drop_last(), k);
        let i = choose|i: int| 0 <= i < e.drop_last().len() && (#[trigger] e.drop_last()[i]).0 == k
            && entries_map(e.drop_last())[k] == e.drop_last()[i].1;
        assert(e[i] == e.drop_last()[i]);
    } else {
        assert(e[e.len() - 1].0 == k);
    }
}

/// Whether one table entry `(code, fields)` is acceptable on its own: exactly
/// the fields `message` and `resolution`, a valid code, a non-blank message
/// and resolution, and a message that parses as a template.
pub open spec fn accepted_entry(entry: (Seq<char>, Seq<(Seq<char>, Seq<char>)>)) -> bool {
    &&& check_fields(entry.1) matches FieldCheck::Complete { message, resolution }
    &&& valid_code_spec(entry.0)
    &&& !is_blank_spec(message)
    &&& !is_blank_spec(resolution)
    &&& parse_spec(message) is Ok
}

/// Whether `d` is the definition that the table entry `(code, fields)`
/// describes: its code, its parsed message and its resolution.
pub open spec fn describes(entry: (Seq<char>, Seq<(Seq<char>, Seq<char>)>), d: LayerDefinition) -> bool {
    &&& check_fields(entry.1) matches FieldCheck::Complete { message, resolution }
    &&& d.code == entry.0
    &&& d.resolution == resolution
    &&& parse_spec(message) == Ok::<Seq<TemplatePart>, TemplateErrorKind>(d.message)
}

proof fn lemma_shape_each(t: Seq<(Seq<char>, Seq<(Seq<char>, Seq<char>)>)>)
    ensures
        shape_rejection(t) is None <==> forall|i: int| 0 <= i < t.len() ==> (check_fields(#[trigger] t[i].1) is Complete),
    decreases t.len(),
{
    if t.len() > 0 {
        lemma_shape_each(t.drop_first());
        if shape_rejection(t) is None {
            assert forall|i: int| 0 <= i < t.len() implies (check_fields(#[trigger] t[i].1) is Complete) by {
                if i > 0 {
                    assert(t[i] == t.drop_first()[i - 1]);
                }
            }
        } else if check_fields(t[0].1) is Complete {
            assert(!(forall|i: int| 0 <= i < t.drop_first().len() ==> (check_fields(#[trigger] t.drop_first()[i].1) is Complete)));
            let j = choose|j: int| 0 <= j < t.drop_first().len() && !(check_fields(#[trigger] t.drop_first()[j].1) is Complete);
            assert(t.drop_first()[j] == t[j + 1]);
        }
    }
}

proof fn lemma_definitions_each(t: Seq<(Seq<char>, Seq<(Seq<char>, Seq<char>)>)>)
    requires
        forall|i: int| 0 <= i < t.len() ==> (check_fields(#[trigger] t[i].1) is Complete),
    ensures
        layer_definitions(t) is Ok <==> forall|i: int| 0 <= i < t.len() ==> accepted_entry(#[trigger] t[i]),
        layer_definitions(t) matches Ok(defs) ==> defs.len() == t.len()
            && forall|i: int| 0 <= i < t.len() ==> describes(#[trigger] t[i], defs[i]),
    decreases t.len(),
{
    if t.len() > 0 {
        let rest = t.drop_first();
        assert forall|i: int| 0 <= i < rest.len() implies (check_fields(#[trigger] rest[i].1) is Complete) by {
            assert(rest[i] == t[i + 1]);
        }
        lemma_definitions_each(rest);
        assert(check_fields(t[0].1) is Complete);
        if layer_definitions(t) is Ok {
            let defs = layer_definitions(t)->Ok_0;
            let tail = layer_definitions(rest)->Ok_0;
            assert(accepted_entry(t[0]));
            assert forall|i: int| 0 <= i < t.len() implies accepted_entry(#[trigger] t[i]) by {
                if i > 0 {
                    assert(t[i] == rest[i - 1]);
                }
            }
            assert forall|i: int| 0 <= i < t.len() implies describes(#[trigger] t[i], defs[i]) by {
                if i > 0 {
                    assert(t[i] == rest[i - 1]);
                    assert(defs[i] == tail[i - 1]);
                }
            }
        } else if accepted_entry(t[0]) {
            assert(layer_definitions(rest) is Err);
            let j = choose|j: int| 0 <= j < rest.len() && !accepted_entry(#[trigger] rest[j]);
            assert(rest[j] == t[j + 1]);
        }
    }
}

/// Law: a layer is accepted exactly when every one of its entries is
/// acceptable on its own, whatever its position; and an accepted layer
/// yields one definition per entry, in table order, each the code, parsed
/// message and resolution that its entry gives.
pub proof fn lemma_layer_takes_every_entry(t: Seq<(Seq<char>, Seq<(Seq<char>, Seq<char>)>)>)
    ensures
        layer_spec(t) is Ok <==> forall|i: int| 0 <= i < t.len() ==> accepted_entry(#[trigger] t[i]),
        layer_spec(t) matches Ok(defs) ==> defs.len() == t.len()
            && forall|i: int| 0 <= i < t.len() ==> describes(#[trigger] t[i], defs[i]),
{
    lemma_shape_each(t);
    if shape_rejection(t) is None {
        lemma_definitions_each(t);
    } else {
        let j = choose|j: int| 0 <= j < t.len() && !(check_fields(#[trigger] t[j].1) is Complete);
        assert(!accepted_entry(t[j]));
    }
}

proof fn lemma_entries_map_last(e: Seq<(Seq<char>, DefinitionView)>, i: int)
    requires
        0 <= i < e.len(),
        forall|j: int| i < j < e.len() ==> (#[trigger] e[j]).0 != e[i].0,
    ensures
        entries_map(e).dom().contains(e[i].0),
        entries_map(e)[e[i].0] == e[i].1,
    decreases e.len(),
{
    if i < e.len() - 1 {
        let d = e.drop_last();
        assert(d[i] == e[i]);
        assert forall|j: int| i < j < d.len() implies (#[trigger] d[j]).0 != d[i].0 by {
            assert(d[j] == e[j]);
        }
        lemma_entries_map_last(d, i);
        assert(e.last() == e[e.len() - 1]);
    }
}

/// Law: after a registration or overlay of the tables `t` from `source` is
/// accepted, every code that an entry of the layer names is defined, by
/// that entry (the last entry naming the code) with its parsed message, its
/// resolution and `source`, whatever the entry's position in the layer.
pub proof fn lemma_accepted_layer_defines_each_code(
    before: Map<Seq<char>, DefinitionView>,
    source: Seq<char>,
    t: Seq<(Seq<char>, Seq<(Seq<char>, Seq<char>)>)>,
    overlay: bool,
    after: Map<Seq<char>, DefinitionView>,
    r: Result<(), ErrorCatalogueError>,
    i: int,
)
    requires
        registered_as(
            if overlay { overlay_spec(before, source, Some(t)) } else { register_spec(before, source, Some(t)) },
            source,
            before,
            after,
            r,
        ),
        r is Ok,
        0 <= i < t.len(),
        forall|j: int| i < j < t.len() ==> (#[trigger] t[j]).0 != t[i].0,
    ensures
        after.dom().contains(t[i].0),
        after[t[i].0].source == source,
        check_fields(t[i].1) matches FieldCheck::Complete { message, resolution }
            && after[t[i].0].resolution == resolution
            && parse_spec(message) == Ok::<Seq<TemplatePart>, TemplateErrorKind>(after[t[i].0].message),
{
    lemma_layer_takes_every_entry(t);
    let defs = layer_spec(t)->Ok_0;
    let e = layer_entries(defs, source);
    assert(describes(t[i], defs[i]));
    assert(e[i] == (defs[i].code, definition_of(defs[i], source)));
    assert forall|j: int| i < j < e.len() implies (#[trigger] e[j]).0 != e[i].0 by {
        assert(describes(t[j], defs[j]));
        assert(e[j].0 == defs[j].code);
    }
    lemma_entries_map_last(e, i);
}

/// Law: a refused registration or overlay leaves the catalogue unchanged.
pub proof fn lemma_refused_layer_changes_nothing(
    outcome: RegisterOutcome,
    source: Seq<char>,
    before: Map<Seq<char>, DefinitionView>,
    after: Map<Seq<char>, DefinitionView>,
    r: Result<(), ErrorCatalogueError>,
)
    requires
        registered_as(outcome, source, before, after, r),
        r is Err,
    ensures
        after == before,
{
}

/// Law: after an accepted overlay, every code the layer names reads back as
/// the layer's complete definition from this source, and every other code
/// keeps the definition it had.
pub proof fn lemma_overlay_reads_back(
    before: Map<Seq<char>, DefinitionView>,
    source: Seq<char>,
    tables: Option<Seq<(Seq<char>, Seq<(Seq<char>, Seq<char>)>)>>,
    after: Map<Seq<char>, DefinitionView>,
    r: Result<(), ErrorCatalogueError>,
    code: Seq<char>,
)
    requires
        registered_as(overlay_spec(before, source, tables), source, before, after, r),
        r is Ok,
    ensures
        tables matches Some(t) && layer_spec(t) matches Ok(defs) && {
            let layer = layer_map(defs, source);
            &&& layer.dom().contains(code) ==> after.dom().contains(code) && after[code] == layer[code]
                && after[code].source == source
            &&& !layer.dom().contains(code) ==> (after.dom().contains(code) <==> before.dom().contains(code))
                && (before.dom().contains(code) ==> after[code] == before[code])
        },
{
    let t = tables->Some_0;
    let defs = layer_spec(t)->Ok_0;
    let layer = layer_map(defs, source);
    if layer.dom().contains(code) {
        lemma_entries_map_from_entry(layer_entries(defs, source), code);
        let e = layer_entries(defs, source);
        let i = choose|i: int| 0 <= i < e.len() && (#[trigger] e[i]).0 == code && entries_map(e)[code] == e[i].1;
        assert(e[i].1 == definition_of(defs[i], source));
    }
}

/// Law: an accepted registration adds the layer's definitions and never
/// changes the definition of a code the catalogue already had.
pub proof fn lemma_register_keeps_existing(
    before: Map<Seq<char>, DefinitionView>,
    source: Seq<char>,
    tables: Option<Seq<(Seq<char>, Seq<(Seq<char>, Seq<char>)>)>>,
    after: Map<Seq<char>, DefinitionView>,
    r: Result<(), ErrorCatalogueError>,
    code: Seq<char>,
)
    requires
        registered_as(register_spec(before, source, tables), source, before, after, r),
        r is Ok,
    ensures
        before.dom().contains(code) ==> after.dom().contains(code) && after[code] == before[code],
        tables matches Some(t) && layer_spec(t) matches Ok(defs) && (layer_map(defs, source).dom().contains(code)
            ==> after.dom().contains(code) && after[code] == layer_map(defs, source)[code]),
{
    let t = tables->Some_0;
    let defs = layer_spec(t)->Ok_0;
    let layer = layer_map(defs, source);
    lemma_no_duplicate_disjoint(defs, before);
    if layer.dom().contains(code) {
        lemma_entries_map_from_entry(layer_entries(defs, source), code);
        let i = choose|i: int| 0 <= i < layer_entries(defs, source).len() && (#[trigger] layer_entries(defs, source)[i]).0 == code
            && entries_map(layer_entries(defs, source))[code] == layer_entries(defs, source)[i].1;
        assert(layer_entries(defs, source)[i].0 == defs[i].code);
    }
}

} // verus!
