//! Typed application-edge composition: application identity, explicit policy,
//! explicit host authorities and configured error presentation. Not a
//! service locator, registry, runtime container or configuration source.

use vstd::prelude::*;

use crate::error_catalog::{DefinitionView, ErrorCatalogue};
use crate::errors::{category_name, code_category, CodedError, ErrorCode};
use crate::host::{FileHost, FileReadAuthority, FileWriteAuthority};
use crate::identity::{Application, ExecutionContext};
use crate::managed_config::{
    applied, apply, bytes_view, host_read, observe, performed, plan, presence_plan, ManagedConfigApplyResult,
    ManagedConfigError, ManagedConfigTarget,
};
use crate::sensitive::{redacted_marker, Sensitive};
use crate::template::{insert_sorted, render_spec, TemplateContext, TemplateValue};

verus! {

/// Behaviour policy for one managed-configuration target: the desired
/// contents, from whatever source. It carries no authority.
#[derive(Debug, Clone, PartialEq, Eq)]
pub struct ManagedConfigPolicy {
    target: ManagedConfigTarget,
    desired: Option<Vec<u8>>,
}

impl ManagedConfigPolicy {
    pub closed spec fn target_spec(&self) -> ManagedConfigTarget {
        self.target
    }

    pub closed spec fn desired_spec(&self) -> Option<Seq<u8>> {
        bytes_view(self.desired)
    }

    pub fn new(target: ManagedConfigTarget, desired: Option<Vec<u8>>) -> (r: Self)
        ensures
            r.target_spec() == target,
            r.desired_spec() == bytes_view(desired),
    {
        ManagedConfigPolicy { target, desired }
    }

    pub fn target(&self) -> (r: &ManagedConfigTarget)
        ensures
            *r == self.target_spec(),
    {
        &self.target
    }

    pub fn desired(&self) -> (r: Option<&[u8]>)
        ensures
            match self.desired_spec() {
                Some(d) => r matches Some(b) && b@ == d,
                None => r is None,
            },
    {
        match &self.desired {
            Some(bytes) => Some(bytes.as_slice()),
            None => None,
        }
    }
}

/// The concrete composition: host, authorities and error catalogue, all
/// owned by the caller.
pub struct ManagedConfigComposition<H> {
    host: H,
    read_authority: FileReadAuthority,
    write_authority: FileWriteAuthority,
    errors: ErrorCatalogue,
}

impl<H> ManagedConfigComposition<H> {
    pub closed spec fn host_spec(&self) -> H {
        self.host
    }

    pub closed spec fn read_authority_spec(&self) -> FileReadAuthority {
        self.read_authority
    }

    pub closed spec fn write_authority_spec(&self) -> FileWriteAuthority {
        self.write_authority
    }

    pub closed spec fn errors_spec(&self) -> Map<Seq<char>, DefinitionView> {
        self.errors@
    }

    pub fn new(host: H, read_authority: FileReadAuthority, write_authority: FileWriteAuthority, errors: ErrorCatalogue) -> (r: Self)
        ensures
            r.host_spec() == host,
            r.read_authority_spec() == read_authority,
            r.write_authority_spec() == write_authority,
            r.errors_spec() == errors@,
    {
        ManagedConfigComposition { host, read_authority, write_authority, errors }
    }

    pub fn host(&self) -> (r: &H)
        ensures
            *r == self.host_spec(),
    {
        &self.host
    }

    pub fn read_authority(&self) -> (r: &FileReadAuthority)
        ensures
            *r == self.read_authority_spec(),
    {
        &self.read_authority
    }

    pub fn write_authority(&self) -> (r: &FileWriteAuthority)
        ensures
            *r == self.write_authority_spec(),
    {
        &self.write_authority
    }

    pub fn errors(&self) -> (r: &ErrorCatalogue)
        ensures
            r@ == self.errors_spec(),
    {
        &self.errors
    }
}

/// The template value that stands in for any sensitive value; the wrapped
/// value is never read.
pub fn redacted_value<T>(value: &Sensitive<T>) -> (r: TemplateValue)
    ensures
        r matches TemplateValue::String(s) && s@ == redacted_marker(),
{
    TemplateValue::String("[REDACTED]".to_owned())
}

/// Mapping-only parameters for externally visible error messages. Sensitive
/// values enter only as the redaction marker.
#[derive(Debug)]
pub struct MessageContext {
    values: TemplateContext,
}

impl MessageContext {
    pub closed spec fn entries_spec(&self) -> Seq<(String, TemplateValue)> {
        self.values.entries_spec()
    }

    pub fn new() -> (r: Self)
        ensures
            r.entries_spec() == Seq::<(String, TemplateValue)>::empty(),
    {
        MessageContext { values: TemplateContext::new() }
    }

    pub fn insert_public(&mut self, key: &str, value: TemplateValue)
        ensures
            exists|k: String| k@ == key@ && final(self).entries_spec() == insert_sorted(old(self).entries_spec(), k, value),
    {
        let k = key.to_owned();
        self.values.insert(k, value);
    }

    pub fn insert_sensitive<T>(&mut self, key: &str, value: &Sensitive<T>)
        ensures
            exists|k: String, v: TemplateValue|
                k@ == key@ && (v matches TemplateValue::String(s) && s@ == redacted_marker())
                && final(self).entries_spec() == #[trigger] insert_sorted(old(self).entries_spec(), k, v),
    {
        let k = key.to_owned();
        let v = redacted_value(value);
        let ghost kk = k;
        let ghost vv = v;
        self.values.insert(k, v);
        assert(final(self).entries_spec() == insert_sorted(old(self).entries_spec(), kk, vv));
    }

    pub fn values(&self) -> (r: &TemplateContext)
        ensures
            r.entries_spec() == self.entries_spec(),
    {
        &self.values
    }
}

/// An externally presentable error.
#[derive(Debug, Clone)]
pub struct PresentedError {
    code: ErrorCode,
    kind: String,
    message: String,
    resolution: String,
    configured: bool,
}

pub ghost struct PresentedView {
    pub code: Seq<char>,
    pub kind: Seq<char>,
    pub message: Seq<char>,
    pub resolution: Seq<char>,
    pub configured: bool,
}

impl View for PresentedError {
    type V = PresentedView;

    closed spec fn view(&self) -> PresentedView {
        PresentedView {
            code: self.code@,
            kind: self.kind@,
            message: self.message@,
            resolution: self.resolution@,
            configured: self.configured,
        }
    }
}

impl PresentedError {
    pub fn code(&self) -> (r: ErrorCode)
        ensures
            r@ == self@.code,
    {
        self.code
    }

    pub fn kind(&self) -> (r: &str)
        ensures
            r@ == self@.kind,
    {
        self.kind.as_str()
    }

    pub fn message(&self) -> (r: &str)
        ensures
            r@ == self@.message,
    {
        self.message.as_str()
    }

    pub fn resolution(&self) -> (r: &str)
        ensures
            r@ == self@.resolution,
    {
        self.resolution.as_str()
    }

    pub fn configured(&self) -> (r: bool)
        ensures
            r == self@.configured,
    {
        self.configured
    }
}

/// The generic resolution used when no configured presentation is available.
pub open spec fn fallback_resolution() -> Seq<char> {
    "Use the stable error code with diagnostic logs to identify the underlying condition."@
}

/// Presentation of an error with code `code`: the configured rendering when
/// the catalogue defines the code and every parameter resolves; otherwise a
/// fallback that exposes only the code and its category.
pub open spec fn presentation(catalogue: Map<Seq<char>, DefinitionView>, code: Seq<char>, entries: Seq<(String, TemplateValue)>) -> PresentedView {
    let kind = category_name(code_category(code));
    if catalogue.dom().contains(code) && render_spec(catalogue[code].message, entries) is Ok {
        PresentedView {
            code,
            kind,
            message: render_spec(catalogue[code].message, entries)->Ok_0,
            resolution: catalogue[code].resolution,
            configured: true,
        }
    } else {
        PresentedView {
            code,
            kind,
            message: "Error "@ + code + "."@,
            resolution: fallback_resolution(),
            configured: false,
        }
    }
}

/// Law: a presentation is configured exactly when the catalogue defines the
/// code and the definition's message renders against the parameters; a
/// configured presentation then carries the rendered message and the
/// definition's own resolution, and a fallback one the code alone and the
/// generic resolution. Its code and kind are always the error's code and
/// that code's category.
pub proof fn lemma_presentation_uses_definition(
    catalogue: Map<Seq<char>, DefinitionView>,
    code: Seq<char>,
    entries: Seq<(String, TemplateValue)>,
)
    ensures
        ({
            let p = presentation(catalogue, code, entries);
            &&& p.code == code
            &&& p.kind == category_name(code_category(code))
            &&& p.configured <==> (catalogue.dom().contains(code) && render_spec(catalogue[code].message, entries) is Ok)
            &&& p.configured ==> render_spec(catalogue[code].message, entries) == Ok::<Seq<char>, Seq<char>>(p.message)
                && p.resolution == catalogue[code].resolution
            &&& !p.configured ==> p.message == "Error "@ + code + "."@
                && p.resolution == "Use the stable error code with diagnostic logs to identify the underlying condition."@
        }),
{
}

/// Presents an error with stable code `code` through the configured
/// catalogue, falling back to the stable code alone when lookup or rendering
/// fails.
pub fn present_error_code(catalogue: &ErrorCatalogue, code: ErrorCode, context: &MessageContext) -> (r: PresentedError)
    ensures
        r@ == presentation(catalogue@, code@, context.entries_spec()),
{
    match catalogue.render(code, context.values()) {
        Ok(rendered) => PresentedError {
            code,
            kind: rendered.kind().to_owned(),
            message: rendered.message().to_owned(),
            resolution: rendered.resolution().to_owned(),
            configured: true,
        },
        Err(_) => PresentedError {
            code,
            kind: code.category().as_str().to_owned(),
            message: "Error ".to_owned().concat(code.as_str()).concat("."),
            resolution: "Use the stable error code with diagnostic logs to identify the underlying condition.".to_owned(),
            configured: false,
        },
    }
}

/// Presents `error` through the configured catalogue under the code the
/// error reports, falling back to the stable code alone when lookup or
/// rendering fails.
pub fn present_error<E: CodedError>(catalogue: &ErrorCatalogue, error: &E, context: &MessageContext) -> (r: PresentedError)
    ensures
        r@ == presentation(catalogue@, r@.code, context.entries_spec()),
        exists|c: ErrorCode| call_ensures(E::code, (error,), c) && r@ == presentation(catalogue@, c@, context.entries_spec()),
{
    let code = error.code();
    proof {
        assert(call_ensures(E::code, (error,), code));
    }
    present_error_code(catalogue, code, context)
}

/// Runs one managed-configuration reconciliation for the application:
/// observe through the read authority, plan for the policy's desired
/// contents, apply through the write authority.
pub fn execute_managed_config<H: FileHost>(application: &Application<ManagedConfigComposition<H>>, execution: &ExecutionContext, policy: &ManagedConfigPolicy) -> (r: Result<ManagedConfigApplyResult, ManagedConfigError<H::Error>>)
    ensures
        r matches Err(e) ==> e is Host,
        r matches Ok(res) ==> match policy.desired_spec() {
            None => res == ManagedConfigApplyResult::Noop || res == ManagedConfigApplyResult::Deleted,
            Some(_) => res == ManagedConfigApplyResult::Noop || res == ManagedConfigApplyResult::Created
                || res == ManagedConfigApplyResult::Replaced,
        },
        exists|read: Result<Option<Vec<u8>>, H::Error>| {
            &&& host_read(
                &application.composition_spec().host_spec(),
                &application.composition_spec().read_authority_spec(),
                policy.target_spec().path_spec(),
                read,
            )
            &&& match read {
                Err(e) => r == Err::<ManagedConfigApplyResult, ManagedConfigError<H::Error>>(ManagedConfigError::Host(e)),
                Ok(observed) => {
                    let action = presence_plan(policy.desired_spec(), bytes_view(observed));
                    &&& action is Noop ==> r == Ok::<ManagedConfigApplyResult, ManagedConfigError<H::Error>>(
                        ManagedConfigApplyResult::Noop,
                    )
                    &&& r matches Ok(res) ==> res == applied(action)
                    &&& performed(
                        &application.composition_spec().host_spec(),
                        &application.composition_spec().write_authority_spec(),
                        policy.target_spec().path_spec(),
                        action,
                        r,
                    )
                },
            }
        },
{
    let composition = application.composition();
    let observed = match observe(composition.host(), composition.read_authority(), policy.target()) {
        Ok(observed) => observed,
        Err(e) => {
            return Err(e);
        },
    };
    let desired: Option<Vec<u8>> = match &policy.desired {
        Some(bytes) => Some(bytes.clone()),
        None => None,
    };
    let planned = plan(policy.target(), &observed, &desired);
    apply(composition.host(), composition.write_authority(), policy.target(), &planned)
}

} // verus!
