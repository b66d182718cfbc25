//! Explicit sensitive-value handling with deterministic redaction and no I/O.

use vstd::prelude::*;

use crate::errors::{CodedError, ErrorCode};
use crate::text::{chars_of, is_blank, is_blank_spec, string_from_chars};

verus! {

/// The text that stands in for a sensitive value.
pub open spec fn redacted_marker() -> Seq<char> {
    "[REDACTED]"@
}

/// A value that is only reachable through an explicit `expose`.
#[derive(Clone, PartialEq, Eq)]
pub struct Sensitive<T>(T);

impl<T> Sensitive<T> {
    pub closed spec fn inner(&self) -> T {
        self.0
    }

    pub fn new(value: T) -> (r: Self)
        ensures
            r.inner() == value,
    {
        Sensitive(value)
    }

    pub fn expose(&self) -> (r: &T)
        ensures
            *r == self.inner(),
    {
        &self.0
    }

    pub fn into_inner(self) -> (r: T)
        ensures
            r == self.inner(),
    {
        self.0
    }

    /// The debugging form, which never shows the wrapped value.
    pub fn debug_text(&self) -> (r: String)
        ensures
            r@ == "Sensitive("@ + redacted_marker() + ")"@,
    {
        "Sensitive(".to_owned().concat("[REDACTED]").concat(")")
    }
}

#[derive(Debug, PartialEq, Eq, PartialOrd, Ord, Hash)]
pub struct SensitiveKey(String);

impl View for SensitiveKey {
    type V = Seq<char>;

    closed spec fn view(&self) -> Seq<char> {
        self.0@
    }
}

impl Clone for SensitiveKey {
    fn clone(&self) -> (r: Self)
        ensures
            r@ == self@,
    {
        proof {
            use_type_invariant(self);
        }
        SensitiveKey(self.0.clone())
    }
}

impl SensitiveKey {
    #[verifier::type_invariant]
    spec fn not_blank(self) -> bool {
        !is_blank_spec(self.0@)
    }

    pub fn new(value: &str) -> (r: Result<Self, SensitiveError>)
        ensures
            is_blank_spec(value@) <==> r is Err,
            r matches Ok(k) ==> k@ == value@,
    {
        if is_blank(value) {
            return Err(SensitiveError::EmptyKey);
        }
        Ok(SensitiveKey(value.to_owned()))
    }

    pub fn as_str(&self) -> (r: &str)
        ensures
            r@ == self@,
            !is_blank_spec(r@),
    {
        proof {
            use_type_invariant(self);
        }
        self.0.as_str()
    }
}

#[derive(Debug, Clone, PartialEq, Eq)]
pub enum SensitiveError {
    EmptyKey,
}

impl SensitiveError {
    pub fn message(&self) -> (r: String)
        ensures
            r@ == "sensitive key must not be empty"@,
    {
        "sensitive key must not be empty".to_owned()
    }
}

impl SensitiveError {
    /// The stable code of this error.
    pub open spec fn code_spec(&self) -> Seq<char> {
        "VAL-SENSITIVE-001"@
    }
}

impl CodedError for SensitiveError {
    fn code(&self) -> (r: ErrorCode)
        ensures
            r@ == self.code_spec(),
    {
        proof {
            reveal_strlit("VAL-SENSITIVE-001");
            reveal_with_fuel(crate::errors::segments_ok, 12);
            crate::errors::lemma_valid_code("VAL-SENSITIVE-001"@);
        }
        ErrorCode::new("VAL-SENSITIVE-001")
    }
}

/// Replaces every non-overlapping occurrence of the non-empty `pat` in `t`,
/// scanning from the left, by `rep` (the semantics of `str::replace`).
pub open spec fn replace_all(t: Seq<char>, pat: Seq<char>, rep: Seq<char>) -> Seq<char>
    decreases t.len(),
{
    if pat.len() == 0 || t.len() < pat.len() {
        t
    } else if t.take(pat.len() as int) == pat {
        rep + replace_all(t.skip(pat.len() as int), pat, rep)
    } else {
        seq![t[0]] + replace_all(t.drop_first(), pat, rep)
    }
}

/// Redaction of `t` by each value in turn; empty values are skipped.
pub open spec fn redact_spec(t: Seq<char>, values: Seq<Seq<char>>) -> Seq<char>
    decreases values.len(),
{
    if values.len() == 0 {
        t
    } else {
        let before = redact_spec(t, values.drop_last());
        if values.last().len() == 0 {
            before
        } else {
            replace_all(before, values.last(), redacted_marker())
        }
    }
}

fn matches_at(t: &Vec<char>, i: usize, pat: &Vec<char>) -> (r: bool)
    requires
        i + pat.len() <= t.len(),
    ensures
        r == (t@.skip(i as int).take(pat.len() as int) == pat@),
{
    let mut k: usize = 0;
    while k < pat.len()
        invariant
            i + pat.len() <= t.len(),
            k <= pat.len(),
            forall|j: int| 0 <= j < k ==> t@[i + j] == pat@[j],
        decreases pat.len() - k,
    {
        if t[i + k] != pat[k] {
            assert(t@.skip(i as int).take(pat.len() as int)[k as int] != pat@[k as int]);
            return false;
        }
        k = k + 1;
    }
    assert(t@.skip(i as int).take(pat.len() as int) =~= pat@);
    true
}

/// Replaces every occurrence of the non-empty `pat` in `t` by `rep`.
fn replace_chars(t: &Vec<char>, pat: &Vec<char>, rep: &Vec<char>) -> (r: Vec<char>)
    requires
        pat.len() > 0,
    ensures
        r@ == replace_all(t@, pat@, rep@),
{
    let mut out: Vec<char> = Vec::new();
    let mut i: usize = 0;
    proof {
        assert(t@.skip(0) =~= t@);
    }
    while i < t.len()
        invariant
            pat.len() > 0,
            i <= t.len(),
            replace_all(t@, pat@, rep@) == out@ + replace_all(t@.skip(i as int), pat@, rep@),
        decreases t.len() - i,
    {
        let ghost rest = t@.skip(i as int);
        if t.len() - i < pat.len() {
            proof {
                assert(replace_all(rest, pat@, rep@) == rest);
            }
            let mut k = i;
            while k < t.len()
                invariant
                    i <= k <= t.len(),
                    replace_all(t@, pat@, rep@) == out@ + t@.skip(k as int),
                decreases t.len() - k,
            {
                out.push(t[k]);
                proof {
                    assert(t@.skip(k as int) =~= seq![t@[k as int]] + t@.skip(k + 1));
                }
                k = k + 1;
            }
            proof {
                assert(t@.skip(t.len() as int) =~= Seq::<char>::empty());
                assert(out@ + Seq::<char>::empty() =~= out@);
            }
            return out;
        }
        if matches_at(t, i, pat) {
            let mut k: usize = 0;
            let ghost before = out@;
            while k < rep.len()
                invariant
                    k <= rep.len(),
                    out@ == before + rep@.take(k as int),
                decreases rep.len() - k,
            {
                out.push(rep[k]);
                proof {
                    assert(before + rep@.take(k + 1) =~= (before + rep@.take(k as int)).push(rep@[k as int]));
                }
                k = k + 1;
            }
            proof {
                assert(rep@.take(rep.len() as int) =~= rep@);
                assert(rest.take(pat.len() as int) == pat@);
                assert(rest.skip(pat.len() as int) =~= t@.skip(i + pat.len()));
                assert(before + (rep@ + replace_all(t@.skip(i + pat.len()), pat@, rep@)) =~= out@ + replace_all(t@.skip(i + pat.len()), pat@, rep@));
            }
            i = i + pat.len();
        } else {
            let ghost before = out@;
            out.push(t[i]);
            proof {
                assert(rest[0] == t@[i as int]);
                assert(rest.drop_first() =~= t@.skip(i + 1));
                assert(before + (seq![t@[i as int]] + replace_all(t@.skip(i + 1), pat@, rep@)) =~= out@ + replace_all(t@.skip(i + 1), pat@, rep@));
            }
            i = i + 1;
        }
    }
    proof {
        assert(t@.skip(i as int) =~= Seq::<char>::empty());
        assert(out@ + Seq::<char>::empty() =~= out@);
    }
    out
}

/// The views of the sensitive strings, in order.
pub open spec fn exposed_views(values: Seq<Sensitive<String>>) -> Seq<Seq<char>> {
    values.map_values(|v: Sensitive<String>| v.inner()@)
}

/// Replaces each occurrence of each non-empty sensitive value by `[REDACTED]`.
pub fn redact_text(text: String, values: &[Sensitive<String>]) -> (r: String)
    ensures
        r@ == redact_spec(text@, exposed_views(values@)),
{
    let marker = chars_of("[REDACTED]");
    let mut current = chars_of(text.as_str());
    let mut i: usize = 0;
    while i < values.len()
        invariant
            i <= values.len(),
            marker@ == redacted_marker(),
            current@ == redact_spec(text@, exposed_views(values@.take(i as int))),
        decreases values.len() - i,
    {
        let pat = chars_of(values[i].expose().as_str());
        proof {
            assert(exposed_views(values@.take(i + 1)).drop_last() =~= exposed_views(values@.take(i as int)));
            assert(exposed_views(values@.take(i + 1)).last() == values@[i as int].inner()@);
        }
        if pat.len() > 0 {
            current = replace_chars(&current, &pat, &marker);
        }
        i = i + 1;
    }
    proof {
        assert(values@.take(values.len() as int) =~= values@);
    }
    string_from_chars(&current)
}

} // verus!
