//! Stable reusable error identity without presentation ownership.
//!
//! Owning modules keep typed errors and dynamic diagnostic context. This
//! module owns only the stable error-code identity and its prefix-derived
//! category; messages and resolutions belong to the configured catalogue.

use vstd::prelude::*;

use crate::text::chars_of;

verus! {

#[derive(Debug, Clone, Copy, PartialEq, Eq, Structural, Hash)]
pub enum ErrorCategory {
    Validation,
    Constraint,
    Resource,
    Io,
    Network,
    Timeout,
    External,
    Configuration,
    Version,
    Internal,
    Unsupported,
}

/// The lower-case name of a category.
pub open spec fn category_name(c: ErrorCategory) -> Seq<char> {
    match c {
        ErrorCategory::Validation => "validation"@,
        ErrorCategory::Constraint => "constraint"@,
        ErrorCategory::Resource => "resource"@,
        ErrorCategory::Io => "io"@,
        ErrorCategory::Network => "network"@,
        ErrorCategory::Timeout => "timeout"@,
        ErrorCategory::External => "external"@,
        ErrorCategory::Configuration => "configuration"@,
        ErrorCategory::Version => "version"@,
        ErrorCategory::Internal => "internal"@,
        ErrorCategory::Unsupported => "unsupported"@,
    }
}

impl ErrorCategory {
    pub fn as_str(self) -> (r: &'static str)
        ensures
            r@ == category_name(self),
    {
        match self {
            ErrorCategory::Validation => "validation",
            ErrorCategory::Constraint => "constraint",
            ErrorCategory::Resource => "resource",
            ErrorCategory::Io => "io",
            ErrorCategory::Network => "network",
            ErrorCategory::Timeout => "timeout",
            ErrorCategory::External => "external",
            ErrorCategory::Configuration => "configuration",
            ErrorCategory::Version => "version",
            ErrorCategory::Internal => "internal",
            ErrorCategory::Unsupported => "unsupported",
        }
    }
}

pub open spec fn is_upper(c: char) -> bool {
    'A' <= c <= 'Z'
}

pub open spec fn is_digit(c: char) -> bool {
    '0' <= c <= '9'
}

/// The category that a code prefix (the text before the first hyphen) names.
pub open spec fn prefix_category(p: Seq<char>) -> Option<ErrorCategory> {
    if p == seq!['V', 'A', 'L'] {
        Some(ErrorCategory::Validation)
    } else if p == seq!['C', 'O', 'N'] {
        Some(ErrorCategory::Constraint)
    } else if p == seq!['R', 'E', 'S'] {
        Some(ErrorCategory::Resource)
    } else if p == seq!['I', 'O'] {
        Some(ErrorCategory::Io)
    } else if p == seq!['N', 'E', 'T'] {
        Some(ErrorCategory::Network)
    } else if p == seq!['T', 'O'] {
        Some(ErrorCategory::Timeout)
    } else if p == seq!['E', 'X', 'T'] {
        Some(ErrorCategory::External)
    } else if p == seq!['C', 'F', 'G'] {
        Some(ErrorCategory::Configuration)
    } else if p == seq!['V', 'E', 'R'] {
        Some(ErrorCategory::Version)
    } else if p == seq!['I', 'N', 'T'] {
        Some(ErrorCategory::Internal)
    } else if p == seq!['U', 'N', 'S'] {
        Some(ErrorCategory::Unsupported)
    } else {
        None
    }
}

/// Position of the hyphen that ends the category prefix: every accepted
/// prefix has two or three letters.
pub open spec fn prefix_len(s: Seq<char>) -> int {
    if s.len() > 2 && s[2] == '-' {
        2
    } else {
        3
    }
}

/// Component segments between the prefix and the numeric suffix: one or more
/// hyphen-separated segments, each an upper-case letter followed by upper-case
/// letters or digits.
pub open spec fn valid_segments(m: Seq<char>) -> bool {
    &&& m.len() > 0
    &&& is_upper(m[0])
    &&& forall|i: int|
        0 <= i < m.len() ==> (is_upper(#[trigger] m[i]) || is_digit(m[i]) || (m[i] == '-' && i
            + 1 < m.len() && is_upper(m[i + 1])))
}

/// The accepted stable code shape `PREFIX-SEGMENT[-SEGMENT...]-NNN`, at least
/// nine characters long.
pub open spec fn valid_code_spec(s: Seq<char>) -> bool {
    let p = prefix_len(s);
    &&& s.len() >= 9
    &&& s[p] == '-'
    &&& prefix_category(s.subrange(0, p)) is Some
    &&& valid_segments(s.subrange(p + 1, s.len() - 4))
    &&& s[s.len() - 4] == '-'
    &&& is_digit(s[s.len() - 3])
    &&& is_digit(s[s.len() - 2])
    &&& is_digit(s[s.len() - 1])
}

/// Position-by-position form of [`valid_segments`], convenient for checking
/// literal codes.
pub open spec fn segments_ok(m: Seq<char>, i: int) -> bool
    decreases m.len() - i,
{
    if i < 0 || i >= m.len() {
        true
    } else {
        (is_upper(m[i]) || is_digit(m[i]) || (m[i] == '-' && i + 1 < m.len() && is_upper(m[i + 1])))
            && segments_ok(m, i + 1)
    }
}

proof fn lemma_segments_ok(m: Seq<char>, i: int, k: int)
    requires
        0 <= i <= k < m.len(),
        segments_ok(m, i),
    ensures
        is_upper(m[k]) || is_digit(m[k]) || (m[k] == '-' && k + 1 < m.len() && is_upper(m[k + 1])),
    decreases k - i,
{
    if i < k {
        lemma_segments_ok(m, i + 1, k);
    }
}

pub open spec fn known_prefix(s: Seq<char>) -> bool {
    s.len() > 3 && ((s[0] == 'V' && s[1] == 'A' && s[2] == 'L' && s[3] == '-')
        || (s[0] == 'C' && s[1] == 'O' && s[2] == 'N' && s[3] == '-')
        || (s[0] == 'R' && s[1] == 'E' && s[2] == 'S' && s[3] == '-')
        || (s[0] == 'I' && s[1] == 'O' && s[2] == '-')
        || (s[0] == 'N' && s[1] == 'E' && s[2] == 'T' && s[3] == '-')
        || (s[0] == 'T' && s[1] == 'O' && s[2] == '-')
        || (s[0] == 'E' && s[1] == 'X' && s[2] == 'T' && s[3] == '-')
        || (s[0] == 'C' && s[1] == 'F' && s[2] == 'G' && s[3] == '-')
        || (s[0] == 'V' && s[1] == 'E' && s[2] == 'R' && s[3] == '-')
        || (s[0] == 'I' && s[1] == 'N' && s[2] == 'T' && s[3] == '-')
        || (s[0] == 'U' && s[1] == 'N' && s[2] == 'S' && s[3] == '-'))
}

proof fn lemma_known_prefix(s: Seq<char>)
    requires
        known_prefix(s),
    ensures
        s[prefix_len(s)] == '-',
        prefix_category(s.subrange(0, prefix_len(s))) is Some,
{
    if s[0] == 'V' && s[1] == 'A' && s[2] == 'L' && s[3] == '-' {
        assert(s.subrange(0, 3) =~= seq!['V', 'A', 'L']);
    }
    if s[0] == 'C' && s[1] == 'O' && s[2] == 'N' && s[3] == '-' {
        assert(s.subrange(0, 3) =~= seq!['C', 'O', 'N']);
    }
    if s[0] == 'R' && s[1] == 'E' && s[2] == 'S' && s[3] == '-' {
        assert(s.subrange(0, 3) =~= seq!['R', 'E', 'S']);
    }
    if s[0] == 'I' && s[1] == 'O' && s[2] == '-' {
        assert(s.subrange(0, 2) =~= seq!['I', 'O']);
    }
    if s[0] == 'N' && s[1] == 'E' && s[2] == 'T' && s[3] == '-' {
        assert(s.subrange(0, 3) =~= seq!['N', 'E', 'T']);
    }
    if s[0] == 'T' && s[1] == 'O' && s[2] == '-' {
        assert(s.subrange(0, 2) =~= seq!['T', 'O']);
    }
    if s[0] == 'E' && s[1] == 'X' && s[2] == 'T' && s[3] == '-' {
        assert(s.subrange(0, 3) =~= seq!['E', 'X', 'T']);
    }
    if s[0] == 'C' && s[1] == 'F' && s[2] == 'G' && s[3] == '-' {
        assert(s.subrange(0, 3) =~= seq!['C', 'F', 'G']);
    }
    if s[0] == 'V' && s[1] == 'E' && s[2] == 'R' && s[3] == '-' {
        assert(s.subrange(0, 3) =~= seq!['V', 'E', 'R']);
    }
    if s[0] == 'I' && s[1] == 'N' && s[2] == 'T' && s[3] == '-' {
        assert(s.subrange(0, 3) =~= seq!['I', 'N', 'T']);
    }
    if s[0] == 'U' && s[1] == 'N' && s[2] == 'S' && s[3] == '-' {
        assert(s.subrange(0, 3) =~= seq!['U', 'N', 'S']);
    }
}

/// A code whose shape is checked position by position is valid.
pub proof fn lemma_valid_code(s: Seq<char>)
    requires
        s.len() >= 9,
        known_prefix(s),
        s.subrange(prefix_len(s) + 1, s.len() - 4).len() > 0,
        is_upper(s.subrange(prefix_len(s) + 1, s.len() - 4)[0]),
        segments_ok(s.subrange(prefix_len(s) + 1, s.len() - 4), 0),
        s[s.len() - 4] == '-',
        is_digit(s[s.len() - 3]),
        is_digit(s[s.len() - 2]),
        is_digit(s[s.len() - 1]),
    ensures
        valid_code_spec(s),
{
    lemma_known_prefix(s);
    let m = s.subrange(prefix_len(s) + 1, s.len() - 4);
    assert forall|k: int| 0 <= k < m.len() implies (is_upper(#[trigger] m[k]) || is_digit(m[k]) || (m[k]
        == '-' && k + 1 < m.len() && is_upper(m[k + 1]))) by {
        lemma_segments_ok(m, 0, k);
    }
}

/// The category of a valid code, derived from its prefix.
pub open spec fn code_category(s: Seq<char>) -> ErrorCategory {
    prefix_category(s.subrange(0, prefix_len(s)))->0
}

fn is_upper_char(c: char) -> (r: bool)
    ensures
        r == is_upper(c),
{
    'A' <= c && c <= 'Z'
}

fn is_digit_char(c: char) -> (r: bool)
    ensures
        r == is_digit(c),
{
    '0' <= c && c <= '9'
}

/// Whether the first `length` characters are exactly `prefix`.
fn prefix_eq(chars: &[char], length: usize, prefix: &[char]) -> (r: bool)
    requires
        length <= chars.len(),
    ensures
        r == (chars@.subrange(0, length as int) == prefix@),
{
    if length != prefix.len() {
        return false;
    }
    let mut index: usize = 0;
    while index < length
        invariant
            length <= chars.len(),
            length == prefix.len(),
            index <= length,
            forall|j: int| 0 <= j < index ==> chars@[j] == prefix@[j],
        decreases length - index,
    {
        if chars[index] != prefix[index] {
            assert(chars@.subrange(0, length as int)[index as int] != prefix@[index as int]);
            return false;
        }
        index = index + 1;
    }
    assert(chars@.subrange(0, length as int) =~= prefix@);
    true
}

/// The category named by the first `length` characters, if any.
fn prefix_category_of(chars: &[char], length: usize) -> (r: Option<ErrorCategory>)
    requires
        length <= chars.len(),
    ensures
        r == prefix_category(chars@.subrange(0, length as int)),
{
    let ghost p = chars@.subrange(0, length as int);
    assert(['V', 'A', 'L']@ == seq!['V', 'A', 'L']);
    assert(['C', 'O', 'N']@ == seq!['C', 'O', 'N']);
    assert(['R', 'E', 'S']@ == seq!['R', 'E', 'S']);
    assert(['I', 'O']@ == seq!['I', 'O']);
    assert(['N', 'E', 'T']@ == seq!['N', 'E', 'T']);
    assert(['T', 'O']@ == seq!['T', 'O']);
    assert(['E', 'X', 'T']@ == seq!['E', 'X', 'T']);
    assert(['C', 'F', 'G']@ == seq!['C', 'F', 'G']);
    assert(['V', 'E', 'R']@ == seq!['V', 'E', 'R']);
    assert(['I', 'N', 'T']@ == seq!['I', 'N', 'T']);
    assert(['U', 'N', 'S']@ == seq!['U', 'N', 'S']);
    if prefix_eq(chars, length, &['V', 'A', 'L']) {
        Some(ErrorCategory::Validation)
    } else if prefix_eq(chars, length, &['C', 'O', 'N']) {
        Some(ErrorCategory::Constraint)
    } else if prefix_eq(chars, length, &['R', 'E', 'S']) {
        Some(ErrorCategory::Resource)
    } else if prefix_eq(chars, length, &['I', 'O']) {
        Some(ErrorCategory::Io)
    } else if prefix_eq(chars, length, &['N', 'E', 'T']) {
        Some(ErrorCategory::Network)
    } else if prefix_eq(chars, length, &['T', 'O']) {
        Some(ErrorCategory::Timeout)
    } else if prefix_eq(chars, length, &['E', 'X', 'T']) {
        Some(ErrorCategory::External)
    } else if prefix_eq(chars, length, &['C', 'F', 'G']) {
        Some(ErrorCategory::Configuration)
    } else if prefix_eq(chars, length, &['V', 'E', 'R']) {
        Some(ErrorCategory::Version)
    } else if prefix_eq(chars, length, &['I', 'N', 'T']) {
        Some(ErrorCategory::Internal)
    } else if prefix_eq(chars, length, &['U', 'N', 'S']) {
        Some(ErrorCategory::Unsupported)
    } else {
        None
    }
}

/// Whether the first `length` characters form an accepted category prefix.
fn valid_prefix(chars: &[char], length: usize) -> (r: bool)
    requires
        length <= chars.len(),
    ensures
        r == prefix_category(chars@.subrange(0, length as int)) is Some,
{
    prefix_category_of(chars, length).is_some()
}

/// Checks the component segments `chars[start..end]`.
fn valid_segments_in(chars: &[char], start: usize, end: usize) -> (r: bool)
    requires
        start <= end <= chars.len(),
    ensures
        r == valid_segments(chars@.subrange(start as int, end as int)),
{
    let ghost m = chars@.subrange(start as int, end as int);
    if start == end || !is_upper_char(chars[start]) {
        return false;
    }
    let mut index = start;
    while index < end
        invariant
            start < end <= chars.len(),
            m == chars@.subrange(start as int, end as int),
            is_upper(m[0]),
            start <= index <= end,
            forall|i: int|
                0 <= i < index - start ==> (is_upper(#[trigger] m[i]) || is_digit(m[i]) || (m[i]
                    == '-' && i + 1 < m.len() && is_upper(m[i + 1]))),
        decreases end - index,
    {
        let c = chars[index];
        assert(m[index - start] == c);
        if c == '-' {
            if index + 1 >= end {
                return false;
            }
            if !is_upper_char(chars[index + 1]) {
                assert(m[index - start + 1] == chars@[index + 1]);
                return false;
            }
            assert(m[index - start + 1] == chars@[index + 1]);
        } else if !is_upper_char(c) && !is_digit_char(c) {
            return false;
        }
        index = index + 1;
    }
    true
}

fn valid_code(chars: &[char]) -> (r: bool)
    ensures
        r == valid_code_spec(chars@),
{
    let len = chars.len();
    if len < 9 {
        return false;
    }
    let p: usize = if chars[2] == '-' {
        2
    } else {
        3
    };
    if chars[p] != '-' || !valid_prefix(chars, p) {
        return false;
    }
    if chars[len - 4] != '-' || !is_digit_char(chars[len - 3]) || !is_digit_char(chars[len - 2])
        || !is_digit_char(chars[len - 1]) {
        return false;
    }
    valid_segments_in(chars, p + 1, len - 4)
}

/// A stable error code such as `CON-EXAMPLE-002`. Its shape is valid by
/// construction, so its category is always defined.
#[derive(Debug, Clone, Copy)]
pub struct ErrorCode(&'static str);

impl View for ErrorCode {
    type V = Seq<char>;

    closed spec fn view(&self) -> Seq<char> {
        self.0@
    }
}

impl ErrorCode {
    #[verifier::type_invariant]
    spec fn code_shape(self) -> bool {
        valid_code_spec(self.0@)
    }

    /// Creates a code from a literal. A code of any other shape is a
    /// programming error, excluded by the precondition.
    pub fn new(code: &'static str) -> (r: Self)
        requires
            valid_code_spec(code@),
        ensures
            r@ == code@,
    {
        ErrorCode(code)
    }

    pub fn as_str(self) -> (r: &'static str)
        ensures
            r@ == self@,
            valid_code_spec(r@),
    {
        proof {
            use_type_invariant(self);
        }
        self.0
    }

    /// Dynamic check of the constructor's accepted shape.
    pub fn is_valid(code: &str) -> (r: bool)
        ensures
            r == valid_code_spec(code@),
    {
        let chars = chars_of(code);
        valid_code(&chars)
    }

    pub fn category(self) -> (r: ErrorCategory)
        ensures
            r == code_category(self@),
    {
        proof {
            use_type_invariant(self);
        }
        let chars = chars_of(self.0);
        let p: usize = if chars[2] == '-' {
            2
        } else {
            3
        };
        match prefix_category_of(&chars, p) {
            Some(c) => c,
            None => ErrorCategory::Internal,
        }
    }
}

/// A typed error with a stable code, implemented by the library's errors
/// and by its users' own. Implementors give the code; the category always
/// follows from it (see [`ErrorCode::category`]).
pub trait CodedError {
    fn code(&self) -> ErrorCode;

    /// The category of the code this error reports.
    fn category(&self) -> (r: ErrorCategory)
        ensures
            exists|c: ErrorCode| call_ensures(Self::code, (self,), c) && r == code_category(c@),
    {
        let c = self.code();
        proof {
            assert(call_ensures(Self::code, (self,), c));
        }
        c.category()
    }
}

} // verus!
