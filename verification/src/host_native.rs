//! Path semantics of the native host implementations.
//!
//! The native file host resolves every caller path against its authority
//! root before any effect: an absolute path must lie beneath the root, and
//! `..` may never climb above it. This is a semantic pre-check only; the
//! capability directory stays the effect-time containment boundary. Paths
//! use `/`-separated syntax.

use vstd::prelude::*;

use crate::host::{is_absolute, is_absolute_path};
use crate::text::{chars_of, push_quoted, push_str, quoted_spec, string_from_chars};

verus! {

#[verifier::external_type_specification]
#[verifier::external_body]
pub struct ExIoError(std::io::Error);

/// A path segment that names something: not empty and not `.`.
pub open spec fn names_entry(seg: Seq<char>) -> bool {
    seg.len() > 0 && seg != seq!['.']
}

/// Splits `p` at `/`, having already collected `done` and with `cur` the
/// segment under way; keeps only the segments that name something.
pub open spec fn segments_from(p: Seq<char>, cur: Seq<char>, done: Seq<Seq<char>>) -> Seq<Seq<char>>
    decreases p.len(),
{
    if p.len() == 0 {
        if names_entry(cur) { done.push(cur) } else { done }
    } else if p[0] == '/' {
        segments_from(p.drop_first(), Seq::empty(), if names_entry(cur) { done.push(cur) } else { done })
    } else {
        segments_from(p.drop_first(), cur.push(p[0]), done)
    }
}

/// The named components of a path: its `/`-separated segments without empty
/// and `.` segments; `..` stays a component.
pub open spec fn path_segments(p: Seq<char>) -> Seq<Seq<char>> {
    segments_from(p, Seq::empty(), Seq::empty())
}

/// Applies `..` components to `stack`, failing where one would climb above
/// the start.
pub open spec fn normalize_from(c: Seq<Seq<char>>, stack: Seq<Seq<char>>) -> Option<Seq<Seq<char>>>
    decreases c.len(),
{
    if c.len() == 0 {
        Some(stack)
    } else if c[0] == seq!['.', '.'] {
        if stack.len() == 0 {
            None
        } else {
            normalize_from(c.drop_first(), stack.drop_last())
        }
    } else {
        normalize_from(c.drop_first(), stack.push(c[0]))
    }
}

/// The components of `path` relative to `root`, or `None` when the path is
/// outside the authority: an absolute path must start with the root's
/// components, and `..` may not climb above the root.
pub open spec fn relative_components(root: Seq<char>, path: Seq<char>) -> Option<Seq<Seq<char>>> {
    let r = path_segments(root);
    let p = path_segments(path);
    if is_absolute_path(path) {
        if is_absolute_path(root) && r.len() <= p.len() && p.take(r.len() as int) == r {
            normalize_from(p.skip(r.len() as int), Seq::empty())
        } else {
            None
        }
    } else {
        normalize_from(p, Seq::empty())
    }
}

/// A component that stays beneath its directory: it names an entry and is
/// not `..`.
pub open spec fn contained_component(seg: Seq<char>) -> bool {
    names_entry(seg) && seg != seq!['.', '.']
}

proof fn lemma_segments_name_entries(p: Seq<char>, cur: Seq<char>, done: Seq<Seq<char>>)
    requires
        forall|i: int| 0 <= i < done.len() ==> names_entry(#[trigger] done[i]),
    ensures
        forall|i: int| 0 <= i < segments_from(p, cur, done).len() ==> names_entry(#[trigger] segments_from(p, cur, done)[i]),
    decreases p.len(),
{
    let next = if names_entry(cur) { done.push(cur) } else { done };
    assert forall|i: int| 0 <= i < next.len() implies names_entry(#[trigger] next[i]) by {
        if i < done.len() {
            assert(next[i] == done[i]);
        }
    }
    if p.len() == 0 {
        assert(segments_from(p, cur, done) == next);
    } else if p[0] == '/' {
        lemma_segments_name_entries(p.drop_first(), Seq::empty(), next);
        assert(segments_from(p, cur, done) == segments_from(p.drop_first(), Seq::empty(), next));
    } else {
        lemma_segments_name_entries(p.drop_first(), cur.push(p[0]), done);
        assert(segments_from(p, cur, done) == segments_from(p.drop_first(), cur.push(p[0]), done));
    }
}

proof fn lemma_normalize_contained(c: Seq<Seq<char>>, stack: Seq<Seq<char>>)
    requires
        forall|i: int| 0 <= i < c.len() ==> names_entry(#[trigger] c[i]),
        forall|i: int| 0 <= i < stack.len() ==> contained_component(#[trigger] stack[i]),
    ensures
        normalize_from(c, stack) matches Some(r) ==> forall|i: int| 0 <= i < r.len() ==> contained_component(#[trigger] r[i]),
    decreases c.len(),
{
    if c.len() > 0 {
        let rest = c.drop_first();
        assert forall|i: int| 0 <= i < rest.len() implies names_entry(#[trigger] rest[i]) by {
            assert(rest[i] == c[i + 1]);
        }
        if c[0] == seq!['.', '.'] {
            if stack.len() > 0 {
                lemma_normalize_contained(rest, stack.drop_last());
            }
        } else {
            let next = stack.push(c[0]);
            assert forall|i: int| 0 <= i < next.len() implies contained_component(#[trigger] next[i]) by {
                if i < stack.len() {
                    assert(next[i] == stack[i]);
                }
            }
            lemma_normalize_contained(rest, next);
        }
    }
}

/// Law: a path accepted beneath an authority root resolves to components
/// that each name an entry and none of which is `..`, so the resolved path
/// cannot leave the root.
pub proof fn lemma_resolved_path_stays_beneath_root(root: Seq<char>, path: Seq<char>)
    ensures
        relative_components(root, path) matches Some(c) ==> forall|i: int| 0 <= i < c.len() ==> contained_component(#[trigger] c[i]),
{
    let p = path_segments(path);
    let r = path_segments(root);
    lemma_segments_name_entries(path, Seq::empty(), Seq::empty());
    if is_absolute_path(path) {
        if is_absolute_path(root) && r.len() <= p.len() && p.take(r.len() as int) == r {
            let q = p.skip(r.len() as int);
            assert forall|i: int| 0 <= i < q.len() implies names_entry(#[trigger] q[i]) by {
                assert(q[i] == p[i + r.len()]);
            }
            lemma_normalize_contained(q, Seq::empty());
        }
    } else {
        lemma_normalize_contained(p, Seq::empty());
    }
}

pub open spec fn strings_view(v: Seq<String>) -> Seq<Seq<char>> {
    v.map_values(|s: String| s@)
}

/// The named components of `p`.
pub fn path_components(p: &str) -> (r: Vec<String>)
    ensures
        strings_view(r@) == path_segments(p@),
{
    let v = chars_of(p);
    let mut out: Vec<String> = Vec::new();
    let mut cur: Vec<char> = Vec::new();
    let mut i: usize = 0;
    proof {
        assert(p@.skip(0) =~= p@);
        assert(strings_view(out@) =~= Seq::<Seq<char>>::empty());
    }
    while i < v.len()
        invariant
            v@ == p@,
            i <= v.len(),
            path_segments(p@) == segments_from(p@.skip(i as int), cur@, strings_view(out@)),
        decreases v.len() - i,
    {
        let c = v[i];
        proof {
            assert(p@.skip(i as int)[0] == c);
            assert(p@.skip(i as int).drop_first() =~= p@.skip(i + 1));
        }
        if c == '/' {
            let keep = cur.len() > 0 && !(cur.len() == 1 && cur[0] == '.');
            proof {
                assert(keep == names_entry(cur@)) by {
                    if cur@.len() == 1 && cur@ == seq!['.'] {
                        assert(cur@[0] == '.');
                    }
                    if cur@.len() == 1 && cur@[0] == '.' {
                        assert(cur@ =~= seq!['.']);
                    }
                }
            }
            if keep {
                let seg = string_from_chars(cur.as_slice());
                let ghost before = out@;
                out.push(seg);
                proof {
                    assert(strings_view(out@) =~= strings_view(before).push(cur@));
                }
            }
            cur = Vec::new();
            proof {
                assert(cur@ =~= Seq::<char>::empty());
            }
        } else {
            cur.push(c);
        }
        i = i + 1;
    }
    proof {
        assert(p@.skip(i as int) =~= Seq::<char>::empty());
    }
    let keep = cur.len() > 0 && !(cur.len() == 1 && cur[0] == '.');
    proof {
        assert(keep == names_entry(cur@)) by {
            if cur@.len() == 1 && cur@[0] == '.' {
                assert(cur@ =~= seq!['.']);
            }
        }
    }
    if keep {
        let seg = string_from_chars(cur.as_slice());
        let ghost before = out@;
        out.push(seg);
        proof {
            assert(strings_view(out@) =~= strings_view(before).push(cur@));
        }
    }
    out
}

fn is_parent(s: &str) -> (r: bool)
    ensures
        r == (s@ == seq!['.', '.']),
{
    let v = chars_of(s);
    let r = v.len() == 2 && v[0] == '.' && v[1] == '.';
    proof {
        if v@.len() == 2 && v@[0] == '.' && v@[1] == '.' {
            assert(s@ =~= seq!['.', '.']);
        }
    }
    r
}

/// Errors of the native file host.
#[derive(Debug)]
pub enum NativeHostError {
    OpenAuthorityRoot { path: String, source: std::io::Error },
    AuthorityRootNotDirectory(String),
    InspectTarget { path: String, source: std::io::Error },
    OutsideAuthority { root: String, path: String },
    MissingFileName(String),
    SymbolicLinkWriteTarget(String),
    DirectoryWriteTarget(String),
    ReadFile { path: String, source: std::io::Error },
    WriteFile { path: String, source: std::io::Error },
    RemoveFile { path: String, source: std::io::Error },
}

impl NativeHostError {
    pub open spec fn message_spec(&self) -> Seq<char> {
        match self {
            NativeHostError::OpenAuthorityRoot { path, .. } => "cannot open file authority root "@ + quoted_spec(path@),
            NativeHostError::AuthorityRootNotDirectory(path) => "file authority root is not a directory: "@ + quoted_spec(path@),
            NativeHostError::InspectTarget { path, .. } => "cannot inspect file target "@ + quoted_spec(path@),
            NativeHostError::OutsideAuthority { root, path } => "file target "@ + quoted_spec(path@)
                + " is outside authority root "@ + quoted_spec(root@),
            NativeHostError::MissingFileName(path) => "file target has no file name: "@ + quoted_spec(path@),
            NativeHostError::SymbolicLinkWriteTarget(path) => "managed write target is a symbolic link: "@ + quoted_spec(path@),
            NativeHostError::DirectoryWriteTarget(path) => "managed write target is a directory: "@ + quoted_spec(path@),
            NativeHostError::ReadFile { path, .. } => "cannot read file "@ + quoted_spec(path@),
            NativeHostError::WriteFile { path, .. } => "cannot atomically write file "@ + quoted_spec(path@),
            NativeHostError::RemoveFile { path, .. } => "cannot remove file "@ + quoted_spec(path@),
        }
    }

    /// The human-readable description; paths appear quoted, with `\` and
    /// `"` escaped.
    pub fn message(&self) -> (r: String)
        ensures
            r@ == self.message_spec(),
    {
        let mut out: Vec<char> = Vec::new();
        match self {
            NativeHostError::OpenAuthorityRoot { path, .. } => {
                push_str("cannot open file authority root ", &mut out);
                push_quoted(path.as_str(), &mut out);
            },
            NativeHostError::AuthorityRootNotDirectory(path) => {
                push_str("file authority root is not a directory: ", &mut out);
                push_quoted(path.as_str(), &mut out);
            },
            NativeHostError::InspectTarget { path, .. } => {
                push_str("cannot inspect file target ", &mut out);
                push_quoted(path.as_str(), &mut out);
            },
            NativeHostError::OutsideAuthority { root, path } => {
                push_str("file target ", &mut out);
                push_quoted(path.as_str(), &mut out);
                push_str(" is outside authority root ", &mut out);
                push_quoted(root.as_str(), &mut out);
            },
            NativeHostError::MissingFileName(path) => {
                push_str("file target has no file name: ", &mut out);
                push_quoted(path.as_str(), &mut out);
            },
            NativeHostError::SymbolicLinkWriteTarget(path) => {
                push_str("managed write target is a symbolic link: ", &mut out);
                push_quoted(path.as_str(), &mut out);
            },
            NativeHostError::DirectoryWriteTarget(path) => {
                push_str("managed write target is a directory: ", &mut out);
                push_quoted(path.as_str(), &mut out);
            },
            NativeHostError::ReadFile { path, .. } => {
                push_str("cannot read file ", &mut out);
                push_quoted(path.as_str(), &mut out);
            },
            NativeHostError::WriteFile { path, .. } => {
                push_str("cannot atomically write file ", &mut out);
                push_quoted(path.as_str(), &mut out);
            },
            NativeHostError::RemoveFile { path, .. } => {
                push_str("cannot remove file ", &mut out);
                push_quoted(path.as_str(), &mut out);
            },
        }
        proof {
            assert(out@ =~= self.message_spec());
        }
        string_from_chars(out.as_slice())
    }

    /// The I/O error underneath, where there is one.
    pub fn source_error(&self) -> (r: Option<&std::io::Error>)
        ensures
            r is Some <==> (self is OpenAuthorityRoot || self is InspectTarget || self is ReadFile
                || self is WriteFile || self is RemoveFile),
    {
        match self {
            NativeHostError::OpenAuthorityRoot { source, .. } => Some(source),
            NativeHostError::InspectTarget { source, .. } => Some(source),
            NativeHostError::ReadFile { source, .. } => Some(source),
            NativeHostError::WriteFile { source, .. } => Some(source),
            NativeHostError::RemoveFile { source, .. } => Some(source),
            _ => None,
        }
    }
}

/// Resolves `path` against the authority `root`: the normalized components
/// beneath the root, or `OutsideAuthority` when the path is not beneath it.
pub fn relative_target(root: &str, path: &str) -> (r: Result<Vec<String>, NativeHostError>)
    ensures
        relative_components(root@, path@) matches Some(c) ==> (r matches Ok(v) && strings_view(v@) == c),
        relative_components(root@, path@) is None ==> (r matches Err(NativeHostError::OutsideAuthority { root: r0, path: p0 })
            && r0@ == root@ && p0@ == path@),
{
    let root_parts = path_components(root);
    let parts = path_components(path);
    let ghost rs = strings_view(root_parts@);
    let ghost ps = strings_view(parts@);
    let mut start: usize = 0;
    if is_absolute(path) {
        let mut prefix = is_absolute(root) && root_parts.len() <= parts.len();
        let mut k: usize = 0;
        while prefix && k < root_parts.len()
            invariant
                rs == strings_view(root_parts@),
                ps == strings_view(parts@),
                rs.len() == root_parts@.len(),
                ps.len() == parts@.len(),
                k <= root_parts.len(),
                prefix ==> root_parts.len() <= parts.len(),
                prefix ==> is_absolute_path(root@),
                prefix ==> ps.take(k as int) == rs.take(k as int),
                !prefix ==> !(is_absolute_path(root@) && rs.len() <= ps.len() && ps.take(rs.len() as int) == rs),
            decreases root_parts.len() - k + (if prefix { 1int } else { 0int }),
        {
            proof {
                assert(rs[k as int] == root_parts@[k as int]@);
                assert(ps[k as int] == parts@[k as int]@);
            }
            if !crate::text::str_eq(root_parts[k].as_str(), parts[k].as_str()) {
                proof {
                    if ps.take(rs.len() as int) == rs {
                        assert(ps.take(rs.len() as int)[k as int] == ps[k as int]);
                    }
                }
                prefix = false;
            } else {
                proof {
                    assert(ps.take(k + 1) =~= ps.take(k as int).push(ps[k as int]));
                    assert(rs.take(k + 1) =~= rs.take(k as int).push(rs[k as int]));
                }
                k = k + 1;
            }
        }
        if !prefix {
            return Err(NativeHostError::OutsideAuthority { root: root.to_owned(), path: path.to_owned() });
        }
        proof {
            assert(k == root_parts.len());
            assert(rs.take(rs.len() as int) =~= rs);
            assert(ps.take(rs.len() as int) == rs);
        }
        start = root_parts.len();
    }
    let mut stack: Vec<String> = Vec::new();
    let mut i: usize = start;
    proof {
        assert(strings_view(stack@) =~= Seq::<Seq<char>>::empty());
        assert(relative_components(root@, path@) == normalize_from(ps.skip(start as int), Seq::empty())) by {
            if !is_absolute_path(path@) {
                assert(ps.skip(0) =~= ps);
            }
        }
    }
    while i < parts.len()
        invariant
            ps == strings_view(parts@),
            ps.len() == parts@.len(),
            start <= i <= parts.len(),
            relative_components(root@, path@) == normalize_from(ps.skip(i as int), strings_view(stack@)),
        decreases parts.len() - i,
    {
        proof {
            assert(ps.skip(i as int)[0] == parts@[i as int]@);
            assert(ps.skip(i as int).drop_first() =~= ps.skip(i + 1));
        }
        if is_parent(parts[i].as_str()) {
            if stack.len() == 0 {
                return Err(NativeHostError::OutsideAuthority { root: root.to_owned(), path: path.to_owned() });
            }
            let ghost before = stack@;
            stack.pop();
            proof {
                assert(strings_view(stack@) =~= strings_view(before).drop_last());
            }
        } else {
            let ghost before = stack@;
            stack.push(parts[i].clone());
            proof {
                assert(strings_view(stack@) =~= strings_view(before).push(parts@[i as int]@));
            }
        }
        i = i + 1;
    }
    proof {
        assert(ps.skip(i as int) =~= Seq::<Seq<char>>::empty());
    }
    Ok(stack)
}

/// `segs` joined with `/`.
pub open spec fn joined(segs: Seq<Seq<char>>) -> Seq<char>
    decreases segs.len(),
{
    if segs.len() == 0 {
        Seq::empty()
    } else if segs.len() == 1 {
        segs[0]
    } else {
        joined(segs.drop_last()) + seq!['/'] + segs.last()
    }
}

/// The displayed path of `relative` beneath `root`: the root, a separator
/// unless the root already ends in one, and the components joined with `/`.
pub open spec fn display_spec(root: Seq<char>, relative: Seq<Seq<char>>) -> Seq<char> {
    if root.len() > 0 && root.last() == '/' {
        root + joined(relative)
    } else {
        root + seq!['/'] + joined(relative)
    }
}

/// The path of `relative` beneath `root`, for messages.
pub fn display_target(root: &str, relative: &[String]) -> (r: String)
    ensures
        r@ == display_spec(root@, strings_view(relative@)),
{
    let v = chars_of(root);
    let mut out: Vec<char> = Vec::new();
    push_str(root, &mut out);
    if !(v.len() > 0 && v[v.len() - 1] == '/') {
        out.push('/');
    }
    let ghost base = out@;
    let ghost segs = strings_view(relative@);
    let mut i: usize = 0;
    proof {
        assert(segs.take(0) =~= Seq::<Seq<char>>::empty());
        assert(base + joined(segs.take(0)) =~= base);
    }
    while i < relative.len()
        invariant
            segs == strings_view(relative@),
            segs.len() == relative@.len(),
            i <= relative.len(),
            out@ == base + joined(segs.take(i as int)),
        decreases relative.len() - i,
    {
        proof {
            assert(segs.take(i + 1).drop_last() =~= segs.take(i as int));
            assert(segs.take(i + 1).last() == relative@[i as int]@);
        }
        if i > 0 {
            out.push('/');
        }
        push_str(relative[i].as_str(), &mut out);
        proof {
            if i == 0 {
                assert(joined(segs.take(1)) == segs.take(1)[0]);
            }
            assert(out@ =~= base + joined(segs.take(i + 1)));
        }
        i = i + 1;
    }
    proof {
        assert(segs.take(relative@.len() as int) =~= segs);
        assert(out@ =~= display_spec(root@, segs));
    }
    string_from_chars(out.as_slice())
}

/// Errors of the native process host.
#[derive(Debug)]
pub enum NativeProcessError {
    CanonicalizeProgram { path: String, source: std::io::Error },
    ProgramNotAuthorized(String),
    CanonicalizeCurrentDir { path: String, source: std::io::Error },
    CurrentDirNotDirectory(String),
    Spawn { program: String, source: std::io::Error },
    Inspect { pid: u32, source: std::io::Error },
    Wait { pid: u32, source: std::io::Error },
    Kill { pid: u32, source: std::io::Error },
}

impl NativeProcessError {
    pub open spec fn message_spec(&self) -> Seq<char> {
        match self {
            NativeProcessError::CanonicalizeProgram { path, .. } => "cannot canonicalize process program "@ + quoted_spec(path@),
            NativeProcessError::ProgramNotAuthorized(path) => "process program is not authorized: "@ + quoted_spec(path@),
            NativeProcessError::CanonicalizeCurrentDir { path, .. } => "cannot canonicalize process working directory "@
                + quoted_spec(path@),
            NativeProcessError::CurrentDirNotDirectory(path) => "process working directory is not a directory: "@
                + quoted_spec(path@),
            NativeProcessError::Spawn { program, .. } => "cannot spawn process "@ + quoted_spec(program@),
            NativeProcessError::Inspect { pid, .. } => "cannot inspect process "@ + crate::text::decimal(*pid as nat),
            NativeProcessError::Wait { pid, .. } => "cannot wait for process "@ + crate::text::decimal(*pid as nat),
            NativeProcessError::Kill { pid, .. } => "cannot terminate process "@ + crate::text::decimal(*pid as nat),
        }
    }

    /// The human-readable description; paths appear quoted, with `\` and
    /// `"` escaped.
    pub fn message(&self) -> (r: String)
        ensures
            r@ == self.message_spec(),
    {
        let mut out: Vec<char> = Vec::new();
        match self {
            NativeProcessError::CanonicalizeProgram { path, .. } => {
                push_str("cannot canonicalize process program ", &mut out);
                push_quoted(path.as_str(), &mut out);
            },
            NativeProcessError::ProgramNotAuthorized(path) => {
                push_str("process program is not authorized: ", &mut out);
                push_quoted(path.as_str(), &mut out);
            },
            NativeProcessError::CanonicalizeCurrentDir { path, .. } => {
                push_str("cannot canonicalize process working directory ", &mut out);
                push_quoted(path.as_str(), &mut out);
            },
            NativeProcessError::CurrentDirNotDirectory(path) => {
                push_str("process working directory is not a directory: ", &mut out);
                push_quoted(path.as_str(), &mut out);
            },
            NativeProcessError::Spawn { program, .. } => {
                push_str("cannot spawn process ", &mut out);
                push_quoted(program.as_str(), &mut out);
            },
            NativeProcessError::Inspect { pid, .. } => {
                push_str("cannot inspect process ", &mut out);
                crate::text::push_decimal(*pid as u128, &mut out);
            },
            NativeProcessError::Wait { pid, .. } => {
                push_str("cannot wait for process ", &mut out);
                crate::text::push_decimal(*pid as u128, &mut out);
            },
            NativeProcessError::Kill { pid, .. } => {
                push_str("cannot terminate process ", &mut out);
                crate::text::push_decimal(*pid as u128, &mut out);
            },
        }
        proof {
            assert(out@ =~= self.message_spec());
        }
        string_from_chars(out.as_slice())
    }
}

} // verus!
