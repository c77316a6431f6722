//! Filesystem paths held as text, joined the way `std::path::PathBuf::push`
//! joins them on Unix.

use vstd::prelude::*;

verus! {

/// `base` joined with `part`: an absolute `part` replaces `base`; otherwise a
/// `/` separator is put between them unless `base` is empty or already ends
/// in one.
pub open spec fn path_join(base: Seq<char>, part: Seq<char>) -> Seq<char> {
    if part.len() > 0 && part[0] == '/' {
        part
    } else if base.len() > 0 && base[base.len() - 1] != '/' {
        base + seq!['/'] + part
    } else {
        base + part
    }
}

/// The path test `test` (such as "is a directory") answered `out` when
/// asked about `path`.
pub open spec fn answered<D: Fn(&str) -> bool>(test: D, path: Seq<char>, out: bool) -> bool {
    exists|d: &str| d@ == path && call_ensures(test, (d,), out)
}

/// `canonicalize` gave `out` for `path`: its canonical form, or `None` when
/// the path does not resolve.
pub open spec fn resolved<C: Fn(&str) -> Option<String>>(canonicalize: C, path: Seq<char>, out: Option<String>) -> bool {
    exists|d: &str| d@ == path && call_ensures(canonicalize, (d,), out)
}

/// Join `part` onto `base` (see [`path_join`]).
pub fn join_path(base: &str, part: &str) -> (r: String)
    ensures
        r@ == path_join(base@, part@),
{
    let blen = base.unicode_len();
    let plen = part.unicode_len();
    if plen > 0 && part.get_char(0) == '/' {
        return part.to_string();
    }
    let mut r = base.to_string();
    if blen > 0 && base.get_char(blen - 1) != '/' {
        r.append("/");
        proof {
            reveal_strlit("/");
        }
    }
    r.append(part);
    r
}

} // verus!

verus! {

/// The components of a Unix path, as `std::path::Path::components` yields
/// them: `/` for a leading root, `.` for a relative path whose first piece
/// is `.`, then every piece between separators that is neither empty nor
/// `.` (so repeated and trailing separators and inner `.` pieces vanish).
pub open spec fn path_components(p: Seq<char>) -> Seq<Seq<char>> {
    let pieces = crate::urls::split_slash(p);
    let rooted = p.len() > 0 && p[0] == '/';
    let root: Seq<Seq<char>> = if rooted { seq!["/"@] } else { Seq::empty() };
    let cur: Seq<Seq<char>> = if !rooted && pieces.len() > 0 && pieces[0] == "."@ {
        seq!["."@]
    } else {
        Seq::empty()
    };
    root + cur + pieces.filter(|q: Seq<char>| q.len() > 0 && q != "."@)
}

/// Whether `base` is a prefix of `path` by whole components, as
/// `std::path::Path::starts_with` decides it.
pub open spec fn path_has_prefix(path: Seq<char>, base: Seq<char>) -> bool {
    let a = path_components(path);
    let b = path_components(base);
    b.len() <= a.len() && a.take(b.len() as int) == b
}

/// Whether `base` is a prefix of `path` by whole components.
///
/// Calls `std::path::Path::starts_with`, which compares the paths component
/// by component (so `/a/bc` does not start with `/a/b`); that is
/// [`path_has_prefix`].
#[verifier::external_body]
pub(crate) fn path_starts_with(path: &str, base: &str) -> (r: bool)
    ensures
        r == path_has_prefix(path@, base@),
{
    std::path::Path::new(path).starts_with(base)
}

} // verus!
