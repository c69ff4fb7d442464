//! Paths as the synchroniser sees them: absolute below a root on disk,
//! relative to that root on the wire.

use vstd::prelude::*;
use vstd::string::StringExecFns;

verus! {

/// The separator between the parts of a path.
pub open spec fn separator() -> Seq<char> {
    seq!['/']
}

/// `s` without `prefix` in front, or `s` itself when it does not start with
/// `prefix`.
pub open spec fn without_prefix(s: Seq<char>, prefix: Seq<char>) -> Seq<char> {
    if prefix.is_prefix_of(s) {
        s.skip(prefix.len() as int)
    } else {
        s
    }
}

/// The root-relative form of `path`: the root in front is dropped, then one
/// leading separator.
pub open spec fn relative_path(root: Seq<char>, path: Seq<char>) -> Seq<char> {
    without_prefix(without_prefix(path, root), separator())
}

/// The place on disk of the root-relative `path`.
pub open spec fn absolute_path(root: Seq<char>, path: Seq<char>) -> Seq<char> {
    root + separator() + path
}

/// Going below the root and back gives the relative path again.
pub proof fn lemma_relative_of_absolute(root: Seq<char>, path: Seq<char>)
    ensures
        relative_path(root, absolute_path(root, path)) == path,
{
    let abs = absolute_path(root, path);
    assert(root.is_prefix_of(abs));
    assert(abs.skip(root.len() as int) =~= separator() + path);
    assert(separator().is_prefix_of(separator() + path));
    assert((separator() + path).skip(1) =~= path);
}

/// Whether `path` lies below `root`: it is the root, a separator, and
/// something more.
pub open spec fn below_root(root: Seq<char>, path: Seq<char>) -> bool {
    (root + separator()).is_prefix_of(path)
}

/// A path below the root is the place on disk of its own relative form.
pub proof fn lemma_absolute_of_relative(root: Seq<char>, path: Seq<char>)
    requires
        below_root(root, path),
    ensures
        absolute_path(root, relative_path(root, path)) == path,
{
    let lead = root + separator();
    let rest = path.skip(lead.len() as int);
    assert(path =~= lead + rest);
    assert(path =~= absolute_path(root, rest));
    lemma_relative_of_absolute(root, rest);
}

/// Different paths below the root have different relative forms.
pub proof fn lemma_relative_path_injective(root: Seq<char>, a: Seq<char>, b: Seq<char>)
    requires
        below_root(root, a),
        below_root(root, b),
        relative_path(root, a) == relative_path(root, b),
    ensures
        a == b,
{
    lemma_absolute_of_relative(root, a);
    lemma_absolute_of_relative(root, b);
}

/// `str::strip_prefix` with a string as the pattern: the rest of `s` after
/// `prefix` when `s` starts with it, `None` otherwise.
#[verifier::external_body]
fn strip_prefix<'a>(s: &'a str, prefix: &str) -> (r: Option<&'a str>)
    ensures
        r is Some <==> prefix@.is_prefix_of(s@),
        r matches Some(rest) ==> rest@ == s@.skip(prefix@.len() as int),
{
    s.strip_prefix(prefix)
}

/// Turns an absolute path below `root` into its root-relative form. A path
/// that is not below `root` only loses a leading separator.
pub fn make_local_path(root: &str, path: &str) -> (local: String)
    ensures
        local@ == relative_path(root@, path@),
{
    let below = match strip_prefix(path, root) {
        Some(rest) => rest,
        None => path,
    };
    proof {
        reveal_strlit("/");
        assert("/"@ =~= separator());
    }
    let local = match strip_prefix(below, "/") {
        Some(rest) => rest,
        None => below,
    };
    local.to_owned()
}

/// Puts the root-relative `path` below `root`.
pub fn make_absolute_path(root: &str, path: &str) -> (abs: String)
    ensures
        abs@ == absolute_path(root@, path@),
{
    let mut abs = root.to_owned();
    proof {
        reveal_strlit("/");
        assert("/"@ =~= separator());
    }
    abs.append("/");
    abs.append(path);
    abs
}

} // verus!
