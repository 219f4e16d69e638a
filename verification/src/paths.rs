//! Paths as strings: joining, and the few `std::path` queries the detectors use.
//!
//! Paths are held as `String`s (their lossless display form). Joining follows
//! the Unix rules of `PathBuf::push`; parent and file-name extraction are
//! `std::path`'s own. The filesystem queries depend on the disk, so nothing is
//! claimed of their answers but which path each one was about.
use vstd::prelude::*;
use crate::text::{copy_str, opt_view, push_all, to_chars};

verus! {

/// `seg` is an absolute path on Unix (it starts with the root `/`).
pub open spec fn is_absolute(seg: Seq<char>) -> bool {
    seg.len() > 0 && seg[0] == '/'
}

/// `base.join(seg)` on Unix: an absolute `seg` replaces `base`; otherwise a
/// `/` is inserted unless `base` is empty or already ends in one.
pub open spec fn join(base: Seq<char>, seg: Seq<char>) -> Seq<char> {
    if is_absolute(seg) {
        seg
    } else if base.len() > 0 && base.last() != '/' {
        base + seq!['/'] + seg
    } else {
        base + seg
    }
}

/// Tests whether `seg` is an absolute path.
pub fn path_is_absolute(seg: &str) -> (r: bool)
    ensures
        r == is_absolute(seg@),
{
    let v = to_chars(seg);
    v.len() > 0 && v[0] == '/'
}

/// `base` joined with `seg`.
pub fn join_path(base: &str, seg: &str) -> (r: String)
    ensures
        r@ == join(base@, seg@),
{
    if path_is_absolute(seg) {
        return copy_str(seg);
    }
    let b = to_chars(base);
    let mut r = copy_str(base);
    if b.len() > 0 && b[b.len() - 1] != '/' {
        r.push('/');
    }
    push_all(&mut r, seg);
    assert(r@ =~= join(base@, seg@));
    r
}

/// What `Path::parent` gives for the path `p` (kept by its characters).
pub uninterp spec fn spec_parent(p: Seq<char>) -> Option<Seq<char>>;

/// What `Path::file_name` gives for the path `p`.
pub uninterp spec fn spec_file_name(p: Seq<char>) -> Option<Seq<char>>;

/// What `==` on two `Path`s gives (a comparison of their components).
pub uninterp spec fn spec_path_eq(a: Seq<char>, b: Seq<char>) -> bool;

/// Calls `Path::parent`. It returns the path without its final component,
/// so a parent is always shorter than the path itself.
#[verifier::external_body]
pub(crate) fn path_parent(p: &str) -> (r: Option<String>)
    ensures
        r.is_some() == spec_parent(p@).is_some(),
        r matches Some(q) ==> spec_parent(p@) == Some(q@) && q@.len() < p@.len(),
{
    std::path::Path::new(p).parent().map(|q| q.to_string_lossy().into_owned())
}

/// Calls `Path::file_name`: the final component, when it is a normal one.
#[verifier::external_body]
pub(crate) fn path_file_name(p: &str) -> (r: Option<String>)
    ensures
        r.is_some() == spec_file_name(p@).is_some(),
        r matches Some(q) ==> spec_file_name(p@) == Some(q@),
{
    std::path::Path::new(p).file_name().map(|n| n.to_string_lossy().into_owned())
}

/// Calls `==` on `Path`, which compares components; equal text is an equal
/// path, since the comparison is an equivalence.
#[verifier::external_body]
pub(crate) fn path_eq(a: &str, b: &str) -> (r: bool)
    ensures
        r == spec_path_eq(a@, b@),
        a@ == b@ ==> r,
{
    std::path::Path::new(a) == std::path::Path::new(b)
}

/// Calls `Path::exists`. The answer depends on the disk.
#[verifier::external_body]
pub(crate) fn path_exists(p: &str) -> bool {
    std::path::Path::new(p).exists()
}

/// Calls `Path::is_dir`. The answer depends on the disk.
#[verifier::external_body]
pub(crate) fn path_is_dir(p: &str) -> bool {
    std::path::Path::new(p).is_dir()
}

/// Calls `Path::is_file`. The answer depends on the disk.
#[verifier::external_body]
pub(crate) fn path_is_file(p: &str) -> bool {
    std::path::Path::new(p).is_file()
}

fn ask<F: Fn(&str) -> bool>(f: &F, p: &str) -> (r: bool)
    requires
        forall|q: &str| f.requires((q,)),
    ensures
        f.ensures((p,), r),
{
    f(p)
}

/// `b` is an answer that `Path::exists` gave for the path `p`.
pub closed spec fn exists_answer(p: Seq<char>, b: bool) -> bool {
    exists|w: &str| w@ == p && #[trigger] call_ensures(path_exists, (w,), b)
}

/// `b` is an answer that `Path::is_dir` gave for the path `p`.
pub closed spec fn is_dir_answer(p: Seq<char>, b: bool) -> bool {
    exists|w: &str| w@ == p && #[trigger] call_ensures(path_is_dir, (w,), b)
}

/// `b` is an answer that `Path::is_file` gave for the path `p`.
pub closed spec fn is_file_answer(p: Seq<char>, b: bool) -> bool {
    exists|w: &str| w@ == p && #[trigger] call_ensures(path_is_file, (w,), b)
}

/// Asks whether `p` exists; the answer is recorded as one about `p`.
pub(crate) fn ask_exists(p: &str) -> (r: bool)
    ensures
        exists_answer(p@, r),
{
    let r = ask(&path_exists, p);
    assert(call_ensures(path_exists, (p,), r));
    r
}

/// Asks whether `p` is a directory; the answer is recorded as one about `p`.
pub(crate) fn ask_is_dir(p: &str) -> (r: bool)
    ensures
        is_dir_answer(p@, r),
{
    let r = ask(&path_is_dir, p);
    assert(call_ensures(path_is_dir, (p,), r));
    r
}

/// Asks whether `p` is a file; the answer is recorded as one about `p`.
pub(crate) fn ask_is_file(p: &str) -> (r: bool)
    ensures
        is_file_answer(p@, r),
{
    let r = ask(&path_is_file, p);
    assert(call_ensures(path_is_file, (p,), r));
    r
}

/// The ancestors of `p` reached by taking `Path::parent` `k` times.
pub open spec fn ancestor(p: Seq<char>, k: nat) -> Option<Seq<char>>
    decreases k,
{
    if k == 0 {
        Some(p)
    } else {
        match ancestor(p, (k - 1) as nat) {
            Some(q) => spec_parent(q),
            None => None,
        }
    }
}

/// `a` is `p` or one of its ancestors.
pub open spec fn is_ancestor(a: Seq<char>, p: Seq<char>) -> bool {
    exists|k: nat| ancestor(p, k) == Some(a)
}

fn ask_home<F: Fn() -> Option<String>>(f: &F) -> (r: Option<String>)
    requires
        f.requires(()),
    ensures
        f.ensures((), r),
{
    f()
}

/// `h` is an answer that `dirs::home_dir` gave (as text).
pub closed spec fn home_answer(h: Option<Seq<char>>) -> bool {
    exists|w: Option<String>| opt_view(w) == h && #[trigger] call_ensures(home_dir, (), w)
}

/// Asks for the home directory; the answer is recorded as one that
/// `dirs::home_dir` gave.
pub(crate) fn ask_home_dir() -> (r: Option<String>)
    ensures
        home_answer(opt_view(r)),
{
    let r = ask_home(&home_dir);
    assert(call_ensures(home_dir, (), r));
    r
}

/// Calls `dirs::home_dir`: `$HOME` when it is set and non-empty, otherwise
/// the home directory in the user database. The answer depends on the
/// environment, so nothing is claimed of it. Paths here are strings, so a
/// home directory that is not valid UTF-8 comes back converted lossily.
#[verifier::external_body]
pub(crate) fn home_dir() -> Option<String> {
    dirs::home_dir().map(|p| p.to_string_lossy().into_owned())
}

} // verus!
