//! Canonical paths: the one key under which a file is looked up.

use vstd::prelude::*;

verus! {

/// The lexically cleaned form of a path.
pub uninterp spec fn cleaned(p: Seq<char>) -> Seq<char>;

/// Relies on `clean_path::clean`: a lexical cleaning, without touching the
/// file system, that depends on the characters of the path alone (under the
/// separator rules of the target the crate is built for), and yields "."
/// rather than an empty path.
#[verifier::external_body]
fn clean(p: &str) -> (r: String)
    ensures
        r@ == cleaned(p@),
        r@.len() > 0,
{
    clean_path::clean(p).to_string_lossy().into_owned()
}

/// The canonical key of a raw path, as presented by either calling form of
/// the open primitive.
pub fn canonicalize(p: &str) -> (r: String)
    ensures
        r@ == cleaned(p@),
{
    clean(p)
}

/// The kind of a path's first component.
#[derive(Clone, Copy, Debug, PartialEq, Eq, Structural)]
pub enum ComponentKind {
    /// No component at all.
    Empty,
    /// A drive or UNC prefix.
    Prefix,
    RootDir,
    CurDir,
    ParentDir,
    Normal,
}

/// The kind of the first component of a path.
pub uninterp spec fn first_component(p: Seq<char>) -> ComponentKind;

/// Relies on `std::path::Path::components`: the kind of the first component
/// of the path, which depends on its characters alone (under the separator
/// and prefix rules of the target the crate is built for).
#[verifier::external_body]
fn first_component_of(p: &str) -> (r: ComponentKind)
    ensures
        r == first_component(p@),
{
    match std::path::Path::new(p).components().next() {
        None => ComponentKind::Empty,
        Some(std::path::Component::Prefix(_)) => ComponentKind::Prefix,
        Some(std::path::Component::RootDir) => ComponentKind::RootDir,
        Some(std::path::Component::CurDir) => ComponentKind::CurDir,
        Some(std::path::Component::ParentDir) => ComponentKind::ParentDir,
        Some(std::path::Component::Normal(_)) => ComponentKind::Normal,
    }
}

/// Whether a path begins outside the directory it is relative to: at a
/// prefix, at a root, or with a parent-directory component.
pub open spec fn escapes(s: Seq<char>) -> bool {
    let k = first_component(s);
    k == ComponentKind::Prefix || k == ComponentKind::RootDir || k == ComponentKind::ParentDir
}

/// The cleaned form of a relative path, or `None` where it would reach
/// outside the directory it is relative to.
pub fn ensure_safe(p: &str) -> (r: Option<String>)
    ensures
        escapes(cleaned(p@)) <==> r is None,
        r matches Some(s) ==> s@ == cleaned(p@),
{
    let c = clean(p);
    match first_component_of(c.as_str()) {
        ComponentKind::Prefix | ComponentKind::RootDir | ComponentKind::ParentDir => None,
        _ => Some(c),
    }
}

} // verus!
