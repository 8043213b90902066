//! The bridge to the template engine: trusted declarations for
//! `tera::Context`, the flat string-valued mapping the engine consumes.

use vstd::prelude::*;

verus! {

#[verifier::external_type_specification]
#[verifier::external_body]
pub struct ExContext(tera::Context);

/// The string-valued entries of a rendering context: the map sending each
/// key to the string stored under it.
pub uninterp spec fn context_entries(c: tera::Context) -> Map<Seq<char>, Seq<char>>;

/// The entries of a context holding nothing.
pub open spec fn no_entries() -> Map<Seq<char>, Seq<char>> {
    Map::empty()
}

/// Relies on tera::Context::new: a freshly created context holds no entries.
#[verifier::external_body]
pub(crate) fn context_new() -> (r: tera::Context)
    ensures
        context_entries(r) == no_entries(),
{
    tera::Context::new()
}

/// Relies on tera::Context::insert: it stores the string value under the
/// key, replacing any earlier entry there. Serializing a string never fails,
/// so the call does not panic.
#[verifier::external_body]
pub(crate) fn context_insert(c: &mut tera::Context, key: &String, value: &String)
    ensures
        context_entries(*final(c)) == context_entries(*old(c)).insert(key@, value@),
{
    c.insert(key.clone(), value)
}

} // verus!
