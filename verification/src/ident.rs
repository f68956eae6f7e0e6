//! Fresh identifiers for new records.

use vstd::prelude::*;

verus! {

/// A new random identifier: `uuid::Uuid::new_v4()`, written out by its
/// `Display` impl. Trusted, not proved: the text is the hyphenated form,
/// which is always 36 characters long. Nothing is claimed about which
/// identifier comes back, so callers compare it with those in use. The
/// bits come from the operating system's random source.
#[verifier::external_body]
pub(crate) fn generate_unique_id() -> (id: String)
    ensures
        id@.len() == 36,
{
    uuid::Uuid::new_v4().to_string()
}

} // verus!
