//! Ids of users and homeservers.
use pubky_app_specs::PubkyId;
use vstd::prelude::*;

verus! {

/// The canonical text of the id that `text` spells, if it spells one: what
/// `PubkyId::try_from` of `pubky_app_specs` makes of it.
pub uninterp spec fn pubky_id(text: Seq<char>) -> Option<Seq<char>>;

/// Parses an id with `PubkyId::try_from` of `pubky_app_specs`, and gives its
/// canonical text. Which texts are ids, and how they are spelled canonically,
/// is a matter of z-base-32 and of the key's curve: both are told by `pubky_id`,
/// which depends on the text alone.
#[verifier::external_body]
pub(crate) fn parse_pubky_id(text: &str) -> (id: Option<String>)
    ensures
        id.deep_view() == pubky_id(text@),
{
    match PubkyId::try_from(text) {
        Ok(id) => Some(id.to_string()),
        Err(_) => None,
    }
}

} // verus!
