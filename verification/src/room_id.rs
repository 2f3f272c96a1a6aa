use vstd::prelude::*;

verus! {

/// Makes `ruma::IdParseError` usable in signatures; its contents stay opaque.
#[verifier::external_type_specification]
#[verifier::external_body]
pub struct ExIdParseError(ruma::IdParseError);

/// The room IDs that `RoomId::parse` accepts when ruma is built with
/// arbitrary-length identifiers (as matrix-sdk builds it): a leading `!` and
/// no NUL character.
pub open spec fn is_room_id(s: Seq<char>) -> bool {
    &&& s.len() > 0
    &&& s[0] == '!'
    &&& !s.contains('\0')
}

/// Calls `ruma::RoomId::parse` and renders the parsed ID with
/// `to_string`. In the source, `parse` runs `room_id::validate` (leading `!`
/// byte, no NUL byte; the length limit is compiled out by the
/// `compat-arbitrary-length-ids` feature, enabled here as matrix-sdk enables it) and keeps
/// the input text unchanged, and `Display` writes that text back.
#[verifier::external_body]
pub(crate) fn parse_room_id(s: &str) -> (r: Result<String, ruma::IdParseError>)
    ensures
        r is Ok <==> is_room_id(s@),
        r matches Ok(id) ==> id@ == s@,
{
    match ruma::RoomId::parse(s) {
        Ok(id) => Ok(id.to_string()),
        Err(e) => Err(e),
    }
}

} // verus!
