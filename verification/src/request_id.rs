//! The identifiers that requests carry.

use vstd::prelude::*;

verus! {

/// Decimal digits and the letters `a` to `f`.
pub open spec fn is_lower_hex(c: char) -> bool {
    '0' <= c <= '9' || 'a' <= c <= 'f'
}

/// A random UUID with hyphens, in lower case.
pub open spec fn is_request_id(id: Seq<char>) -> bool {
    &&& id.len() == 36
    &&& forall|i: int|
        0 <= i < 36 ==> if i == 8 || i == 13 || i == 18 || i == 23 {
            #[trigger] id[i] == '-'
        } else {
            is_lower_hex(id[i])
        }
    &&& id[14] == '4'
    &&& id[19] == '8' || id[19] == '9' || id[19] == 'a' || id[19] == 'b'
}

/// `uuid::Uuid::new_v4`, with the UUID written out in its usual form. Which UUID it is,
/// is a matter of chance; it panics where the system has no random numbers to give.
#[verifier::external_body]
fn new_request_id() -> (id: String)
    ensures
        is_request_id(id@),
{
    uuid::Uuid::new_v4().to_string()
}

/// Whether `uuid::Uuid::new_v4` can have drawn this identifier.
pub closed spec fn is_drawn(id: Seq<char>) -> bool {
    exists|drawn: String| #[trigger]
        call_ensures(new_request_id, (), drawn) && drawn@ == id
}

/// Draws an identifier.
pub(crate) fn draw_request_id() -> (id: String)
    ensures
        is_drawn(id@),
        is_request_id(id@),
{
    let id = new_request_id();
    id
}

} // verus!
