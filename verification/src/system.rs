//! What the library takes from the machine: time, randomness and fresh ids.
use vstd::prelude::*;

verus! {

/// The text has the shape of a hyphenated lower-case UUID:
/// `xxxxxxxx-xxxx-xxxx-xxxx-xxxxxxxxxxxx` with hexadecimal digits.
pub open spec fn is_uuid_text(s: Seq<char>) -> bool {
    &&& s.len() == 36
    &&& forall|i: int|
        0 <= i < 36 ==> if i == 8 || i == 13 || i == 18 || i == 23 {
            #[trigger] s[i] == '-'
        } else {
            ('0' <= s[i] <= '9') || ('a' <= s[i] <= 'f')
        }
}

/// `Uuid::new_v4().to_string()` (uuid 1): a random version-4 UUID in its
/// hyphenated lower-case form. Only the shape is stated; the value is random.
#[verifier::external_body]
pub(crate) fn new_uuid_v4() -> (id: String)
    ensures
        is_uuid_text(id@),
{
    uuid::Uuid::new_v4().to_string()
}

/// `SystemTime::now().duration_since(UNIX_EPOCH)` in whole seconds, `0` for a
/// clock set before 1970 (`unwrap_or_default`). Nothing is stated of the value.
#[verifier::external_body]
pub(crate) fn unix_time_secs() -> (secs: u64) {
    std::time::SystemTime::now().duration_since(std::time::UNIX_EPOCH).unwrap_or_default().as_secs()
}

/// `RngCore::fill_bytes` on the operating system's generator (`OsRng`):
/// overwrites the buffer with random bytes. Nothing is stated of the bytes;
/// the source panics when the operating system cannot supply randomness.
#[verifier::external_body]
pub(crate) fn fill_random(buf: &mut [u8])
    ensures
        final(buf)@.len() == old(buf)@.len(),
{
    rand::RngCore::fill_bytes(&mut rand::rngs::OsRng, buf)
}

} // verus!
