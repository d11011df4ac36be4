use vstd::prelude::*;
use sha1::Digest;
use sha1::Sha1;

verus! {

/// The lower-case hexadecimal SHA-1 digest of a text payload: a function of
/// the characters alone.
pub uninterp spec fn sha1_hex_of(data: Seq<char>) -> Seq<char>;

/// Relies on sha1::Sha1 through the digest traits: the digest of the payload
/// bytes depends on the payload alone, rendered as lower-case hexadecimal.
#[verifier::external_body]
pub(crate) fn sha1_hex(data: &str) -> (r: String)
    ensures
        r@ == sha1_hex_of(data@),
{
    let mut hasher = Sha1::new();
    hasher.update(data.as_bytes());
    let result = hasher.finalize();
    format!("{:x}", result)
}

} // verus!
