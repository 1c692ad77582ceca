use crate::text::decimal_i64;
use crate::text::spec_decimal_int;
use vstd::prelude::*;
use vstd::string::StringExecFns;

verus! {

/// The 128-bit MD5 digest of a text's UTF-8 bytes, read as one big-endian
/// number, so that its 32-digit lowercase hex form is the usual rendering.
pub uninterp spec fn md5_of(data: Seq<char>) -> u128;

/// Calls `md5::compute` on the text's bytes. Trusted: the digest depends on
/// the text alone, and the number returned is its sixteen bytes, first byte
/// most significant.
#[verifier::external_body]
fn md5_digest(data: &str) -> (d: u128)
    ensures
        d == md5_of(data@),
{
    u128::from_be_bytes(md5::compute(data).0)
}

/// The fingerprint under which a credential is registered: a function of the
/// token text and nothing else.
pub open spec fn spec_token_hash(token: Seq<char>) -> u128 {
    md5_of(token)
}

pub fn token_hash(token: &str) -> (h: u128)
    ensures
        h == spec_token_hash(token@),
{
    md5_digest(token)
}

/// The fingerprint of the delivery of the tweet at `url` to `tenant`: the
/// digest of the tenant's number in decimal, a hyphen, and the address.
pub open spec fn spec_fingerprint(tenant: i64, url: Seq<char>) -> u128 {
    md5_of(spec_decimal_int(tenant as int) + "-"@ + url)
}

pub fn fingerprint(tenant: i64, url: &str) -> (k: u128)
    ensures
        k == spec_fingerprint(tenant, url@),
{
    let mut key = decimal_i64(tenant);
    key.append("-");
    key.append(url);
    md5_digest(key.as_str())
}

} // verus!
