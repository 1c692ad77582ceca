use vstd::prelude::*;
use vstd::string::StringExecFns;

verus! {

/// The public account that a liveness probe looks up.
pub const PROBE_ACCOUNT_ID: u64 = 783214;

/// Whether a text deserializes as a Twitter token.
pub uninterp spec fn token_well_formed(token: Seq<char>) -> bool;

/// Calls `serde_json::from_str` at the type `egg_mode::Token`. Trusted: whether
/// the text deserializes depends on the text alone.
#[verifier::external_body]
fn token_parses(token: &str) -> (ok: bool)
    ensures
        ok == token_well_formed(token@),
{
    serde_json::from_str::<egg_mode::Token>(token).is_ok()
}

/// A text that can stand for a credential: not empty, and a token.
pub open spec fn token_readable(token: Seq<char>) -> bool {
    token.len() > 0 && token_well_formed(token)
}

/// Whether `token` can stand for a credential.
pub fn is_token_readable(token: &str) -> (ok: bool)
    ensures
        ok == token_readable(token@),
{
    !token.is_empty() && token_parses(token)
}

/// What came back from looking up the probe account with a credential.
#[derive(Clone, Debug, PartialEq, Eq)]
pub enum Lookup {
    /// The lookup answered with this screen name.
    Handle(String),
    /// The lookup did not answer, or its answer could not be read.
    Failed,
}

/// The screen name that the probe account is known to have.
pub open spec fn spec_probe_handle() -> Seq<char> {
    seq!['T', 'w', 'i', 't', 't', 'e', 'r']
}

/// The screen name that the probe account is known to have.
pub fn probe_handle() -> (s: String)
    ensures
        s@ == spec_probe_handle(),
{
    let s = String::from_str("Twitter");
    proof {
        reveal_strlit("Twitter");
        assert(s@ =~= spec_probe_handle());
    }
    s
}

/// The verdict of a probe: a credential is valid exactly when the lookup gave
/// the expected screen name.
pub open spec fn lookup_valid(lookup: Lookup) -> bool {
    lookup matches Lookup::Handle(h) && h@ == spec_probe_handle()
}

} // verus!
