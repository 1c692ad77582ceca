use crate::model::SubscriberState;
use crate::models::Follow;
use crate::models::User;
use crate::probe::Lookup;
use crate::subscriber::SubscriberError;
use crate::subscriber::TwitterSubscriber;
use vstd::prelude::*;

verus! {

/// What came of registering the stored credentials.
#[derive(Clone, Debug, PartialEq, Eq)]
pub struct StartupReport {
    /// The tenants whose credential is registered, in the order of the store.
    pub valid_user_ids: Vec<i64>,
    /// The tenants whose credential has expired: their status is to be
    /// changed in the store, and they are owed a notice.
    pub expired_user_ids: Vec<i64>,
}

/// How registering the credential of `u` ends in the state `s`, where
/// `lookup` is what its liveness probe returned. A tenant without a token
/// has a credential that cannot be read.
pub open spec fn register_result(s: SubscriberState, u: User, lookup: Lookup) -> Result<
    (),
    SubscriberError,
> {
    match u.twitter_access_token {
        Some(token) => TwitterSubscriber::spec_add_token_result(s, token@, lookup),
        None => Err(SubscriberError::TokenMalformed),
    }
}

/// The state after registering the credential of `u` in the state `s`.
pub open spec fn register_one(s: SubscriberState, u: User, lookup: Lookup) -> SubscriberState {
    match u.twitter_access_token {
        Some(token) => if register_result(s, u, lookup) is Ok {
            s.add_token(u.id, token@)
        } else {
            s
        },
        None => s,
    }
}

/// The state after registering the credentials of the first `n` of `users`,
/// each with its probe.
pub open spec fn register_all(
    s: SubscriberState,
    users: Seq<User>,
    lookups: Seq<Lookup>,
    n: int,
) -> SubscriberState
    decreases n,
{
    if n <= 0 {
        s
    } else {
        register_one(register_all(s, users, lookups, n - 1), users[n - 1], lookups[n - 1])
    }
}

/// Those of the first `n` of `users` whose registration ended as `want`
/// says, by their numbers and in their order.
pub open spec fn users_with(
    s: SubscriberState,
    users: Seq<User>,
    lookups: Seq<Lookup>,
    n: int,
    want: spec_fn(Result<(), SubscriberError>) -> bool,
) -> Seq<i64>
    decreases n,
{
    if n <= 0 {
        Seq::empty()
    } else {
        let before = users_with(s, users, lookups, n - 1, want);
        let state = register_all(s, users, lookups, n - 1);
        if want(register_result(state, users[n - 1], lookups[n - 1])) {
            before.push(users[n - 1].id)
        } else {
            before
        }
    }
}

/// The registration succeeded.
pub open spec fn is_registered(r: Result<(), SubscriberError>) -> bool {
    r is Ok
}

/// The registration found the credential expired.
pub open spec fn is_expired(r: Result<(), SubscriberError>) -> bool {
    r == Err::<(), SubscriberError>(SubscriberError::CredentialExpired)
}

/// The smaller of two lengths.
pub open spec fn shorter(a: int, b: int) -> int {
    if a < b {
        a
    } else {
        b
    }
}

/// Registers the stored credentials: that of each of `users` in turn, with
/// the liveness probe that `lookups` holds at the same position. A tenant
/// without a probe is passed over.
pub fn register_credentials(
    ts: &mut TwitterSubscriber,
    users: &Vec<User>,
    lookups: &Vec<Lookup>,
) -> (r: StartupReport)
    requires
        old(ts).wf(),
    ensures
        final(ts).wf(),
        final(ts)@ == register_all(
            old(ts)@,
            users@,
            lookups@,
            shorter(users.len() as int, lookups.len() as int),
        ),
        r.valid_user_ids@ == users_with(
            old(ts)@,
            users@,
            lookups@,
            shorter(users.len() as int, lookups.len() as int),
            |x: Result<(), SubscriberError>| is_registered(x),
        ),
        r.expired_user_ids@ == users_with(
            old(ts)@,
            users@,
            lookups@,
            shorter(users.len() as int, lookups.len() as int),
            |x: Result<(), SubscriberError>| is_expired(x),
        ),
{
    let n = if users.len() < lookups.len() {
        users.len()
    } else {
        lookups.len()
    };
    let mut valid_user_ids: Vec<i64> = Vec::new();
    let mut expired_user_ids: Vec<i64> = Vec::new();
    let ghost registered = |x: Result<(), SubscriberError>| is_registered(x);
    let ghost expired = |x: Result<(), SubscriberError>| is_expired(x);
    let mut i: usize = 0;
    while i < n
        invariant
            i <= n,
            n <= users.len(),
            n <= lookups.len(),
            ts.wf(),
            registered == |x: Result<(), SubscriberError>| is_registered(x),
            expired == |x: Result<(), SubscriberError>| is_expired(x),
            ts@ == register_all(old(ts)@, users@, lookups@, i as int),
            valid_user_ids@ == users_with(old(ts)@, users@, lookups@, i as int, registered),
            expired_user_ids@ == users_with(old(ts)@, users@, lookups@, i as int, expired),
        decreases n - i,
    {
        let u = &users[i];
        let result = match &u.twitter_access_token {
            Some(token) => ts.add_token(u.id, token.as_str(), &lookups[i]),
            None => Err(SubscriberError::TokenMalformed),
        };
        match result {
            Ok(()) => {
                valid_user_ids.push(u.id);
            },
            Err(SubscriberError::CredentialExpired) => {
                expired_user_ids.push(u.id);
            },
            Err(_) => {},
        }
        i += 1;
    }
    StartupReport { valid_user_ids, expired_user_ids }
}

/// The state after subscribing each of the first `n` of `follows`, on
/// nobody's behalf. Nothing changes while no credential is registered.
pub open spec fn restore_all(s: SubscriberState, follows: Seq<Follow>, n: int) -> SubscriberState
    decreases n,
{
    if n <= 0 {
        s
    } else {
        let before = restore_all(s, follows, n - 1);
        if before.order.len() > 0 {
            before.add_follow(follows[n - 1].user_id, follows[n - 1].twitter_user_id, 0)
        } else {
            before
        }
    }
}

/// Restores the stored subscriptions, each in turn.
pub fn restore_follows(ts: &mut TwitterSubscriber, follows: &Vec<Follow>)
    requires
        old(ts).wf(),
    ensures
        final(ts).wf(),
        final(ts)@ == restore_all(old(ts)@, follows@, follows.len() as int),
{
    let mut i: usize = 0;
    while i < follows.len()
        invariant
            i <= follows.len(),
            ts.wf(),
            ts@ == restore_all(old(ts)@, follows@, i as int),
        decreases follows.len() - i,
    {
        let _ = ts.add_follow(&follows[i], 0);
        i += 1;
    }
}

/// The tokens of `users`, each of which gets a rebalance request once the
/// subscriptions are restored; a tenant without a token gets none.
pub open spec fn spec_tokens(users: Seq<User>) -> Seq<Seq<char>>
    decreases users.len(),
{
    if users.len() == 0 {
        Seq::empty()
    } else {
        match users.last().twitter_access_token {
            Some(token) => spec_tokens(users.drop_last()).push(token@),
            None => spec_tokens(users.drop_last()),
        }
    }
}

/// The tokens for which a rebalance is requested at startup.
pub fn startup_rebalances(users: &Vec<User>) -> (r: Vec<String>)
    ensures
        r@.map_values(|t: String| t@) == spec_tokens(users@),
{
    let mut out: Vec<String> = Vec::new();
    let mut i: usize = 0;
    proof {
        assert(users@.take(0) =~= Seq::<User>::empty());
        assert(out@.map_values(|t: String| t@) =~= spec_tokens(users@.take(0)));
    }
    while i < users.len()
        invariant
            i <= users.len(),
            out@.map_values(|t: String| t@) == spec_tokens(users@.take(i as int)),
        decreases users.len() - i,
    {
        let ghost before = out@.map_values(|t: String| t@);
        proof {
            assert(users@.take(i + 1).drop_last() =~= users@.take(i as int));
            assert(users@.take(i + 1).last() == users@[i as int]);
        }
        if let Some(token) = &users[i].twitter_access_token {
            out.push(token.clone());
            proof {
                assert(out@.map_values(|t: String| t@) =~= before.push(token@));
            }
        }
        i += 1;
    }
    proof {
        assert(users@.take(users.len() as int) =~= users@);
    }
    out
}

} // verus!
