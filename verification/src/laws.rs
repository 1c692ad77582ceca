use crate::digest::spec_fingerprint;
use crate::digest::spec_token_hash;
use crate::history::fingerprints;
use crate::invariants::lemma_add_follow_inv;
use crate::invariants::lemma_add_token_inv;
use crate::invariants::lemma_begin_session_inv;
use crate::invariants::lemma_block_inv;
use crate::invariants::lemma_initial_inv;
use crate::invariants::lemma_least_loaded_exists;
use crate::invariants::lemma_remove_follow_inv;
use crate::invariants::lemma_remove_token_inv;
use crate::invariants::lemma_remove_value_distinct;
use crate::invariants::lemma_unblock_inv;
use crate::model::SubscriberState;
use crate::router::forwarded_at;
use crate::router::passes_blocklist;
use crate::router::spec_recipients;
use crate::router::was_hit;
use crate::router::Forward;
use crate::router::StreamMessage;
use crate::session::law_unwatched_worker_ends;
use crate::session::session_run;
use crate::session::SessionEvent;
use crate::session::SessionState;
use vstd::prelude::*;

verus! {

/// One call on the subscription manager.
pub enum Operation {
    AddCredential { user_id: i64, token: Seq<char> },
    RemoveCredential { hash: u128 },
    AddSubscription { tenant: i64, account: i64, from: i64 },
    RemoveSubscription { tenant: i64, account: i64 },
    Block { tenant: i64, account: i64, kind: i32, from: i64 },
    Unblock { tenant: i64, account: i64, kind: i32 },
    Rebalance { hash: u128 },
}

/// The state after one operation. A credential with an empty token is not
/// registered, and a subscription is refused while no credential is.
pub open spec fn step(s: SubscriberState, op: Operation) -> SubscriberState {
    match op {
        Operation::AddCredential { user_id, token } => if token.len() > 0 {
            s.add_token(user_id, token)
        } else {
            s
        },
        Operation::RemoveCredential { hash } => s.remove_token(hash),
        Operation::AddSubscription { tenant, account, from } => if s.order.len() > 0 {
            s.add_follow(tenant, account, from)
        } else {
            s
        },
        Operation::RemoveSubscription { tenant, account } => s.remove_follow(tenant, account),
        Operation::Block { tenant, account, kind, from } => s.block(tenant, account, kind, from),
        Operation::Unblock { tenant, account, kind } => s.unblock(tenant, account, kind),
        Operation::Rebalance { hash } => s.begin_session(hash),
    }
}

/// The state after a sequence of operations, first to last.
pub open spec fn run(s: SubscriberState, ops: Seq<Operation>) -> SubscriberState
    decreases ops.len(),
{
    if ops.len() == 0 {
        s
    } else {
        step(run(s, ops.drop_last()), ops.last())
    }
}

/// Every operation keeps the invariant.
pub proof fn law_step_keeps_invariant(s: SubscriberState, op: Operation)
    requires
        s.inv(),
    ensures
        step(s, op).inv(),
{
    match op {
        Operation::AddCredential { user_id, token } => {
            if token.len() > 0 {
                lemma_add_token_inv(s, user_id, token);
            }
        },
        Operation::RemoveCredential { hash } => {
            lemma_remove_token_inv(s, hash);
        },
        Operation::AddSubscription { tenant, account, from } => {
            if s.order.len() > 0 {
                lemma_add_follow_inv(s, tenant, account, from);
            }
        },
        Operation::RemoveSubscription { tenant, account } => {
            lemma_remove_follow_inv(s, tenant, account);
        },
        Operation::Block { tenant, account, kind, from } => {
            lemma_block_inv(s, tenant, account, kind, from);
        },
        Operation::Unblock { tenant, account, kind } => {
            lemma_unblock_inv(s, tenant, account, kind);
        },
        Operation::Rebalance { hash } => {
            lemma_begin_session_inv(s, hash);
        },
    }
}

/// Whatever operations are made on a new manager, in whatever order, the
/// invariant holds afterwards.
pub proof fn law_invariant_after_any_operations(
    blocklist: Map<i64, Set<(i64, i32)>>,
    ops: Seq<Operation>,
)
    ensures
        run(SubscriberState::initial(blocklist), ops).inv(),
    decreases ops.len(),
{
    if ops.len() == 0 {
        lemma_initial_inv(blocklist);
    } else {
        law_invariant_after_any_operations(blocklist, ops.drop_last());
        law_step_keeps_invariant(
            run(SubscriberState::initial(blocklist), ops.drop_last()),
            ops.last(),
        );
    }
}

/// Single assignment: a source account that is carried stands in the filter
/// set of the credential that the index names for it, and in no other; and
/// the filter set of a credential holds the accounts that the index gives
/// it, and no others.
pub proof fn law_single_assignment(s: SubscriberState)
    requires
        s.inv(),
    ensures
        forall|a: i64, h: u128|
            s.account_credential.contains_key(a) && s.credentials.contains_key(h) ==> (
            #[trigger] s.credentials[h].follows.contains(a) <==> h == s.account_credential[a]),
        forall|h: u128| #[trigger]
            s.credentials.contains_key(h) ==> s.credentials[h].follows.to_set() == Set::new(
                |a: i64| s.account_credential.contains_key(a) && s.account_credential[a] == h,
            ),
        forall|a: i64|
            s.account_credential.contains_key(a) ==> #[trigger] s.tenants_of(a).len() > 0,
        forall|h: u128| #[trigger]
            s.credentials.contains_key(h) ==> s.credentials[h].follows.no_duplicates(),
        forall|a: i64| #[trigger]
            s.account_credential.contains_key(a) <==> exists|h: u128|
                s.credentials.contains_key(h) && #[trigger] s.credentials[h].follows.contains(a),
        forall|h: u128| #[trigger]
            s.credentials.contains_key(h) ==> spec_token_hash(s.credentials[h].token) == h,
{
    assert forall|a: i64| #[trigger]
        s.account_credential.contains_key(a) <==> exists|h: u128|
            s.credentials.contains_key(h) && #[trigger] s.credentials[h].follows.contains(a) by {
        if s.account_credential.contains_key(a) {
            let h = s.account_credential[a];
            assert(s.credentials.contains_key(h) && s.credentials[h].follows.contains(a));
        }
    }
    assert forall|h: u128| #[trigger] s.credentials.contains_key(h) implies s.credentials[h].follows.to_set()
        == Set::new(
        |a: i64| s.account_credential.contains_key(a) && s.account_credential[a] == h,
    ) by {
        let image = Set::new(
            |a: i64| s.account_credential.contains_key(a) && s.account_credential[a] == h,
        );
        assert forall|a: i64| s.credentials[h].follows.to_set().contains(a) <==> image.contains(
            a,
        ) by {
            if image.contains(a) {
                assert(s.credentials[s.account_credential[a]].follows.contains(a));
            }
        }
        assert(s.credentials[h].follows.to_set() =~= image);
    }
    assert forall|a: i64| s.account_credential.contains_key(a) implies #[trigger] s.tenants_of(
        a,
    ).len() > 0 by {
        assert(s.account_tenants.contains_key(a));
    }
}

/// Reachability: whoever is subscribed to a source account finds it in the
/// filter set of some credential.
pub proof fn law_reachability(s: SubscriberState, tenant: i64, account: i64)
    requires
        s.inv(),
        s.subscribed(tenant, account),
    ensures
        s.account_credential.contains_key(account),
        s.credentials.contains_key(s.account_credential[account]),
        s.credentials[s.account_credential[account]].follows.contains(account),
{
    assert(s.tenants_of(account).contains(tenant));
    assert(s.account_tenants.contains_key(account));
}

/// The filter sets differ in size by at most one.
pub open spec fn balanced(s: SubscriberState) -> bool {
    forall|i: int, j: int|
        0 <= i < s.order.len() && 0 <= j < s.order.len() ==> #[trigger] s.load_at(i)
            <= #[trigger] s.load_at(j) + 1
}

/// A new account goes to the least loaded credential, so a subscription
/// keeps the filter sets balanced.
pub proof fn law_subscription_keeps_balance(
    s: SubscriberState,
    tenant: i64,
    account: i64,
    from: i64,
)
    requires
        s.inv(),
        s.order.len() > 0,
        balanced(s),
    ensures
        balanced(s.add_follow(tenant, account, from)),
{
    let n = s.add_follow(tenant, account, from);
    lemma_least_loaded_exists(s);
    let k = choose|k: int| s.is_least_loaded(k);
    let h = s.order[k];
    assert forall|i: int, j: int| 0 <= i < n.order.len() && 0 <= j < n.order.len() implies #[trigger] n.load_at(
        i,
    ) <= #[trigger] n.load_at(j) + 1 by {
        assert(s.load_at(i) <= s.load_at(j) + 1);
        assert(s.load_at(k) <= s.load_at(i));
        assert(s.load_at(k) <= s.load_at(j));
        assert(s.load_at(i) <= s.load_at(k) + 1);
        assert(s.order.contains(s.order[i]));
        assert(s.order.contains(s.order[j]));
        if s.account_credential.contains_key(account) {
            assert(n.load_at(i) == s.load_at(i));
            assert(n.load_at(j) == s.load_at(j));
        } else {
            if s.order[i] == h {
                assert(i == k);
                assert(n.load_at(i) == s.load_at(k) + 1);
            } else {
                assert(n.load_at(i) == s.load_at(i));
            }
            if s.order[j] == h {
                assert(j == k);
                assert(n.load_at(j) == s.load_at(k) + 1);
            } else {
                assert(n.load_at(j) == s.load_at(j));
            }
        }
    }
}

/// The state after the subscriptions `requests`, first to last; each names
/// the tenant, the source account, and the account on whose behalf it is
/// made.
pub open spec fn subscribe_all(
    s: SubscriberState,
    requests: Seq<(i64, i64, i64)>,
) -> SubscriberState
    decreases requests.len(),
{
    if requests.len() == 0 {
        s
    } else {
        let before = subscribe_all(s, requests.drop_last());
        before.add_follow(requests.last().0, requests.last().1, requests.last().2)
    }
}

/// Balance: starting from credentials that watch nothing, any number of
/// subscriptions leaves filter sets whose sizes differ by at most one.
pub proof fn law_balance(s: SubscriberState, requests: Seq<(i64, i64, i64)>)
    requires
        s.inv(),
        s.order.len() > 0,
        forall|i: int| 0 <= i < s.order.len() ==> #[trigger] s.load_at(i) == 0,
    ensures
        subscribe_all(s, requests).inv(),
        subscribe_all(s, requests).order == s.order,
        balanced(subscribe_all(s, requests)),
    decreases requests.len(),
{
    if requests.len() > 0 {
        law_balance(s, requests.drop_last());
        let before = subscribe_all(s, requests.drop_last());
        lemma_add_follow_inv(before, requests.last().0, requests.last().1, requests.last().2);
        law_subscription_keeps_balance(
            before,
            requests.last().0,
            requests.last().1,
            requests.last().2,
        );
    }
}

/// A subscription to a source account that nobody carries grows one filter
/// set, that of the least loaded credential, by that one account, and
/// leaves every other credential as it was; the token that is returned for
/// the rebalance is the token of that credential, so that the rebalance
/// reaches it. A subscription to a source account that is carried changes
/// no filter set and returns no token.
pub proof fn law_subscription_grows_one_filter_set(
    s: SubscriberState,
    tenant: i64,
    account: i64,
    from: i64,
)
    requires
        s.inv(),
        s.order.len() > 0,
    ensures
        ({
            let n = s.add_follow(tenant, account, from);
            let h = s.pick_least_loaded();
            &&& n.order == s.order
            &&& n.credentials.dom() == s.credentials.dom()
            &&& s.account_credential.contains_key(account) ==> {
                &&& n.credentials == s.credentials
                &&& n.account_credential == s.account_credential
                &&& s.add_follow_token(account).len() == 0
            }
            &&& !s.account_credential.contains_key(account) ==> {
                &&& s.credentials.contains_key(h)
                &&& n.credentials[h].follows == s.credentials[h].follows.push(account)
                &&& forall|x: u128|
                    s.credentials.contains_key(x) && x != h ==> #[trigger] n.credentials[x]
                        == s.credentials[x]
                &&& n.account_credential == s.account_credential.insert(account, h)
                &&& s.add_follow_token(account) == s.credentials[h].token
                &&& s.add_follow_token(account).len() > 0
                &&& spec_token_hash(s.add_follow_token(account)) == h
                &&& n.session_filter(h) == Some(s.credentials[h].follows.push(account))
            }
        }),
{
    let n = s.add_follow(tenant, account, from);
    lemma_least_loaded_exists(s);
    let h = s.pick_least_loaded();
    assert(s.credentials.contains_key(h));
    if s.account_credential.contains_key(account) {
        assert(n.credentials.dom() =~= s.credentials.dom());
    } else {
        assert(n.credentials.dom() =~= s.credentials.dom());
        assert(s.credentials[h].follows.push(account).len() > 0);
    }
}

/// Single assignment is kept by a subscription: afterwards the invariant
/// holds, the source account is carried, and the tenant is one of its
/// subscribers.
pub proof fn law_subscription_keeps_single_assignment(
    s: SubscriberState,
    tenant: i64,
    account: i64,
    from: i64,
)
    requires
        s.inv(),
        s.order.len() > 0,
    ensures
        s.add_follow(tenant, account, from).inv(),
        s.add_follow(tenant, account, from).account_credential.contains_key(account),
        s.add_follow(tenant, account, from).subscribed(tenant, account),
        s.add_follow(tenant, account, from).tenants_of(account).contains(tenant),
{
    let n = s.add_follow(tenant, account, from);
    lemma_add_follow_inv(s, tenant, account, from);
    assert(n.subscribed(tenant, account));
}

/// The source accounts that `requests` name, in their order.
pub open spec fn accounts_of(requests: Seq<(i64, i64, i64)>) -> Seq<i64> {
    requests.map_values(|r: (i64, i64, i64)| r.1)
}

/// Coalescing: with one credential registered, subscriptions to source
/// accounts that nobody carries and that differ from one another all go to
/// that credential, in their order; each returns its token; and a session
/// planned afterwards is pinned to all of them, whatever the number of
/// rebalances that were asked for on the way.
pub proof fn law_one_credential_takes_all(
    s: SubscriberState,
    h: u128,
    requests: Seq<(i64, i64, i64)>,
)
    requires
        s.inv(),
        s.order == seq![h],
        accounts_of(requests).no_duplicates(),
        forall|i: int|
            0 <= i < requests.len() ==> !s.account_credential.contains_key(
                #[trigger] accounts_of(requests)[i],
            ),
    ensures
        ({
            let n = subscribe_all(s, requests);
            &&& n.inv()
            &&& n.order == s.order
            &&& n.credentials.contains_key(h)
            &&& n.credentials[h].token == s.credentials[h].token
            &&& n.credentials[h].follows == s.credentials[h].follows + accounts_of(requests)
            &&& n.account_credential.dom() == s.account_credential.dom().union(
                accounts_of(requests).to_set(),
            )
            &&& requests.len() > 0 ==> n.session_filter(h) == Some(
                s.credentials[h].follows + accounts_of(requests),
            )
            &&& requests.len() > 0 ==> subscribe_all(s, requests.drop_last()).add_follow_token(
                requests.last().1,
            ) == s.credentials[h].token
        }),
    decreases requests.len(),
{
    let n = subscribe_all(s, requests);
    let all = accounts_of(requests);
    assert(seq![h][0] == h);
    assert(s.order.contains(h));
    assert(s.credentials.contains_key(h));
    if requests.len() == 0 {
        assert(all =~= Seq::<i64>::empty());
        assert(s.credentials[h].follows + all =~= s.credentials[h].follows);
        assert(s.account_credential.dom().union(all.to_set()) =~= s.account_credential.dom());
    } else {
        let fewer = requests.drop_last();
        let earlier = accounts_of(fewer);
        let account = requests.last().1;
        let last = requests.len() - 1;
        assert(earlier =~= all.drop_last());
        assert(all[last] == account);
        assert forall|i: int, j: int|
            0 <= i < earlier.len() && 0 <= j < earlier.len() && i != j implies earlier[i]
            != earlier[j] by {
            assert(earlier[i] == all[i] && earlier[j] == all[j]);
        }
        assert forall|i: int| 0 <= i < fewer.len() implies !s.account_credential.contains_key(
            #[trigger] accounts_of(fewer)[i],
        ) by {
            assert(accounts_of(fewer)[i] == all[i]);
        }
        law_one_credential_takes_all(s, h, fewer);
        let before = subscribe_all(s, fewer);
        assert(!earlier.contains(account)) by {
            if earlier.contains(account) {
                let i = choose|i: int| 0 <= i < earlier.len() && earlier[i] == account;
                assert(all[i] == account);
            }
        }
        assert(!s.account_credential.contains_key(account)) by {
            assert(accounts_of(requests)[last] == account);
        }
        assert(!before.account_credential.contains_key(account)) by {
            assert(!before.account_credential.dom().contains(account));
        }
        law_subscription_grows_one_filter_set(
            before,
            requests.last().0,
            account,
            requests.last().2,
        );
        lemma_add_follow_inv(before, requests.last().0, account, requests.last().2);
        let picked = before.pick_least_loaded();
        assert(before.order.contains(picked));
        assert(picked == h);
        assert(all =~= earlier.push(account));
        assert(s.credentials[h].follows + all =~= (s.credentials[h].follows + earlier).push(
            account,
        ));
        assert(n.account_credential.dom() =~= s.account_credential.dom().union(all.to_set())) by {
            assert forall|a: i64|
                n.account_credential.dom().contains(a) <==> s.account_credential.dom().union(
                    all.to_set(),
                ).contains(a) by {
                if earlier.contains(a) {
                    let i = choose|i: int| 0 <= i < earlier.len() && earlier[i] == a;
                    assert(all[i] == a);
                }
                if all.contains(a) && a != account {
                    let i = choose|i: int| 0 <= i < all.len() && all[i] == a;
                    assert(earlier[i] == a);
                }
            }
        }
    }
}

/// When the last subscriber of a source account leaves, the account leaves
/// the filter set of the credential that carried it and no other filter set
/// changes; the token that is returned for the rebalance is the token of
/// that credential, so that the rebalance reaches it.
pub proof fn law_unsubscription_names_credential(s: SubscriberState, tenant: i64, account: i64)
    requires
        s.inv(),
        s.is_last_subscriber(tenant, account),
    ensures
        ({
            let h = s.account_credential[account];
            let n = s.remove_follow(tenant, account);
            &&& s.credentials.contains_key(h)
            &&& spec_token_hash(s.remove_follow_token(tenant, account)) == h
            &&& s.remove_follow_token(tenant, account).len() > 0
            &&& n.credentials[h].follows == s.credentials[h].follows.remove_value(account)
            &&& !n.credentials[h].follows.contains(account)
            &&& !n.account_credential.contains_key(account)
            &&& forall|x: u128|
                s.credentials.contains_key(x) && x != h ==> #[trigger] n.credentials[x]
                    == s.credentials[x]
        }),
{
    let h = s.account_credential[account];
    assert(seq![tenant][0] == tenant);
    assert(s.tenants_of(account).contains(tenant));
    assert(s.account_tenants.contains_key(account));
    assert(s.account_credential.contains_key(account));
    assert(s.credentials.contains_key(h));
    lemma_remove_value_distinct(s.account_tenants[account], tenant);
    assert(s.credentials[h].follows.contains(account));
    lemma_remove_value_distinct(s.credentials[h].follows, account);
}

/// After the only credential is removed, no credential is registered: a
/// subscription, whoever makes it and to whatever account, is refused and
/// changes nothing. Once a credential is registered again, the registry is
/// not empty and subscriptions are accepted.
pub proof fn law_no_credential_after_removal(
    s: SubscriberState,
    h: u128,
    tenant: i64,
    account: i64,
    from: i64,
    user_id: i64,
    token: Seq<char>,
)
    requires
        s.inv(),
        s.order == seq![h],
    ensures
        ({
            let n = s.remove_token(h);
            &&& n.inv()
            &&& n.order.len() == 0
            &&& n.credentials.dom() == Set::<u128>::empty()
            &&& n.account_credential.dom() == Set::<i64>::empty()
            &&& step(n, Operation::AddSubscription { tenant, account, from }) == n
            &&& token.len() > 0 ==> n.add_token(user_id, token).order.len() > 0
            &&& token.len() > 0 ==> n.add_token(user_id, token).add_follow(
                tenant,
                account,
                from,
            ).account_credential.contains_key(account)
        }),
{
    let n = s.remove_token(h);
    assert(seq![h][0] == h);
    assert(s.order.contains(h));
    assert(s.credentials.contains_key(h));
    lemma_remove_token_inv(s, h);
    lemma_remove_value_distinct(s.order, h);
    assert forall|x: u128| !n.credentials.contains_key(x) by {
        if n.credentials.contains_key(x) {
            assert(n.order.contains(x));
        }
    }
    assert(n.credentials.dom() =~= Set::<u128>::empty());
    assert forall|a: i64| !n.account_credential.contains_key(a) by {
        if n.account_credential.contains_key(a) {
            assert(n.credentials.contains_key(n.account_credential[a]));
        }
    }
    assert(n.account_credential.dom() =~= Set::<i64>::empty());
    if token.len() > 0 {
        let m = n.add_token(user_id, token);
        lemma_add_token_inv(n, user_id, token);
        assert(m.order =~= seq![spec_token_hash(token)]);
        law_subscription_keeps_single_assignment(m, tenant, account, from);
    }
}

/// Termination: when the last subscriber of the only source account of a
/// credential leaves, the filter set of that credential is empty, its session
/// handle is used up, its token is returned for a rebalance, and that
/// rebalance ends the worker instead of opening a stream.
pub proof fn law_last_unsubscribe_ends_worker(s: SubscriberState, tenant: i64, account: i64)
    requires
        s.inv(),
        s.is_last_subscriber(tenant, account),
        s.credentials[s.account_credential[account]].follows == seq![account],
    ensures
        ({
            let h = s.account_credential[account];
            let n = s.remove_follow(tenant, account);
            &&& n.credentials.contains_key(h)
            &&& n.credentials[h].follows.len() == 0
            &&& !n.credentials[h].session
            &&& s.remove_follow_token(tenant, account) == s.credentials[h].token
            &&& s.remove_follow_token(tenant, account).len() > 0
            &&& n.session_filter(h) is None
            &&& !n.begin_session(h).credentials[h].session
        }),
{
    let h = s.account_credential[account];
    assert(seq![tenant][0] == tenant);
    assert(s.tenants_of(account).contains(tenant));
    assert(s.account_tenants.contains_key(account));
    assert(s.account_credential.contains_key(account));
    assert(s.credentials.contains_key(h));
    let had = s.account_tenants[account];
    lemma_remove_value_distinct(had, tenant);
    assert(seq![account][0] == account);
    assert(s.credentials[h].follows.contains(account));
    lemma_remove_value_distinct(s.credentials[h].follows, account);
}

/// Termination, seen from the worker: after the last subscriber of the only
/// source account of a credential has left, the worker of that credential,
/// whatever it was doing, has ended once the rebalance that the removal asks
/// for is drained and the session, if one was open, is torn down.
pub proof fn law_worker_ends_within_one_rebalance(
    s: SubscriberState,
    tenant: i64,
    account: i64,
    state: SessionState,
)
    requires
        s.inv(),
        s.is_last_subscriber(tenant, account),
        s.credentials[s.account_credential[account]].follows == seq![account],
    ensures
        ({
            let h = s.account_credential[account];
            let n = s.remove_follow(tenant, account);
            let watching = n.session_filter(h) is Some;
            session_run(
                state,
                seq![SessionEvent::Rebalance { watching }, SessionEvent::Drained { watching }],
            ) == SessionState::Terminated
        }),
{
    law_last_unsubscribe_ends_worker(s, tenant, account);
    law_unwatched_worker_ends(state);
}

/// Block semantics: a tweet goes to a tenant exactly when the tenant is one
/// of the subscribers asked about, its delivery was not on record, and its
/// blocks let the tweet through.
pub proof fn law_recipients(
    s: SubscriberState,
    tenants: Seq<i64>,
    hits: Seq<bool>,
    author: i64,
    retweet_of: i64,
    tenant: i64,
)
    ensures
        spec_recipients(s, tenants, hits, author, retweet_of).contains(tenant) <==> (exists|i: int|
            0 <= i < tenants.len() && #[trigger] tenants[i] == tenant && !was_hit(hits, i)
                && passes_blocklist(s, tenant, author, retweet_of)),
    decreases tenants.len(),
{
    let all = spec_recipients(s, tenants, hits, author, retweet_of);
    if tenants.len() > 0 {
        let last = tenants.len() - 1;
        let shorter = tenants.drop_last();
        let before = spec_recipients(s, shorter, hits, author, retweet_of);
        law_recipients(s, shorter, hits, author, retweet_of, tenant);
        let taken = !was_hit(hits, last) && passes_blocklist(s, tenants[last], author, retweet_of);
        if all.contains(tenant) {
            let k = choose|k: int| 0 <= k < all.len() && all[k] == tenant;
            if taken && k == before.len() {
                assert(tenants[last] == tenant);
            } else {
                assert(before[k] == tenant);
                assert(before.contains(tenant));
                let i = choose|i: int|
                    0 <= i < shorter.len() && #[trigger] shorter[i] == tenant && !was_hit(hits, i)
                        && passes_blocklist(s, tenant, author, retweet_of);
                assert(tenants[i] == tenant);
            }
        }
        if exists|i: int|
            0 <= i < tenants.len() && #[trigger] tenants[i] == tenant && !was_hit(hits, i)
                && passes_blocklist(s, tenant, author, retweet_of) {
            let i = choose|i: int|
                0 <= i < tenants.len() && #[trigger] tenants[i] == tenant && !was_hit(hits, i)
                    && passes_blocklist(s, tenant, author, retweet_of);
            if i == last {
                assert(all == before.push(tenant));
                assert(all[before.len() as int] == tenant);
            } else {
                assert(shorter[i] == tenant);
                assert(before.contains(tenant));
                let k = choose|k: int| 0 <= k < before.len() && before[k] == tenant;
                assert(all[k] == tenant);
            }
        }
    }
}

/// Block semantics, where no delivery is on record: a retweet by `author` of
/// `retweet_of` goes to a tenant exactly when the tenant is a subscriber of
/// `author` and has neither `retweet_of` blocked (kind 2) nor the retweets of
/// `author` (kind 1); a tweet that is no retweet goes to every subscriber of
/// `author`, whatever the blocks.
pub proof fn law_block_semantics(
    s: SubscriberState,
    hits: Seq<bool>,
    author: i64,
    retweet_of: i64,
    tenant: i64,
)
    requires
        forall|i: int| !was_hit(hits, i),
    ensures
        retweet_of != 0 ==> (spec_recipients(
            s,
            s.tenants_of(author),
            hits,
            author,
            retweet_of,
        ).contains(tenant) <==> s.tenants_of(author).contains(tenant) && !s.blocked(
            tenant,
            retweet_of,
            2,
        ) && !s.blocked(tenant, author, 1)),
        retweet_of == 0 ==> (spec_recipients(
            s,
            s.tenants_of(author),
            hits,
            author,
            retweet_of,
        ).contains(tenant) <==> s.tenants_of(author).contains(tenant)),
{
    let tenants = s.tenants_of(author);
    law_recipients(s, tenants, hits, author, retweet_of, tenant);
    if tenants.contains(tenant) && passes_blocklist(s, tenant, author, retweet_of) {
        let i = choose|i: int| 0 <= i < tenants.len() && tenants[i] == tenant;
        assert(!was_hit(hits, i));
        assert(tenants[i] == tenant);
    }
}

/// Dedupe: a tenant whose delivery was found on record is not among the
/// recipients, and no tenant is a recipient twice.
pub proof fn law_dedupe(
    s: SubscriberState,
    tenants: Seq<i64>,
    hits: Seq<bool>,
    author: i64,
    retweet_of: i64,
)
    requires
        tenants.no_duplicates(),
    ensures
        spec_recipients(s, tenants, hits, author, retweet_of).no_duplicates(),
        forall|i: int|
            0 <= i < tenants.len() && was_hit(hits, i) ==> !spec_recipients(
                s,
                tenants,
                hits,
                author,
                retweet_of,
            ).contains(#[trigger] tenants[i]),
    decreases tenants.len(),
{
    let all = spec_recipients(s, tenants, hits, author, retweet_of);
    assert forall|i: int| 0 <= i < tenants.len() && was_hit(hits, i) implies !all.contains(
        #[trigger] tenants[i],
    ) by {
        law_recipients(s, tenants, hits, author, retweet_of, tenants[i]);
        if all.contains(tenants[i]) {
            let j = choose|j: int|
                0 <= j < tenants.len() && #[trigger] tenants[j] == tenants[i] && !was_hit(hits, j)
                    && passes_blocklist(s, tenants[i], author, retweet_of);
            assert(j == i);
        }
    }
    if tenants.len() > 0 {
        let last = tenants.len() - 1;
        let shorter = tenants.drop_last();
        let before = spec_recipients(s, shorter, hits, author, retweet_of);
        law_dedupe(s, shorter, hits, author, retweet_of);
        law_recipients(s, shorter, hits, author, retweet_of, tenants[last]);
        if before.contains(tenants[last]) {
            let j = choose|j: int|
                0 <= j < shorter.len() && #[trigger] shorter[j] == tenants[last] && !was_hit(
                    hits,
                    j,
                ) && passes_blocklist(s, tenants[last], author, retweet_of);
            assert(tenants[j] == tenants[last]);
        }
    }
}

/// The answers `hits` are those of a history that held `keys` and in which
/// no record expires while the deliveries of `url` to `tenants` are looked
/// up in turn: a delivery is found exactly when it was on record before or
/// an earlier lookup put it there.
pub open spec fn hits_exact(
    keys: Set<u128>,
    tenants: Seq<i64>,
    url: Seq<char>,
    hits: Seq<bool>,
) -> bool {
    &&& hits.len() == tenants.len()
    &&& forall|i: int|
        0 <= i < hits.len() ==> (#[trigger] hits[i] <==> keys.union(
            fingerprints(tenants, url, i),
        ).contains(spec_fingerprint(tenants[i], url)))
}

/// Dedupe within the lifetime: while no record expires, a tenant whose
/// delivery of an address is on record when a tweet with that address is
/// routed is no recipient of it, and no tenant is a recipient twice.
pub proof fn law_dedupe_within_lifetime(
    s: SubscriberState,
    tenants: Seq<i64>,
    url: Seq<char>,
    keys: Set<u128>,
    hits: Seq<bool>,
    author: i64,
    retweet_of: i64,
    tenant: i64,
)
    requires
        hits_exact(keys, tenants, url, hits),
    ensures
        keys.contains(spec_fingerprint(tenant, url)) ==> !spec_recipients(
            s,
            tenants,
            hits,
            author,
            retweet_of,
        ).contains(tenant),
        spec_recipients(s, tenants, hits, author, retweet_of).no_duplicates(),
    decreases tenants.len(),
{
    let all = spec_recipients(s, tenants, hits, author, retweet_of);
    law_recipients(s, tenants, hits, author, retweet_of, tenant);
    if keys.contains(spec_fingerprint(tenant, url)) && all.contains(tenant) {
        let i = choose|i: int|
            0 <= i < tenants.len() && #[trigger] tenants[i] == tenant && !was_hit(hits, i)
                && passes_blocklist(s, tenant, author, retweet_of);
        assert(hits[i]);
    }
    if tenants.len() > 0 {
        let last = tenants.len() - 1;
        let shorter = tenants.drop_last();
        let fewer = hits.drop_last();
        let before = spec_recipients(s, shorter, hits, author, retweet_of);
        assert(hits_exact(keys, shorter, url, fewer)) by {
            assert forall|i: int| 0 <= i < fewer.len() implies (#[trigger] fewer[i] <==> keys.union(
                fingerprints(shorter, url, i),
            ).contains(spec_fingerprint(shorter[i], url))) by {
                assert(fewer[i] == hits[i]);
                assert(fingerprints(shorter, url, i) =~= fingerprints(tenants, url, i)) by {
                    assert forall|k: u128|
                        fingerprints(shorter, url, i).contains(k) <==> fingerprints(
                            tenants,
                            url,
                            i,
                        ).contains(k) by {
                        if fingerprints(shorter, url, i).contains(k) {
                            let j = choose|j: int|
                                0 <= j < i && k == #[trigger] spec_fingerprint(shorter[j], url);
                            assert(k == spec_fingerprint(tenants[j], url));
                        }
                        if fingerprints(tenants, url, i).contains(k) {
                            let j = choose|j: int|
                                0 <= j < i && k == #[trigger] spec_fingerprint(tenants[j], url);
                            assert(k == spec_fingerprint(shorter[j], url));
                        }
                    }
                }
            }
        }
        lemma_recipients_ignore_later_answers(s, shorter, hits, fewer, author, retweet_of);
        law_dedupe_within_lifetime(s, shorter, url, keys, fewer, author, retweet_of, tenants[last]);
        law_recipients(s, shorter, hits, author, retweet_of, tenants[last]);
        if before.contains(tenants[last]) && !was_hit(hits, last) {
            let j = choose|j: int|
                0 <= j < shorter.len() && #[trigger] shorter[j] == tenants[last] && !was_hit(
                    hits,
                    j,
                ) && passes_blocklist(s, tenants[last], author, retweet_of);
            assert(fingerprints(tenants, url, last).contains(
                spec_fingerprint(tenants[j], url),
            ));
            assert(hits[last]);
        }
    }
}

/// The recipients among `tenants` depend on the answers for `tenants` only.
proof fn lemma_recipients_ignore_later_answers(
    s: SubscriberState,
    tenants: Seq<i64>,
    hits: Seq<bool>,
    fewer: Seq<bool>,
    author: i64,
    retweet_of: i64,
)
    requires
        forall|i: int| 0 <= i < tenants.len() ==> was_hit(hits, i) == was_hit(fewer, i),
    ensures
        spec_recipients(s, tenants, hits, author, retweet_of) == spec_recipients(
            s,
            tenants,
            fewer,
            author,
            retweet_of,
        ),
    decreases tenants.len(),
{
    if tenants.len() > 0 {
        lemma_recipients_ignore_later_answers(
            s,
            tenants.drop_last(),
            hits,
            fewer,
            author,
            retweet_of,
        );
    }
}

/// Dedupe across routings: once a tweet has been routed, the delivery of
/// its address to every subscriber of its author is on record, whether the
/// subscriber was a recipient or not.
pub proof fn law_routing_records_every_subscriber(
    s: SubscriberState,
    m: StreamMessage,
    now: i64,
    before: Set<u128>,
    after: Set<u128>,
    r: Option<Forward>,
    tenant: i64,
)
    requires
        forwarded_at(s, m, now, before, after, r),
        r is Some,
    ensures
        m is Tweet,
        before.subset_of(after),
        s.tenants_of(m->Tweet_0.user.id).contains(tenant) ==> after.contains(
            spec_fingerprint(tenant, m->Tweet_0.canonical_url()),
        ),
{
    let t = m->Tweet_0;
    let tenants = s.tenants_of(t.user.id);
    if tenants.contains(tenant) {
        let i = choose|i: int| 0 <= i < tenants.len() && tenants[i] == tenant;
        assert(fingerprints(tenants, t.canonical_url(), tenants.len() as int).contains(
            spec_fingerprint(tenants[i], t.canonical_url()),
        ));
    }
}

/// Dedupe, for the subscribers of an account: the list that a tweet is routed
/// over names nobody twice.
pub proof fn law_subscribers_distinct(s: SubscriberState, account: i64)
    requires
        s.inv(),
    ensures
        s.tenants_of(account).no_duplicates(),
{
    if s.account_tenants.contains_key(account) {
        assert(s.account_tenants[account].no_duplicates());
    }
}

} // verus!
