use crate::digest::spec_token_hash;
use crate::model::SubscriberState;
use vstd::prelude::*;

verus! {

/// Among the first `n` credentials of the order there is one that no other of
/// them undercuts and that every earlier one exceeds.
pub proof fn lemma_least_loaded_prefix(s: SubscriberState, n: int) -> (i: int)
    requires
        0 < n <= s.order.len(),
    ensures
        0 <= i < n,
        forall|j: int| 0 <= j < n ==> s.load_at(i) <= #[trigger] s.load_at(j),
        forall|j: int| 0 <= j < i ==> s.load_at(i) < #[trigger] s.load_at(j),
    decreases n,
{
    if n == 1 {
        0
    } else {
        let k = lemma_least_loaded_prefix(s, n - 1);
        if s.load_at(n - 1) < s.load_at(k) {
            n - 1
        } else {
            k
        }
    }
}

/// A registry that is not empty has a least loaded credential.
pub proof fn lemma_least_loaded_exists(s: SubscriberState)
    requires
        s.order.len() > 0,
    ensures
        s.is_least_loaded(choose|i: int| s.is_least_loaded(i)),
        s.order.contains(s.pick_least_loaded()),
{
    let i = lemma_least_loaded_prefix(s, s.order.len() as int);
    assert(s.is_least_loaded(i));
}

/// There is only one least loaded position.
pub proof fn lemma_least_loaded_unique(s: SubscriberState, i: int, j: int)
    requires
        s.is_least_loaded(i),
        s.is_least_loaded(j),
    ensures
        i == j,
{
    if i < j {
        assert(s.load_at(j) < s.load_at(i));
        assert(s.load_at(i) <= s.load_at(j));
    } else if j < i {
        assert(s.load_at(i) < s.load_at(j));
        assert(s.load_at(j) <= s.load_at(i));
    }
}

/// The state without credentials and subscriptions meets the invariant.
pub proof fn lemma_initial_inv(blocklist: Map<i64, Set<(i64, i32)>>)
    ensures
        SubscriberState::initial(blocklist).inv(),
{
    let s = SubscriberState::initial(blocklist);
    assert forall|t: i64, a: i64| s.subscribed(t, a) <==> #[trigger] s.tenants_of(a).contains(
        t,
    ) by {}
}

/// Registering a credential keeps the invariant.
pub proof fn lemma_add_token_inv(s: SubscriberState, user_id: i64, token: Seq<char>)
    requires
        s.inv(),
        token.len() > 0,
    ensures
        s.add_token(user_id, token).inv(),
{
    let hash = spec_token_hash(token);
    let n = s.add_token(user_id, token);
    if !s.credentials.contains_key(hash) {
        assert(n.order[0] == hash);
        assert forall|i: int| 1 <= i < n.order.len() implies n.order[i] == s.order[i - 1] by {}
        assert forall|i: int, j: int|
            0 <= i < n.order.len() && 0 <= j < n.order.len() && i != j implies n.order[i]
            != n.order[j] by {
            if i > 0 {
                assert(s.order.contains(s.order[i - 1]));
            }
            if j > 0 {
                assert(s.order.contains(s.order[j - 1]));
            }
        }
        assert forall|h: u128| n.credentials.contains_key(h) <==> n.order.contains(h) by {
            if n.order.contains(h) {
                let i = choose|i: int| 0 <= i < n.order.len() && n.order[i] == h;
                if i > 0 {
                    assert(s.order[i - 1] == h);
                }
            }
            if s.order.contains(h) {
                let i = choose|i: int| 0 <= i < s.order.len() && s.order[i] == h;
                assert(n.order[i + 1] == h);
            }
        }
        assert forall|t: i64, a: i64| n.subscribed(t, a) <==> #[trigger] n.tenants_of(a).contains(
            t,
        ) by {
            assert(n.tenants_of(a) == s.tenants_of(a));
            assert(n.subscribed(t, a) == s.subscribed(t, a));
        }
    }
}

/// Subscribing keeps the invariant.
pub proof fn lemma_add_follow_inv(s: SubscriberState, tenant: i64, account: i64, from: i64)
    requires
        s.inv(),
        s.order.len() > 0,
    ensures
        s.add_follow(tenant, account, from).inv(),
{
    let n = s.add_follow(tenant, account, from);
    lemma_least_loaded_exists(s);
    if s.account_credential.contains_key(account) {
        let had = s.account_tenants[account];
        assert forall|a: i64| #[trigger] n.account_tenants.contains_key(a) implies {
            &&& n.account_tenants[a].len() > 0
            &&& n.account_tenants[a].no_duplicates()
        } by {
            assert(s.account_tenants.contains_key(a));
        }
        assert forall|t: i64, a: i64| n.subscribed(t, a) <==> #[trigger] n.tenants_of(a).contains(
            t,
        ) by {
            assert(s.subscribed(t, a) <==> s.tenants_of(a).contains(t));
            if a == account {
                if had.contains(tenant) {
                    assert(n.tenants_of(a) == had);
                } else {
                    assert(n.tenants_of(a) == had.push(tenant));
                    assert(had.push(tenant)[had.len() as int] == tenant);
                    if had.contains(t) {
                        let i = choose|i: int| 0 <= i < had.len() && had[i] == t;
                        assert(had.push(tenant)[i] == t);
                    }
                }
            } else {
                assert(n.tenants_of(a) == s.tenants_of(a));
            }
        }
    } else {
        let h = s.pick_least_loaded();
        let c = s.credentials[h];
        assert(s.credentials.contains_key(h));
        assert(!c.follows.contains(account));
        let grown = c.follows.push(account);
        assert(grown[c.follows.len() as int] == account);
        assert forall|x: u128| n.credentials.contains_key(x) <==> n.order.contains(x) by {}
        assert forall|x: u128| #[trigger] n.credentials.contains_key(x) implies n.credentials[x].follows.no_duplicates() by {
            assert(s.credentials.contains_key(x));
        }
        assert forall|x: u128, a: i64|
            n.credentials.contains_key(x) && #[trigger] n.credentials[x].follows.contains(
                a,
            ) implies n.account_credential.contains_key(a) && n.account_credential[a] == x by {
            if x == h {
                let i = choose|i: int| 0 <= i < grown.len() && grown[i] == a;
                if i < c.follows.len() {
                    assert(c.follows[i] == a);
                    assert(s.credentials[h].follows.contains(a));
                }
            } else {
                assert(s.credentials[x].follows.contains(a));
            }
        }
        assert forall|a: i64| #[trigger] n.account_credential.contains_key(a) implies {
            &&& n.credentials.contains_key(n.account_credential[a])
            &&& n.credentials[n.account_credential[a]].follows.contains(a)
        } by {
            if a != account {
                let x = s.account_credential[a];
                assert(s.credentials[x].follows.contains(a));
                if x == h {
                    let i = choose|i: int| 0 <= i < c.follows.len() && c.follows[i] == a;
                    assert(grown[i] == a);
                }
            }
        }
        assert forall|a: i64| #[trigger] n.account_tenants.contains_key(a) implies {
            &&& n.account_tenants[a].len() > 0
            &&& n.account_tenants[a].no_duplicates()
        } by {
            if a != account {
                assert(s.account_tenants.contains_key(a));
            }
        }
        assert forall|t: i64, a: i64| n.subscribed(t, a) <==> #[trigger] n.tenants_of(a).contains(
            t,
        ) by {
            assert(s.subscribed(t, a) <==> s.tenants_of(a).contains(t));
            if a == account {
                assert(n.tenants_of(a) == seq![tenant]);
                assert(seq![tenant][0] == tenant);
                assert(s.tenants_of(a) =~= Seq::<i64>::empty());
            } else {
                assert(n.tenants_of(a) == s.tenants_of(a));
            }
        }
    }
}

/// A sequence without duplicates, less the first occurrence of a value, has
/// no duplicates, lacks the value, and keeps every other value.
pub proof fn lemma_remove_value_distinct<T>(s: Seq<T>, v: T)
    requires
        s.no_duplicates(),
        s.contains(v),
    ensures
        s.remove_value(v).no_duplicates(),
        s.remove_value(v).len() == s.len() - 1,
        !s.remove_value(v).contains(v),
        forall|x: T| x != v ==> (s.contains(x) <==> #[trigger] s.remove_value(v).contains(x)),
{
    s.index_of_first_ensures(v);
    let i = s.index_of_first(v).unwrap();
    let r = s.remove_value(v);
    assert(r == s.remove(i));
    assert forall|a: int, b: int| 0 <= a < r.len() && 0 <= b < r.len() && a != b implies r[a]
        != r[b] by {
        let a0 = if a < i { a } else { a + 1 };
        let b0 = if b < i { b } else { b + 1 };
        assert(r[a] == s[a0] && r[b] == s[b0]);
    }
    if r.contains(v) {
        let a = choose|a: int| 0 <= a < r.len() && r[a] == v;
        let a0 = if a < i { a } else { a + 1 };
        assert(r[a] == s[a0]);
    }
    assert forall|x: T| x != v implies (s.contains(x) <==> #[trigger] r.contains(x)) by {
        if s.contains(x) {
            let a = choose|a: int| 0 <= a < s.len() && s[a] == x;
            let a1 = if a < i { a } else { a - 1 };
            assert(r[a1] == x);
        }
        if r.contains(x) {
            let a = choose|a: int| 0 <= a < r.len() && r[a] == x;
            let a0 = if a < i { a } else { a + 1 };
            assert(s[a0] == x);
        }
    }
}

/// Ending a subscription keeps the invariant.
pub proof fn lemma_remove_follow_inv(s: SubscriberState, tenant: i64, account: i64)
    requires
        s.inv(),
    ensures
        s.remove_follow(tenant, account).inv(),
{
    let n = s.remove_follow(tenant, account);
    if s.tenants_of(account).contains(tenant) {
        let had = s.account_tenants[account];
        let rest = had.remove_value(tenant);
        lemma_remove_value_distinct(had, tenant);
        assert(s.subscribed(tenant, account));
        if rest.len() > 0 {
            assert forall|a: i64| #[trigger] n.account_tenants.contains_key(a) implies {
                &&& n.account_tenants[a].len() > 0
                &&& n.account_tenants[a].no_duplicates()
            } by {
                assert(s.account_tenants.contains_key(a));
            }
            assert forall|t: i64, a: i64| n.subscribed(t, a) <==> #[trigger] n.tenants_of(
                a,
            ).contains(t) by {
                assert(s.subscribed(t, a) <==> s.tenants_of(a).contains(t));
                if a == account {
                    assert(n.tenants_of(a) == rest);
                } else {
                    assert(n.tenants_of(a) == s.tenants_of(a));
                }
            }
        } else {
            let h = s.account_credential[account];
            let c = s.credentials[h];
            assert(s.credentials.contains_key(h));
            assert(c.follows.contains(account));
            let left = c.follows.remove_value(account);
            lemma_remove_value_distinct(c.follows, account);
            assert forall|x: u128| n.credentials.contains_key(x) <==> n.order.contains(x) by {}
            assert forall|x: u128| #[trigger] n.credentials.contains_key(x) implies n.credentials[x].follows.no_duplicates() by {
                assert(s.credentials.contains_key(x));
            }
            assert forall|x: u128, a: i64|
                n.credentials.contains_key(x) && #[trigger] n.credentials[x].follows.contains(
                    a,
                ) implies n.account_credential.contains_key(a) && n.account_credential[a] == x by {
                if x == h {
                    assert(a != account);
                    assert(c.follows.contains(a));
                    assert(s.credentials[h].follows.contains(a));
                } else {
                    assert(s.credentials[x].follows.contains(a));
                }
            }
            assert forall|a: i64| #[trigger] n.account_credential.contains_key(a) implies {
                &&& n.credentials.contains_key(n.account_credential[a])
                &&& n.credentials[n.account_credential[a]].follows.contains(a)
            } by {
                let x = s.account_credential[a];
                assert(s.credentials[x].follows.contains(a));
            }
            assert forall|a: i64| #[trigger] n.account_tenants.contains_key(a) implies {
                &&& n.account_tenants[a].len() > 0
                &&& n.account_tenants[a].no_duplicates()
            } by {
                assert(s.account_tenants.contains_key(a));
            }
            assert forall|t: i64, a: i64| n.subscribed(t, a) <==> #[trigger] n.tenants_of(
                a,
            ).contains(t) by {
                assert(s.subscribed(t, a) <==> s.tenants_of(a).contains(t));
                if a == account {
                    assert(n.tenants_of(a) =~= Seq::<i64>::empty());
                    if t != tenant && had.contains(t) {
                        assert(rest.contains(t));
                    }
                } else {
                    assert(n.tenants_of(a) == s.tenants_of(a));
                }
            }
        }
    }
}

/// Removing a credential keeps the invariant.
pub proof fn lemma_remove_token_inv(s: SubscriberState, hash: u128)
    requires
        s.inv(),
    ensures
        s.remove_token(hash).inv(),
{
    let n = s.remove_token(hash);
    if s.credentials.contains_key(hash) {
        let gone = s.credentials[hash].follows.to_set();
        assert(s.order.contains(hash));
        lemma_remove_value_distinct(s.order, hash);
        assert forall|x: u128| n.credentials.contains_key(x) <==> n.order.contains(x) by {}
        assert forall|x: u128, a: i64|
            n.credentials.contains_key(x) && #[trigger] n.credentials[x].follows.contains(
                a,
            ) implies n.account_credential.contains_key(a) && n.account_credential[a] == x by {
            assert(s.credentials[x].follows.contains(a));
            if gone.contains(a) {
                assert(s.credentials[hash].follows.contains(a));
            }
        }
        assert forall|a: i64| #[trigger] n.account_credential.contains_key(a) implies {
            &&& n.credentials.contains_key(n.account_credential[a])
            &&& n.credentials[n.account_credential[a]].follows.contains(a)
        } by {
            let x = s.account_credential[a];
            assert(s.credentials[x].follows.contains(a));
            if x == hash {
                assert(gone.contains(a));
            }
        }
        assert forall|a: i64| #[trigger] n.account_tenants.contains_key(a) implies {
            &&& n.account_tenants[a].len() > 0
            &&& n.account_tenants[a].no_duplicates()
        } by {
            assert(s.account_tenants.contains_key(a));
        }
        assert forall|t: i64, a: i64| n.subscribed(t, a) <==> #[trigger] n.tenants_of(a).contains(
            t,
        ) by {
            assert(s.subscribed(t, a) <==> s.tenants_of(a).contains(t));
            if gone.contains(a) {
                assert(n.tenants_of(a) =~= Seq::<i64>::empty());
            } else {
                assert(n.tenants_of(a) == s.tenants_of(a));
            }
        }
    }
}

/// Starting a session keeps the invariant.
pub proof fn lemma_begin_session_inv(s: SubscriberState, hash: u128)
    requires
        s.inv(),
    ensures
        s.begin_session(hash).inv(),
{
    let n = s.begin_session(hash);
    if s.credentials.contains_key(hash) {
        assert forall|x: u128| n.credentials.contains_key(x) <==> n.order.contains(x) by {}
        assert forall|x: u128| #[trigger] n.credentials.contains_key(x) implies n.credentials[x].follows.no_duplicates() by {
            assert(s.credentials.contains_key(x));
        }
        assert forall|x: u128, a: i64|
            n.credentials.contains_key(x) && #[trigger] n.credentials[x].follows.contains(
                a,
            ) implies n.account_credential.contains_key(a) && n.account_credential[a] == x by {
            assert(s.credentials[x].follows.contains(a));
        }
        assert forall|a: i64| #[trigger] n.account_credential.contains_key(a) implies {
            &&& n.credentials.contains_key(n.account_credential[a])
            &&& n.credentials[n.account_credential[a]].follows.contains(a)
        } by {
            let x = s.account_credential[a];
            assert(s.credentials[x].follows.contains(a));
        }
        assert forall|t: i64, a: i64| n.subscribed(t, a) <==> #[trigger] n.tenants_of(a).contains(
            t,
        ) by {
            assert(s.subscribed(t, a) <==> s.tenants_of(a).contains(t));
            assert(n.tenants_of(a) == s.tenants_of(a));
        }
    }
}

/// Placing a block keeps the invariant.
pub proof fn lemma_block_inv(s: SubscriberState, tenant: i64, account: i64, kind: i32, from: i64)
    requires
        s.inv(),
    ensures
        s.block(tenant, account, kind, from).inv(),
{
    let n = s.block(tenant, account, kind, from);
    assert forall|t: i64, a: i64| n.subscribed(t, a) <==> #[trigger] n.tenants_of(a).contains(
        t,
    ) by {
        assert(s.subscribed(t, a) <==> s.tenants_of(a).contains(t));
        assert(n.tenants_of(a) == s.tenants_of(a));
    }
}

/// Lifting a block keeps the invariant.
pub proof fn lemma_unblock_inv(s: SubscriberState, tenant: i64, account: i64, kind: i32)
    requires
        s.inv(),
    ensures
        s.unblock(tenant, account, kind).inv(),
{
    let n = s.unblock(tenant, account, kind);
    assert forall|t: i64, a: i64| n.subscribed(t, a) <==> #[trigger] n.tenants_of(a).contains(
        t,
    ) by {
        assert(s.subscribed(t, a) <==> s.tenants_of(a).contains(t));
        assert(n.tenants_of(a) == s.tenants_of(a));
    }
}

} // verus!
