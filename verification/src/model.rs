use crate::digest::spec_token_hash;
use vstd::prelude::*;

verus! {

/// What the registry holds of one credential.
pub struct CredentialState {
    /// The tenant that authorised the credential.
    pub user_id: i64,
    /// The serialized token, handed back to whoever opens the stream.
    pub token: Seq<char>,
    /// The filter set: the source accounts this credential watches, in the
    /// order in which they were assigned.
    pub follows: Seq<i64>,
    /// Whether a cancellation handle of a running session is on record.
    pub session: bool,
}

/// The subscription manager as a mathematical value: the credential registry
/// and the indexes that bind tenants, source accounts and credentials.
pub struct SubscriberState {
    /// Fingerprint to credential.
    pub credentials: Map<u128, CredentialState>,
    /// The fingerprints, most recently added first.
    pub order: Seq<u128>,
    /// Source account to the credential that carries it.
    pub account_credential: Map<i64, u128>,
    /// Source account to its subscribers, in the order in which they joined.
    pub account_tenants: Map<i64, Seq<i64>>,
    /// Tenant to the source accounts it subscribed to.
    pub tenant_subs: Map<i64, Set<i64>>,
    /// Tenant to its blocks, each a source account and a kind.
    pub blocklist: Map<i64, Set<(i64, i32)>>,
    /// Tenant to source account to the number of follows made from its tweets.
    pub follow_count: Map<i64, Map<i64, i64>>,
    /// Tenant to source account to the number of blocks made from its tweets.
    pub block_count: Map<i64, Map<i64, i64>>,
}

/// The counter kept for `tenant` and `account`, 0 where none is kept.
pub open spec fn count_of(counts: Map<i64, Map<i64, i64>>, tenant: i64, account: i64) -> i64 {
    if counts.contains_key(tenant) && counts[tenant].contains_key(account) {
        counts[tenant][account]
    } else {
        0
    }
}

/// `counts` with the counter of `tenant` and `account` one higher; a counter
/// that was not kept starts at 1.
pub open spec fn bump(counts: Map<i64, Map<i64, i64>>, tenant: i64, account: i64) -> Map<
    i64,
    Map<i64, i64>,
> {
    let inner = if counts.contains_key(tenant) {
        counts[tenant]
    } else {
        Map::empty()
    };
    let next = if inner.contains_key(account) {
        (inner[account] + 1) as i64
    } else {
        1i64
    };
    counts.insert(tenant, inner.insert(account, next))
}

/// `subs` with `account` among the subscriptions of `tenant`.
pub open spec fn subs_with(subs: Map<i64, Set<i64>>, tenant: i64, account: i64) -> Map<
    i64,
    Set<i64>,
> {
    let had = if subs.contains_key(tenant) {
        subs[tenant]
    } else {
        Set::empty()
    };
    subs.insert(tenant, had.insert(account))
}

/// `subs` without `account` among the subscriptions of `tenant`.
pub open spec fn subs_without(subs: Map<i64, Set<i64>>, tenant: i64, account: i64) -> Map<
    i64,
    Set<i64>,
> {
    if subs.contains_key(tenant) {
        subs.insert(tenant, subs[tenant].remove(account))
    } else {
        subs
    }
}

/// `blocks` with the block `(account, kind)` of `tenant`.
pub open spec fn blocks_with(
    blocks: Map<i64, Set<(i64, i32)>>,
    tenant: i64,
    account: i64,
    kind: i32,
) -> Map<i64, Set<(i64, i32)>> {
    let had = if blocks.contains_key(tenant) {
        blocks[tenant]
    } else {
        Set::empty()
    };
    blocks.insert(tenant, had.insert((account, kind)))
}

/// `blocks` without the block `(account, kind)` of `tenant`.
pub open spec fn blocks_without(
    blocks: Map<i64, Set<(i64, i32)>>,
    tenant: i64,
    account: i64,
    kind: i32,
) -> Map<i64, Set<(i64, i32)>> {
    if blocks.contains_key(tenant) {
        blocks.insert(tenant, blocks[tenant].remove((account, kind)))
    } else {
        blocks
    }
}

impl SubscriberState {
    /// No credential, no subscription, no counter, and the given blocks.
    pub open spec fn initial(blocklist: Map<i64, Set<(i64, i32)>>) -> SubscriberState {
        SubscriberState {
            credentials: Map::empty(),
            order: Seq::empty(),
            account_credential: Map::empty(),
            account_tenants: Map::empty(),
            tenant_subs: Map::empty(),
            blocklist,
            follow_count: Map::empty(),
            block_count: Map::empty(),
        }
    }

    /// `tenant` is subscribed to `account`.
    pub open spec fn subscribed(self, tenant: i64, account: i64) -> bool {
        self.tenant_subs.contains_key(tenant) && self.tenant_subs[tenant].contains(account)
    }

    /// The subscribers of `account`, in the order in which they joined.
    pub open spec fn tenants_of(self, account: i64) -> Seq<i64> {
        if self.account_tenants.contains_key(account) {
            self.account_tenants[account]
        } else {
            Seq::empty()
        }
    }

    /// `tenant` has a block of kind `kind` on `account`.
    pub open spec fn blocked(self, tenant: i64, account: i64, kind: i32) -> bool {
        self.blocklist.contains_key(tenant) && self.blocklist[tenant].contains((account, kind))
    }

    /// The size of the filter set of the credential at position `i` of the
    /// order.
    pub open spec fn load_at(self, i: int) -> nat {
        self.credentials[self.order[i]].follows.len()
    }

    /// Position `i` holds the credential that takes the next new account: none
    /// has a smaller filter set, and every earlier one has a larger.
    pub open spec fn is_least_loaded(self, i: int) -> bool {
        &&& 0 <= i < self.order.len()
        &&& forall|j: int| 0 <= j < self.order.len() ==> self.load_at(i) <= #[trigger] self.load_at(j)
        &&& forall|j: int| 0 <= j < i ==> self.load_at(i) < #[trigger] self.load_at(j)
    }

    /// The credential with the smallest filter set; among equals the one
    /// added most recently.
    pub open spec fn pick_least_loaded(self) -> u128
        recommends
            self.order.len() > 0,
    {
        self.order[choose|i: int| self.is_least_loaded(i)]
    }

    /// The invariant that every operation keeps.
    pub open spec fn inv(self) -> bool {
        &&& self.order.no_duplicates()
        &&& forall|h: u128| self.credentials.contains_key(h) <==> self.order.contains(h)
        &&& forall|h: u128| #[trigger]
            self.credentials.contains_key(h) ==> self.credentials[h].follows.no_duplicates()
        &&& forall|h: u128, a: i64|
            self.credentials.contains_key(h) && #[trigger] self.credentials[h].follows.contains(a)
                ==> self.account_credential.contains_key(a) && self.account_credential[a] == h
        &&& forall|a: i64| #[trigger]
            self.account_credential.contains_key(a) ==> {
                &&& self.credentials.contains_key(self.account_credential[a])
                &&& self.credentials[self.account_credential[a]].follows.contains(a)
            }
        &&& forall|a: i64|
            self.account_credential.contains_key(a) <==> self.account_tenants.contains_key(a)
        &&& forall|a: i64| #[trigger]
            self.account_tenants.contains_key(a) ==> {
                &&& self.account_tenants[a].len() > 0
                &&& self.account_tenants[a].no_duplicates()
            }
        &&& forall|t: i64, a: i64|
            self.subscribed(t, a) <==> #[trigger] self.tenants_of(a).contains(t)
        &&& forall|h: u128| #[trigger]
            self.credentials.contains_key(h) ==> {
                &&& self.credentials[h].token.len() > 0
                &&& h == spec_token_hash(self.credentials[h].token)
            }
    }

    /// Registers the credential `token` of `user_id` under the fingerprint of
    /// the token, with nothing to watch and no session; it becomes the first
    /// of the order. A fingerprint that is already registered changes
    /// nothing.
    pub open spec fn add_token(self, user_id: i64, token: Seq<char>) -> SubscriberState {
        let hash = spec_token_hash(token);
        if self.credentials.contains_key(hash) {
            self
        } else {
            SubscriberState {
                credentials: self.credentials.insert(
                    hash,
                    CredentialState { user_id, token, follows: Seq::empty(), session: false },
                ),
                order: seq![hash] + self.order,
                ..self
            }
        }
    }

    /// Subscribes `tenant` to `account`, on behalf of a tweet by `from` where
    /// `from` is positive. An account that some credential carries already
    /// gains a subscriber; a new account goes to the least loaded credential.
    pub open spec fn add_follow(self, tenant: i64, account: i64, from: i64) -> SubscriberState
        recommends
            self.order.len() > 0,
    {
        let tenant_subs = subs_with(self.tenant_subs, tenant, account);
        let follow_count = if from > 0 {
            bump(self.follow_count, tenant, from)
        } else {
            self.follow_count
        };
        if self.account_credential.contains_key(account) {
            let had = self.account_tenants[account];
            SubscriberState {
                tenant_subs,
                follow_count,
                account_tenants: if had.contains(tenant) {
                    self.account_tenants
                } else {
                    self.account_tenants.insert(account, had.push(tenant))
                },
                ..self
            }
        } else {
            let h = self.pick_least_loaded();
            let c = self.credentials[h];
            SubscriberState {
                tenant_subs,
                follow_count,
                credentials: self.credentials.insert(
                    h,
                    CredentialState { follows: c.follows.push(account), ..c },
                ),
                account_credential: self.account_credential.insert(account, h),
                account_tenants: self.account_tenants.insert(account, seq![tenant]),
                ..self
            }
        }
    }

    /// The token whose stream has to be restarted after `add_follow`: that of
    /// the credential which took the account, or the empty text where the
    /// account was carried already.
    pub open spec fn add_follow_token(self, account: i64) -> Seq<char>
        recommends
            self.order.len() > 0,
    {
        if self.account_credential.contains_key(account) {
            Seq::empty()
        } else {
            self.credentials[self.pick_least_loaded()].token
        }
    }

    /// `tenant` is the only subscriber left of `account`.
    pub open spec fn is_last_subscriber(self, tenant: i64, account: i64) -> bool {
        self.tenants_of(account) == seq![tenant]
    }

    /// Ends the subscription of `tenant` to `account`. Where it was the last
    /// one, the account leaves the filter set of its credential, whose session
    /// handle is used up. A subscription that does not exist changes nothing.
    pub open spec fn remove_follow(self, tenant: i64, account: i64) -> SubscriberState {
        if !self.tenants_of(account).contains(tenant) {
            self
        } else {
            let rest = self.account_tenants[account].remove_value(tenant);
            let tenant_subs = subs_without(self.tenant_subs, tenant, account);
            if rest.len() > 0 {
                SubscriberState {
                    tenant_subs,
                    account_tenants: self.account_tenants.insert(account, rest),
                    ..self
                }
            } else {
                let h = self.account_credential[account];
                let c = self.credentials[h];
                SubscriberState {
                    tenant_subs,
                    account_tenants: self.account_tenants.remove(account),
                    account_credential: self.account_credential.remove(account),
                    credentials: self.credentials.insert(
                        h,
                        CredentialState {
                            follows: c.follows.remove_value(account),
                            session: false,
                            ..c
                        },
                    ),
                    ..self
                }
            }
        }
    }

    /// The token whose stream has to be stopped and restarted after
    /// `remove_follow`: that of the credential which lost the account, or the
    /// empty text where nothing was lost.
    pub open spec fn remove_follow_token(self, tenant: i64, account: i64) -> Seq<char> {
        if self.is_last_subscriber(tenant, account) {
            self.credentials[self.account_credential[account]].token
        } else {
            Seq::empty()
        }
    }

    /// Records a block of kind `kind` by `tenant` on `account`. A block of
    /// kind 2 counts against `from`, the account whose tweet prompted it.
    pub open spec fn block(self, tenant: i64, account: i64, kind: i32, from: i64) -> SubscriberState {
        SubscriberState {
            blocklist: blocks_with(self.blocklist, tenant, account, kind),
            block_count: if kind == 2 {
                bump(self.block_count, tenant, from)
            } else {
                self.block_count
            },
            ..self
        }
    }

    /// Lifts the block of kind `kind` by `tenant` on `account`, if there is
    /// one.
    pub open spec fn unblock(self, tenant: i64, account: i64, kind: i32) -> SubscriberState {
        SubscriberState { blocklist: blocks_without(self.blocklist, tenant, account, kind), ..self }
    }

    /// Removes the credential `hash` and with it every subscription to a
    /// source account that it carried: those accounts are carried by nobody
    /// afterwards. An unknown fingerprint changes nothing.
    pub open spec fn remove_token(self, hash: u128) -> SubscriberState {
        if !self.credentials.contains_key(hash) {
            self
        } else {
            let gone = self.credentials[hash].follows.to_set();
            SubscriberState {
                credentials: self.credentials.remove(hash),
                order: self.order.remove_value(hash),
                account_credential: self.account_credential.remove_keys(gone),
                account_tenants: self.account_tenants.remove_keys(gone),
                tenant_subs: self.tenant_subs.map_values(|s: Set<i64>| s.difference(gone)),
                ..self
            }
        }
    }

    /// The filter set that a new session of the credential `hash` is pinned
    /// to; `None` where the worker has to end instead, because the credential
    /// is unknown or has nothing to watch.
    pub open spec fn session_filter(self, hash: u128) -> Option<Seq<i64>> {
        if self.credentials.contains_key(hash) && self.credentials[hash].follows.len() > 0 {
            Some(self.credentials[hash].follows)
        } else {
            None
        }
    }

    /// Puts on record that a session of the credential `hash` was started or,
    /// where it has nothing to watch, that none is running.
    pub open spec fn begin_session(self, hash: u128) -> SubscriberState {
        if !self.credentials.contains_key(hash) {
            self
        } else {
            let c = self.credentials[hash];
            SubscriberState {
                credentials: self.credentials.insert(
                    hash,
                    CredentialState { session: c.follows.len() > 0, ..c },
                ),
                ..self
            }
        }
    }
}

} // verus!
