use crate::digest::spec_token_hash;
use crate::digest::token_hash;
use crate::invariants::lemma_add_follow_inv;
use crate::invariants::lemma_add_token_inv;
use crate::invariants::lemma_begin_session_inv;
use crate::invariants::lemma_block_inv;
use crate::invariants::lemma_initial_inv;
use crate::invariants::lemma_remove_follow_inv;
use crate::invariants::lemma_remove_token_inv;
use crate::invariants::lemma_remove_value_distinct;
use crate::invariants::lemma_unblock_inv;
use crate::model::blocks_with;
use crate::model::blocks_without;
use crate::model::bump;
use crate::model::count_of;
use crate::model::subs_with;
use crate::model::subs_without;
use crate::model::CredentialState;
use crate::model::SubscriberState;
use crate::models::Blacklist;
use crate::models::Follow;
use crate::probe::is_token_readable;
use crate::probe::probe_handle;
use crate::probe::spec_probe_handle;
use crate::probe::token_readable;
use crate::probe::Lookup;
use std::collections::HashMap;
use std::collections::HashSet;
use vstd::prelude::*;

verus! {

broadcast use vstd::std_specs::hash::group_hash_axioms;

/// Why an operation of the subscription manager was refused.
#[derive(Clone, Copy, Debug, PartialEq, Eq, Structural)]
pub enum SubscriberError {
    /// No credential is registered, so nothing can carry a new account.
    NoCredential,
    /// The liveness probe answered, and not with the expected handle.
    CredentialExpired,
    /// The token text cannot be read as a token.
    TokenMalformed,
    /// The liveness probe got no answer.
    TransportError,
}

/// One registered credential.
pub struct TwitterTokenContext {
    follows: Vec<i64>,
    session: bool,
    token: String,
    user_id: i64,
}

impl View for TwitterTokenContext {
    type V = CredentialState;

    closed spec fn view(&self) -> CredentialState {
        CredentialState {
            user_id: self.user_id,
            token: self.token@,
            follows: self.follows@,
            session: self.session,
        }
    }
}

/// The subscription manager: the credential registry and the indexes between
/// tenants, source accounts and credentials.
pub struct TwitterSubscriber {
    token_map: HashMap<u128, TwitterTokenContext>,
    token_vec: Vec<u128>,
    twitter_sub_to_token_map: HashMap<i64, u128>,
    blacklist_map: HashMap<i64, Vec<(i64, i32)>>,
    follow_map: HashMap<i64, HashSet<i64>>,
    follow_to_twitter: HashMap<i64, Vec<i64>>,
    block_rt_count_map: HashMap<i64, HashMap<i64, i64>>,
    follow_rt_count_map: HashMap<i64, HashMap<i64, i64>>,
}

/// What stored blocks amount to: for each tenant that has one, the set of its
/// pairs of source account and kind.
pub open spec fn blocklist_of(rows: Seq<Blacklist>) -> Map<i64, Set<(i64, i32)>> {
    Map::new(
        |t: i64| exists|i: int| 0 <= i < rows.len() && #[trigger] rows[i].user_id == t,
        |t: i64|
            Set::new(
                |e: (i64, i32)|
                    exists|i: int|
                        0 <= i < rows.len() && #[trigger] rows[i].user_id == t
                            && rows[i].twitter_user_id == e.0 && rows[i].type_ == e.1,
            ),
    )
}

/// The blocks held in `m`, as sets.
spec fn blocklist_view(m: Map<i64, Vec<(i64, i32)>>) -> Map<i64, Set<(i64, i32)>> {
    m.map_values(|v: Vec<(i64, i32)>| v@.to_set())
}

/// No list of `m` names a block twice.
spec fn blocklist_rep(m: Map<i64, Vec<(i64, i32)>>) -> bool {
    forall|t: i64| #[trigger] m.contains_key(t) ==> m[t]@.no_duplicates()
}

/// The position of `e` in `v`, if it occurs.
fn find_pair(v: &Vec<(i64, i32)>, e: (i64, i32)) -> (r: Option<usize>)
    ensures
        match r {
            Some(i) => i < v.len() && v[i as int] == e,
            None => !v@.contains(e),
        },
{
    let mut i: usize = 0;
    while i < v.len()
        invariant
            i <= v.len(),
            forall|j: int| 0 <= j < i ==> v[j] != e,
        decreases v.len() - i,
    {
        if v[i].0 == e.0 && v[i].1 == e.1 {
            return Some(i);
        }
        i += 1;
    }
    None
}

/// Adds the block `(account, kind)` of `tenant` to `m`, once.
fn insert_block(m: &mut HashMap<i64, Vec<(i64, i32)>>, tenant: i64, account: i64, kind: i32)
    requires
        blocklist_rep(old(m)@),
    ensures
        blocklist_rep(final(m)@),
        blocklist_view(final(m)@) == blocks_with(blocklist_view(old(m)@), tenant, account, kind),
{
    let ghost before = m@;
    let mut list = match m.remove(&tenant) {
        Some(l) => l,
        None => Vec::new(),
    };
    let ghost had = list@;
    if find_pair(&list, (account, kind)).is_none() {
        list.push((account, kind));
    }
    proof {
        assert(list@.no_duplicates());
        assert(list@.to_set() =~= had.to_set().insert((account, kind))) by {
            assert forall|e: (i64, i32)| list@.to_set().contains(e) <==> had.to_set().insert(
                (account, kind),
            ).contains(e) by {
                if list@ == had {
                } else {
                    assert(list@ == had.push((account, kind)));
                    assert(list@[had.len() as int] == (account, kind));
                    if had.contains(e) {
                        let i = choose|i: int| 0 <= i < had.len() && had[i] == e;
                        assert(list@[i] == e);
                    }
                }
            }
        }
        if !before.contains_key(tenant) {
            assert(had.to_set() =~= Set::<(i64, i32)>::empty());
        }
    }
    m.insert(tenant, list);
    proof {
        assert(blocklist_view(m@) =~= blocks_with(blocklist_view(before), tenant, account, kind));
    }
}

/// Removes the block `(account, kind)` of `tenant` from `m`, if it is there.
fn remove_block(m: &mut HashMap<i64, Vec<(i64, i32)>>, tenant: i64, account: i64, kind: i32)
    requires
        blocklist_rep(old(m)@),
    ensures
        blocklist_rep(final(m)@),
        blocklist_view(final(m)@) == blocks_without(blocklist_view(old(m)@), tenant, account, kind),
{
    let ghost before = m@;
    match m.remove(&tenant) {
        None => {
            proof {
                assert(m@ =~= before);
            }
        },
        Some(mut list) => {
            let ghost had = list@;
            match find_pair(&list, (account, kind)) {
                Some(i) => {
                    list.remove(i);
                    proof {
                        lemma_remove_at_distinct(had, i as int);
                    }
                },
                None => {
                    proof {
                        assert(had.to_set().remove((account, kind)) =~= had.to_set());
                    }
                },
            }
            m.insert(tenant, list);
            proof {
                assert(blocklist_view(m@) =~= blocks_without(
                    blocklist_view(before),
                    tenant,
                    account,
                    kind,
                ));
            }
        },
    }
}

/// A sequence without duplicates, less one position, has no duplicates and
/// holds what the sequence held but for the value at that position.
proof fn lemma_remove_at_distinct<T>(s: Seq<T>, i: int)
    requires
        s.no_duplicates(),
        0 <= i < s.len(),
    ensures
        s.remove(i).no_duplicates(),
        s.remove(i).to_set() == s.to_set().remove(s[i]),
{
    let r = s.remove(i);
    assert forall|a: int, b: int| 0 <= a < r.len() && 0 <= b < r.len() && a != b implies r[a]
        != r[b] by {
        let a0 = if a < i { a } else { a + 1 };
        let b0 = if b < i { b } else { b + 1 };
        assert(r[a] == s[a0] && r[b] == s[b0]);
    }
    assert forall|x: T| r.to_set().contains(x) <==> s.to_set().remove(s[i]).contains(x) by {
        if r.contains(x) {
            let a = choose|a: int| 0 <= a < r.len() && r[a] == x;
            let a0 = if a < i { a } else { a + 1 };
            assert(s[a0] == x);
        }
        if s.contains(x) && x != s[i] {
            let a = choose|a: int| 0 <= a < s.len() && s[a] == x;
            let a1 = if a < i { a } else { a - 1 };
            assert(r[a1] == x);
        }
    }
    assert(r.to_set() =~= s.to_set().remove(s[i]));
}

/// The counters held in `m`, as maps.
spec fn counts_view(m: Map<i64, HashMap<i64, i64>>) -> Map<i64, Map<i64, i64>> {
    m.map_values(|c: HashMap<i64, i64>| c@)
}

/// Raises the counter of `tenant` and `account` by one.
fn bump_count(m: &mut HashMap<i64, HashMap<i64, i64>>, tenant: i64, account: i64)
    requires
        count_of(counts_view(old(m)@), tenant, account) < i64::MAX,
    ensures
        counts_view(final(m)@) == bump(counts_view(old(m)@), tenant, account),
{
    let ghost before = m@;
    let mut inner = match m.remove(&tenant) {
        Some(c) => c,
        None => HashMap::new(),
    };
    let next: i64 = match inner.get(&account) {
        Some(n) => *n + 1,
        None => 1,
    };
    inner.insert(account, next);
    m.insert(tenant, inner);
    proof {
        assert(counts_view(m@) =~= bump(counts_view(before), tenant, account));
    }
}

/// The counter of `tenant` and `account`, 0 where none is kept.
fn read_count(m: &HashMap<i64, HashMap<i64, i64>>, tenant: i64, account: i64) -> (n: i64)
    ensures
        n == count_of(counts_view(m@), tenant, account),
{
    match m.get(&tenant) {
        Some(inner) => match inner.get(&account) {
            Some(n) => *n,
            None => 0,
        },
        None => 0,
    }
}

/// The subscriptions held in `m`, as sets.
spec fn subs_view(m: Map<i64, HashSet<i64>>) -> Map<i64, Set<i64>> {
    m.map_values(|s: HashSet<i64>| s@)
}

/// Puts `account` among the subscriptions of `tenant`.
fn subs_insert(m: &mut HashMap<i64, HashSet<i64>>, tenant: i64, account: i64)
    ensures
        subs_view(final(m)@) == subs_with(subs_view(old(m)@), tenant, account),
{
    let ghost before = m@;
    let mut set = match m.remove(&tenant) {
        Some(s) => s,
        None => HashSet::new(),
    };
    set.insert(account);
    m.insert(tenant, set);
    proof {
        assert(subs_view(m@) =~= subs_with(subs_view(before), tenant, account));
    }
}

/// Takes `account` from the subscriptions of `tenant`.
fn subs_remove(m: &mut HashMap<i64, HashSet<i64>>, tenant: i64, account: i64)
    ensures
        subs_view(final(m)@) == subs_without(subs_view(old(m)@), tenant, account),
{
    let ghost before = m@;
    match m.remove(&tenant) {
        None => {
            proof {
                assert(m@ =~= before);
            }
        },
        Some(mut set) => {
            set.remove(&account);
            m.insert(tenant, set);
            proof {
                assert(subs_view(m@) =~= subs_without(subs_view(before), tenant, account));
            }
        },
    }
}

/// The position of `x` in `v`, if it occurs.
fn find_id(v: &Vec<i64>, x: i64) -> (r: Option<usize>)
    ensures
        match r {
            Some(i) => i < v.len() && v[i as int] == x && v@.index_of_first(x) == Some(i as int),
            None => !v@.contains(x),
        },
{
    let mut i: usize = 0;
    while i < v.len()
        invariant
            i <= v.len(),
            forall|j: int| 0 <= j < i ==> v[j] != x,
        decreases v.len() - i,
    {
        if v[i] == x {
            proof {
                v@.index_of_first_ensures(x);
            }
            return Some(i);
        }
        i += 1;
    }
    None
}

/// The position of `x` in `v`, if it occurs.
fn find_hash(v: &Vec<u128>, x: u128) -> (r: Option<usize>)
    ensures
        match r {
            Some(i) => i < v.len() && v[i as int] == x && v@.index_of_first(x) == Some(i as int),
            None => !v@.contains(x),
        },
{
    let mut i: usize = 0;
    while i < v.len()
        invariant
            i <= v.len(),
            forall|j: int| 0 <= j < i ==> v[j] != x,
        decreases v.len() - i,
    {
        if v[i] == x {
            proof {
                v@.index_of_first_ensures(x);
            }
            return Some(i);
        }
        i += 1;
    }
    None
}

/// The subscribers held in `m`, as sequences.
spec fn tenants_view(m: Map<i64, Vec<i64>>) -> Map<i64, Seq<i64>> {
    m.map_values(|v: Vec<i64>| v@)
}

/// In `tenants` and `subs`, the subscribers of `account` are the tenants
/// that are subscribed to it.
spec fn account_agrees(
    tenants: Map<i64, Seq<i64>>,
    subs: Map<i64, Set<i64>>,
    account: i64,
) -> bool {
    forall|t: i64|
        (tenants.contains_key(account) && tenants[account].contains(t)) <==> (
        #[trigger] subs.contains_key(t) && subs[t].contains(account))
}

/// Forgets the source account `account`: nobody carries it, and nobody is
/// subscribed to it.
fn drop_account(
    carriers: &mut HashMap<i64, u128>,
    tenants: &mut HashMap<i64, Vec<i64>>,
    subs: &mut HashMap<i64, HashSet<i64>>,
    account: i64,
)
    requires
        account_agrees(tenants_view(old(tenants)@), subs_view(old(subs)@), account),
    ensures
        final(carriers)@ == old(carriers)@.remove(account),
        tenants_view(final(tenants)@) == tenants_view(old(tenants)@).remove(account),
        subs_view(final(subs)@) == subs_view(old(subs)@).map_values(
            |s: Set<i64>| s.remove(account),
        ),
{
    let ghost subs0 = subs_view(subs@);
    let ghost tenants0 = tenants_view(tenants@);
    let ghost want = subs0.map_values(|s: Set<i64>| s.remove(account));
    carriers.remove(&account);
    match tenants.remove(&account) {
        None => {
            proof {
                assert(tenants_view(tenants@) =~= tenants0.remove(account));
                assert forall|t: i64| #[trigger] subs0.contains_key(t) implies subs0[t].remove(
                    account,
                ) == subs0[t] by {
                    assert(!subs0[t].contains(account));
                    assert(subs0[t].remove(account) =~= subs0[t]);
                }
                assert(subs0 =~= want);
            }
        },
        Some(list) => {
            let ghost who = list@;
            proof {
                assert(tenants_view(tenants@) =~= tenants0.remove(account));
                assert(tenants0[account] == who);
            }
            let mut k: usize = 0;
            while k < list.len()
                invariant
                    k <= list.len(),
                    list@ == who,
                    subs0.dom() == subs_view(subs@).dom(),
                    forall|t: i64| #[trigger]
                        subs0.contains_key(t) ==> subs_view(subs@)[t] == if who.take(
                            k as int,
                        ).contains(t) {
                            subs0[t].remove(account)
                        } else {
                            subs0[t]
                        },
                decreases list.len() - k,
            {
                let ghost cur = subs_view(subs@);
                let t0 = list[k];
                subs_remove(subs, t0, account);
                proof {
                    let next = subs_view(subs@);
                    assert(who.take(k + 1) =~= who.take(k as int).push(t0));
                    assert(next.dom() =~= cur.dom());
                    assert forall|t: i64| #[trigger] subs0.contains_key(t) implies next[t] == if who.take(
                        k + 1,
                    ).contains(t) {
                        subs0[t].remove(account)
                    } else {
                        subs0[t]
                    } by {
                        assert(cur.contains_key(t));
                        if t == t0 {
                            assert(who.take(k + 1)[k as int] == t0);
                            assert(cur[t].remove(account) =~= subs0[t].remove(account));
                        } else {
                            let shorter = who.take(k as int);
                            let longer = who.take(k + 1);
                            if longer.contains(t) {
                                let j = choose|j: int| 0 <= j < longer.len() && longer[j] == t;
                                assert(shorter[j] == t);
                            }
                            if shorter.contains(t) {
                                let j = choose|j: int| 0 <= j < shorter.len() && shorter[j] == t;
                                assert(longer[j] == t);
                            }
                        }
                    }
                }
                k += 1;
            }
            proof {
                assert(who.take(list.len() as int) == who);
                assert forall|t: i64| #[trigger] subs0.contains_key(t) implies subs_view(subs@)[t]
                    == subs0[t].remove(account) by {
                    if !who.contains(t) {
                        assert(!subs0[t].contains(account));
                        assert(subs0[t].remove(account) =~= subs0[t]);
                    }
                }
                assert(subs_view(subs@) =~= want);
            }
        },
    }
}

impl View for TwitterSubscriber {
    type V = SubscriberState;

    closed spec fn view(&self) -> SubscriberState {
        SubscriberState {
            credentials: self.token_map@.map_values(|c: TwitterTokenContext| c@),
            order: self.token_vec@,
            account_credential: self.twitter_sub_to_token_map@,
            account_tenants: tenants_view(self.follow_to_twitter@),
            tenant_subs: subs_view(self.follow_map@),
            blocklist: blocklist_view(self.blacklist_map@),
            follow_count: counts_view(self.follow_rt_count_map@),
            block_count: counts_view(self.block_rt_count_map@),
        }
    }
}

impl TwitterSubscriber {
    /// The value is well formed: its model meets the invariant.
    pub closed spec fn wf(&self) -> bool {
        &&& self@.inv()
        &&& blocklist_rep(self.blacklist_map@)
    }

    /// The model of a well-formed manager meets the invariant, so that the
    /// laws of the model hold of it.
    pub proof fn lemma_wf_inv(&self)
        requires
            self.wf(),
        ensures
            self@.inv(),
    {
    }

    /// A manager without credentials and subscriptions, knowing the stored
    /// blocks.
    pub fn new(blacklist: &Vec<Blacklist>) -> (ts: TwitterSubscriber)
        ensures
            ts.wf(),
            ts@ == SubscriberState::initial(blocklist_of(blacklist@)),
    {
        let mut blacklist_map: HashMap<i64, Vec<(i64, i32)>> = HashMap::new();
        let mut i: usize = 0;
        proof {
            assert(blocklist_view(blacklist_map@) =~= blocklist_of(blacklist@.take(0)));
        }
        while i < blacklist.len()
            invariant
                i <= blacklist.len(),
                blocklist_rep(blacklist_map@),
                blocklist_view(blacklist_map@) == blocklist_of(blacklist@.take(i as int)),
            decreases blacklist.len() - i,
        {
            let item = &blacklist[i];
            insert_block(&mut blacklist_map, item.user_id, item.twitter_user_id, item.type_);
            proof {
                lemma_blocklist_of_push(blacklist@, i as int);
            }
            i += 1;
        }
        proof {
            assert(blacklist@.take(blacklist.len() as int) == blacklist@);
            lemma_initial_inv(blocklist_of(blacklist@));
        }
        let ts = TwitterSubscriber {
            token_map: HashMap::new(),
            token_vec: Vec::new(),
            twitter_sub_to_token_map: HashMap::new(),
            blacklist_map,
            follow_map: HashMap::new(),
            follow_to_twitter: HashMap::new(),
            block_rt_count_map: HashMap::new(),
            follow_rt_count_map: HashMap::new(),
        };
        proof {
            let init = SubscriberState::initial(blocklist_of(blacklist@));
            assert(ts@.credentials =~= init.credentials);
            assert(ts@.account_tenants =~= init.account_tenants);
            assert(ts@.tenant_subs =~= init.tenant_subs);
            assert(ts@.follow_count =~= init.follow_count);
            assert(ts@.block_count =~= init.block_count);
        }
        ts
    }

    /// Records the block `b`. A block of kind 2 counts against
    /// `from_twitter_user_id`, the account whose tweet prompted it.
    pub fn block(&mut self, b: &Blacklist, from_twitter_user_id: i64) -> (r: Result<
        (),
        SubscriberError,
    >)
        requires
            old(self).wf(),
            b.type_ == 2 ==> count_of(old(self)@.block_count, b.user_id, from_twitter_user_id)
                < i64::MAX,
        ensures
            final(self).wf(),
            r is Ok,
            final(self)@ == old(self)@.block(
                b.user_id,
                b.twitter_user_id,
                b.type_,
                from_twitter_user_id,
            ),
    {
        if b.type_ == 2 {
            bump_count(&mut self.block_rt_count_map, b.user_id, from_twitter_user_id);
        }
        insert_block(&mut self.blacklist_map, b.user_id, b.twitter_user_id, b.type_);
        proof {
            lemma_block_inv(
                old(self)@,
                b.user_id,
                b.twitter_user_id,
                b.type_,
                from_twitter_user_id,
            );
        }
        Ok(())
    }

    /// Lifts the block of kind `x_type` that `user_id` has on `twitter_id`, if
    /// there is one.
    pub fn unblock(&mut self, user_id: i64, twitter_id: i64, x_type: i32)
        requires
            old(self).wf(),
        ensures
            final(self).wf(),
            final(self)@ == old(self)@.unblock(user_id, twitter_id, x_type),
    {
        remove_block(&mut self.blacklist_map, user_id, twitter_id, x_type);
        proof {
            lemma_unblock_inv(old(self)@, user_id, twitter_id, x_type);
        }
    }

    /// Whether `user_id` has a block of kind `x_type` on `twitter_id`.
    pub fn is_blocked(&self, user_id: i64, twitter_id: i64, x_type: i32) -> (r: bool)
        ensures
            r == self@.blocked(user_id, twitter_id, x_type),
    {
        match self.blacklist_map.get(&user_id) {
            Some(list) => find_pair(list, (twitter_id, x_type)).is_some(),
            None => false,
        }
    }

    /// The filter set of the credential `token`: the source accounts it
    /// watches, in the order in which they were assigned. `None` where the
    /// credential is not registered.
    pub fn filter_set(&self, token: &str) -> (r: Option<Vec<i64>>)
        ensures
            match r {
                Some(filter) => self@.credentials.contains_key(spec_token_hash(token@))
                    && filter@ == self@.credentials[spec_token_hash(token@)].follows,
                None => !self@.credentials.contains_key(spec_token_hash(token@)),
            },
    {
        let hash = token_hash(token);
        match self.token_map.get(&hash) {
            Some(ctx) => Some(ctx.follows.clone()),
            None => None,
        }
    }

    /// The tenant that owns the credential `token`, `None` where the
    /// credential is not registered.
    pub fn owner(&self, token: &str) -> (r: Option<i64>)
        ensures
            r == if self@.credentials.contains_key(spec_token_hash(token@)) {
                Some(self@.credentials[spec_token_hash(token@)].user_id)
            } else {
                None
            },
    {
        let hash = token_hash(token);
        match self.token_map.get(&hash) {
            Some(ctx) => Some(ctx.user_id),
            None => None,
        }
    }

    /// Whether a cancellation handle of a running session is on record for
    /// the credential `token`.
    pub fn has_session(&self, token: &str) -> (r: bool)
        ensures
            r == (self@.credentials.contains_key(spec_token_hash(token@))
                && self@.credentials[spec_token_hash(token@)].session),
    {
        let hash = token_hash(token);
        match self.token_map.get(&hash) {
            Some(ctx) => ctx.session,
            None => false,
        }
    }

    /// The source account `twitter_id` is carried by some credential.
    pub fn is_carried(&self, twitter_id: i64) -> (r: bool)
        ensures
            r == self@.account_credential.contains_key(twitter_id),
    {
        self.twitter_sub_to_token_map.contains_key(&twitter_id)
    }

    /// The subscribers of `twitter_id`, in the order in which they joined.
    pub fn followers(&self, twitter_id: i64) -> (r: Vec<i64>)
        ensures
            r@ == self@.tenants_of(twitter_id),
    {
        match self.follow_to_twitter.get(&twitter_id) {
            Some(list) => list.clone(),
            None => Vec::new(),
        }
    }

    /// Whether `user_id` is subscribed to `twitter_id`.
    pub fn is_following(&self, user_id: i64, twitter_id: i64) -> (r: bool)
        ensures
            r == self@.subscribed(user_id, twitter_id),
    {
        match self.follow_map.get(&user_id) {
            Some(set) => set.contains(&twitter_id),
            None => false,
        }
    }

    /// How many follows `user_id` made from tweets of `twitter_id`.
    pub fn follow_rt_count(&self, user_id: i64, twitter_id: i64) -> (r: i64)
        ensures
            r == count_of(self@.follow_count, user_id, twitter_id),
    {
        read_count(&self.follow_rt_count_map, user_id, twitter_id)
    }

    /// How many blocks `user_id` made from tweets of `twitter_id`.
    pub fn block_rt_count(&self, user_id: i64, twitter_id: i64) -> (r: i64)
        ensures
            r == count_of(self@.block_count, user_id, twitter_id),
    {
        read_count(&self.block_rt_count_map, user_id, twitter_id)
    }

    /// The credential that takes the next new account, `None` where none is
    /// registered.
    pub fn pick_least_loaded(&self) -> (r: Option<u128>)
        requires
            self.wf(),
        ensures
            match r {
                Some(h) => self@.order.len() > 0 && h == self@.pick_least_loaded(),
                None => self@.order.len() == 0,
            },
    {
        match self.least_loaded_index() {
            Some(i) => Some(self.token_vec[i]),
            None => None,
        }
    }

    /// The position in the order of the credential that takes the next new
    /// account.
    fn least_loaded_index(&self) -> (r: Option<usize>)
        requires
            self.wf(),
        ensures
            match r {
                Some(i) => self@.is_least_loaded(i as int) && self@.order[i as int]
                    == self@.pick_least_loaded(),
                None => self@.order.len() == 0,
            },
    {
        let n = self.token_vec.len();
        if n == 0 {
            return None;
        }
        proof {
            assert forall|j: int| 0 <= j < n implies self.token_map@.contains_key(
                #[trigger] self.token_vec@[j],
            ) by {
                assert(self@.order.contains(self@.order[j]));
                assert(self@.credentials.contains_key(self@.order[j]));
            }
        }
        let mut best: usize = 0;
        let mut best_count: usize = self.load(0);
        let mut i: usize = 0;
        if best_count > 0 {
            while i < n
                invariant_except_break
                    best_count > 0,
                invariant
                    n == self.token_vec.len(),
                    i <= n,
                    best < n,
                    best_count == self@.load_at(best as int),
                    forall|j: int| 0 <= j < n ==> self.token_map@.contains_key(
                        #[trigger] self.token_vec@[j],
                    ),
                    forall|j: int| 0 <= j < i ==> self@.load_at(best as int) <= #[trigger] self@.load_at(j),
                    forall|j: int| 0 <= j < best ==> self@.load_at(best as int) < #[trigger] self@.load_at(j),
                ensures
                    i == n || best_count == 0,
                decreases n - i,
            {
                let count = self.load(i);
                if count < best_count {
                    best_count = count;
                    best = i;
                    if best_count == 0 {
                        break;
                    }
                }
                i += 1;
            }
        }
        proof {
            assert(self@.is_least_loaded(best as int));
            let chosen = choose|k: int| self@.is_least_loaded(k);
            crate::invariants::lemma_least_loaded_unique(self@, best as int, chosen);
        }
        Some(best)
    }

    /// Whether the credential with this token is registered.
    pub fn has_token(&self, token: &str) -> (r: bool)
        ensures
            r == self@.credentials.contains_key(spec_token_hash(token@)),
    {
        let hash = token_hash(token);
        self.token_map.contains_key(&hash)
    }

    /// What a liveness probe says of a credential: whether the lookup of the
    /// probe account gave the expected screen name. A token that cannot be
    /// read, and a lookup that failed, are errors of their own.
    pub open spec fn spec_check_token_valid(token: Seq<char>, lookup: Lookup) -> Result<
        bool,
        SubscriberError,
    > {
        if !token_readable(token) {
            Err(SubscriberError::TokenMalformed)
        } else {
            match lookup {
                Lookup::Failed => Err(SubscriberError::TransportError),
                Lookup::Handle(h) => Ok(h@ == spec_probe_handle()),
            }
        }
    }

    /// Judges a liveness probe: `lookup` is what the lookup of the probe
    /// account with this token gave.
    pub fn check_token_valid(token: &str, lookup: &Lookup) -> (r: Result<bool, SubscriberError>)
        ensures
            r == Self::spec_check_token_valid(token@, *lookup),
    {
        if !is_token_readable(token) {
            return Err(SubscriberError::TokenMalformed);
        }
        match lookup {
            Lookup::Failed => Err(SubscriberError::TransportError),
            Lookup::Handle(h) => {
                let expected = probe_handle();
                Ok(*h == expected)
            },
        }
    }

    /// How `add_token` ends: a credential that is registered already is
    /// accepted whatever the probe said; a new one only after a valid probe.
    pub open spec fn spec_add_token_result(
        s: SubscriberState,
        token: Seq<char>,
        lookup: Lookup,
    ) -> Result<(), SubscriberError> {
        if s.credentials.contains_key(spec_token_hash(token)) {
            Ok(())
        } else {
            match Self::spec_check_token_valid(token, lookup) {
                Err(e) => Err(e),
                Ok(false) => Err(SubscriberError::CredentialExpired),
                Ok(true) => Ok(()),
            }
        }
    }

    /// Registers the credential `token` of `user_id`, given what its liveness
    /// probe returned. On an error nothing changes.
    pub fn add_token(&mut self, user_id: i64, token: &str, lookup: &Lookup) -> (r: Result<
        (),
        SubscriberError,
    >)
        requires
            old(self).wf(),
        ensures
            final(self).wf(),
            r == Self::spec_add_token_result(old(self)@, token@, *lookup),
            r is Ok ==> final(self)@ == old(self)@.add_token(user_id, token@),
            r is Err ==> final(self)@ == old(self)@,
    {
        let hash = token_hash(token);
        if self.token_map.contains_key(&hash) {
            return Ok(());
        }
        match Self::check_token_valid(token, lookup) {
            Err(e) => {
                return Err(e);
            },
            Ok(false) => {
                return Err(SubscriberError::CredentialExpired);
            },
            Ok(true) => {},
        }
        self.token_vec.insert(0, hash);
        self.token_map.insert(
            hash,
            TwitterTokenContext {
                user_id,
                follows: Vec::new(),
                session: false,
                token: token.to_owned(),
            },
        );
        proof {
            let want = old(self)@.add_token(user_id, token@);
            assert(self@.order =~= want.order);
            assert(self@.credentials =~= want.credentials);
            lemma_add_token_inv(old(self)@, user_id, token@);
        }
        Ok(())
    }

    /// Subscribes the tenant of `f` to its source account, on behalf of a
    /// tweet by `from_twitter_user_id` where that is positive. Returns the
    /// token of the credential whose stream has to be restarted, or the empty
    /// text where no stream changes.
    pub fn add_follow(&mut self, f: &Follow, from_twitter_user_id: i64) -> (r: Result<
        String,
        SubscriberError,
    >)
        requires
            old(self).wf(),
            from_twitter_user_id > 0 ==> count_of(
                old(self)@.follow_count,
                f.user_id,
                from_twitter_user_id,
            ) < i64::MAX,
        ensures
            final(self).wf(),
            old(self)@.order.len() == 0 ==> r == Err::<String, SubscriberError>(
                SubscriberError::NoCredential,
            ) && final(self)@ == old(self)@,
            old(self)@.order.len() > 0 ==> {
                &&& r matches Ok(token) && token@ == old(self)@.add_follow_token(f.twitter_user_id)
                &&& final(self)@ == old(self)@.add_follow(
                    f.user_id,
                    f.twitter_user_id,
                    from_twitter_user_id,
                )
            },
    {
        let tenant = f.user_id;
        let account = f.twitter_user_id;
        if self.token_vec.len() == 0 {
            return Err(SubscriberError::NoCredential);
        }
        let carried = self.twitter_sub_to_token_map.contains_key(&account);
        let pick = self.least_loaded_index();
        let ghost want = old(self)@.add_follow(tenant, account, from_twitter_user_id);
        proof {
            lemma_add_follow_inv(old(self)@, tenant, account, from_twitter_user_id);
        }
        subs_insert(&mut self.follow_map, tenant, account);
        if from_twitter_user_id > 0 {
            bump_count(&mut self.follow_rt_count_map, tenant, from_twitter_user_id);
        }
        if carried {
            assert(old(self)@.account_tenants.contains_key(account));
            let mut list = self.follow_to_twitter.remove(&account).unwrap();
            let ghost had = list@;
            if find_id(&list, tenant).is_none() {
                list.push(tenant);
            }
            self.follow_to_twitter.insert(account, list);
            proof {
                assert(self@.account_tenants =~= want.account_tenants);
                assert(self@.credentials =~= want.credentials);
            }
            Ok(String::new())
        } else {
            let h = self.token_vec[pick.unwrap()];
            assert(old(self)@.order.contains(h));
            assert(old(self)@.credentials.contains_key(h));
            let mut ctx = self.token_map.remove(&h).unwrap();
            ctx.follows.push(account);
            let token = ctx.token.clone();
            self.token_map.insert(h, ctx);
            self.twitter_sub_to_token_map.insert(account, h);
            let mut list: Vec<i64> = Vec::new();
            list.push(tenant);
            self.follow_to_twitter.insert(account, list);
            proof {
                assert(list@ =~= seq![tenant]);
                assert(self@.account_tenants =~= want.account_tenants);
                assert(self@.credentials =~= want.credentials);
            }
            Ok(token)
        }
    }

    /// Ends the subscription of `user_id` to `twitter_id`; one that does not
    /// exist is passed over. Returns the token of the credential whose stream
    /// has to be stopped and restarted, or the empty text where no stream
    /// changes.
    pub fn remove_follow(&mut self, user_id: i64, twitter_id: i64) -> (r: String)
        requires
            old(self).wf(),
        ensures
            final(self).wf(),
            final(self)@ == old(self)@.remove_follow(user_id, twitter_id),
            r@ == old(self)@.remove_follow_token(user_id, twitter_id),
    {
        let pos = match self.follow_to_twitter.get(&twitter_id) {
            Some(list) => find_id(list, user_id),
            None => None,
        };
        let ghost want = old(self)@.remove_follow(user_id, twitter_id);
        proof {
            lemma_remove_follow_inv(old(self)@, user_id, twitter_id);
        }
        match pos {
            None => {
                proof {
                    assert(!old(self)@.tenants_of(twitter_id).contains(user_id));
                    if old(self)@.tenants_of(twitter_id) == seq![user_id] {
                        assert(seq![user_id][0] == user_id);
                    }
                }
                String::new()
            },
            Some(i) => {
                let mut list = self.follow_to_twitter.remove(&twitter_id).unwrap();
                let ghost had = list@;
                list.remove(i);
                proof {
                    assert(old(self)@.tenants_of(twitter_id) == had);
                    assert(had.contains(user_id));
                    assert(list@ == had.remove_value(user_id));
                    lemma_remove_value_distinct(had, user_id);
                }
                subs_remove(&mut self.follow_map, user_id, twitter_id);
                if list.len() > 0 {
                    self.follow_to_twitter.insert(twitter_id, list);
                    proof {
                        if had == seq![user_id] {
                            assert(had.len() == 1);
                        }
                        assert(self@.account_tenants =~= want.account_tenants);
                        assert(self@.credentials =~= want.credentials);
                    }
                    String::new()
                } else {
                    proof {
                        assert(had.len() == 1);
                        assert(had =~= seq![user_id]);
                        assert(old(self)@.account_credential.contains_key(twitter_id));
                    }
                    let h = self.twitter_sub_to_token_map.remove(&twitter_id).unwrap();
                    assert(old(self)@.credentials.contains_key(h));
                    let mut ctx = self.token_map.remove(&h).unwrap();
                    assert(ctx@.follows.contains(twitter_id));
                    let j = find_id(&ctx.follows, twitter_id).unwrap();
                    ctx.follows.remove(j);
                    ctx.session = false;
                    let token = ctx.token.clone();
                    self.token_map.insert(h, ctx);
                    proof {
                        assert(self@.account_tenants =~= want.account_tenants);
                        assert(self@.account_credential =~= want.account_credential);
                        assert(self@.credentials =~= want.credentials);
                    }
                    token
                }
            },
        }
    }

    /// Removes the credential `token`, and with it every subscription to a
    /// source account that it carried. Returns the tenant that owned the
    /// credential and is owed a notice, `None` where the credential is not
    /// registered.
    pub fn remove_token(&mut self, token: &str) -> (r: Option<i64>)
        requires
            old(self).wf(),
        ensures
            final(self).wf(),
            final(self)@ == old(self)@.remove_token(spec_token_hash(token@)),
            r == if old(self)@.credentials.contains_key(spec_token_hash(token@)) {
                Some(old(self)@.credentials[spec_token_hash(token@)].user_id)
            } else {
                None
            },
    {
        let hash = token_hash(token);
        let ghost before = old(self)@;
        let ghost want = before.remove_token(hash);
        proof {
            lemma_remove_token_inv(before, hash);
        }
        let ctx = match self.token_map.remove(&hash) {
            None => {
                proof {
                    assert(self.token_map@ =~= old(self).token_map@);
                }
                return None;
            },
            Some(c) => c,
        };
        proof {
            assert(before.credentials.contains_key(hash));
            assert(before.order.contains(hash));
        }
        let idx = find_hash(&self.token_vec, hash).unwrap();
        self.token_vec.remove(idx);
        let ghost gone = ctx.follows@;
        proof {
            assert(before.credentials[hash].follows == gone);
            assert(self@.credentials =~= want.credentials);
            assert(self@.order == want.order);
            assert(gone.take(0).to_set() =~= Set::<i64>::empty());
            assert(self@.account_credential =~= before.account_credential.remove_keys(
                gone.take(0).to_set(),
            ));
            assert(self@.account_tenants =~= before.account_tenants.remove_keys(
                gone.take(0).to_set(),
            ));
            assert forall|t: i64| #[trigger] before.tenant_subs.contains_key(t) implies before.tenant_subs[t].difference(gone.take(0).to_set())
                == before.tenant_subs[t] by {
                assert(before.tenant_subs[t].difference(gone.take(0).to_set())
                    =~= before.tenant_subs[t]);
            }
            assert(self@.tenant_subs =~= before.tenant_subs.map_values(
                |s: Set<i64>| s.difference(gone.take(0).to_set()),
            ));
        }
        let mut i: usize = 0;
        while i < ctx.follows.len()
            invariant
                i <= ctx.follows.len(),
                ctx.follows@ == gone,
                gone.no_duplicates(),
                before.inv(),
                self@.credentials == want.credentials,
                self@.order == want.order,
                self@.blocklist == before.blocklist,
                self@.follow_count == before.follow_count,
                self@.block_count == before.block_count,
                blocklist_rep(self.blacklist_map@),
                self@.account_credential == before.account_credential.remove_keys(
                    gone.take(i as int).to_set(),
                ),
                self@.account_tenants == before.account_tenants.remove_keys(
                    gone.take(i as int).to_set(),
                ),
                self@.tenant_subs == before.tenant_subs.map_values(
                    |s: Set<i64>| s.difference(gone.take(i as int).to_set()),
                ),
            decreases ctx.follows.len() - i,
        {
            let a = ctx.follows[i];
            let ghost done = gone.take(i as int).to_set();
            let ghost cur = self@;
            proof {
                assert(!done.contains(a)) by {
                    if gone.take(i as int).contains(a) {
                        let j = choose|j: int|
                            0 <= j < gone.take(i as int).len() && gone.take(i as int)[j] == a;
                        assert(gone[j] == a);
                    }
                }
                assert forall|t: i64|
                    (cur.account_tenants.contains_key(a) && cur.account_tenants[a].contains(t))
                        <==> (#[trigger] cur.tenant_subs.contains_key(t)
                        && cur.tenant_subs[t].contains(a)) by {
                    assert(before.subscribed(t, a) <==> before.tenants_of(a).contains(t));
                }
            }
            drop_account(
                &mut self.twitter_sub_to_token_map,
                &mut self.follow_to_twitter,
                &mut self.follow_map,
                a,
            );
            proof {
                let more = gone.take(i + 1).to_set();
                assert(gone.take(i + 1) =~= gone.take(i as int).push(a));
                assert(more =~= done.insert(a)) by {
                    assert forall|x: i64| more.contains(x) <==> done.insert(a).contains(x) by {
                        let shorter = gone.take(i as int);
                        let longer = gone.take(i + 1);
                        if longer.contains(x) {
                            let j = choose|j: int| 0 <= j < longer.len() && longer[j] == x;
                            if j < i {
                                assert(shorter[j] == x);
                            }
                        }
                        if shorter.contains(x) {
                            let j = choose|j: int| 0 <= j < shorter.len() && shorter[j] == x;
                            assert(longer[j] == x);
                        }
                        assert(longer[i as int] == a);
                    }
                }
                assert(self@.account_credential =~= before.account_credential.remove_keys(more));
                assert(self@.account_tenants =~= before.account_tenants.remove_keys(more));
                assert forall|t: i64| #[trigger] before.tenant_subs.contains_key(t) implies before.tenant_subs[t].difference(done).remove(a)
                    == before.tenant_subs[t].difference(more) by {
                    assert(before.tenant_subs[t].difference(done).remove(a)
                        =~= before.tenant_subs[t].difference(more));
                }
                assert(self@.tenant_subs =~= before.tenant_subs.map_values(
                    |s: Set<i64>| s.difference(more),
                ));
            }
            i += 1;
        }
        proof {
            assert(gone.take(ctx.follows.len() as int) == gone);
        }
        Some(ctx.user_id)
    }

    /// Plans the next session of the worker of the credential `token`. With
    /// something to watch, a stream is to be opened on the returned filter
    /// set, and any session that is still running is to be stopped first;
    /// `None` tells the worker to end: the credential is unknown or has
    /// nothing to watch. A token that cannot be read is refused.
    pub fn subscribe(&mut self, token: &str) -> (r: Result<Option<Vec<i64>>, SubscriberError>)
        requires
            old(self).wf(),
        ensures
            final(self).wf(),
            !token_readable(token@) ==> r == Err::<Option<Vec<i64>>, SubscriberError>(
                SubscriberError::TokenMalformed,
            ) && final(self)@ == old(self)@,
            token_readable(token@) ==> {
                &&& final(self)@ == old(self)@.begin_session(spec_token_hash(token@))
                &&& r matches Ok(plan)
                &&& match plan {
                    Some(filter) => old(self)@.session_filter(spec_token_hash(token@)) == Some(
                        filter@,
                    ),
                    None => old(self)@.session_filter(spec_token_hash(token@)) is None,
                }
            },
    {
        if !is_token_readable(token) {
            return Err(SubscriberError::TokenMalformed);
        }
        let hash = token_hash(token);
        proof {
            lemma_begin_session_inv(old(self)@, hash);
        }
        let mut ctx = match self.token_map.remove(&hash) {
            None => {
                proof {
                    assert(self.token_map@ =~= old(self).token_map@);
                }
                return Ok(None);
            },
            Some(c) => c,
        };
        let plan = if ctx.follows.len() > 0 {
            ctx.session = true;
            Some(ctx.follows.clone())
        } else {
            ctx.session = false;
            None
        };
        self.token_map.insert(hash, ctx);
        proof {
            assert(self@.credentials =~= old(self)@.begin_session(hash).credentials);
        }
        Ok(plan)
    }

    /// The size of the filter set of the credential at position `i`.
    fn load(&self, i: usize) -> (n: usize)
        requires
            i < self.token_vec.len(),
            self.token_map@.contains_key(self.token_vec@[i as int]),
        ensures
            n == self@.load_at(i as int),
    {
        let ctx = self.token_map.get(&self.token_vec[i]);
        ctx.unwrap().follows.len()
    }
}

/// Reading one more stored block adds its pair to the set of its tenant.
proof fn lemma_blocklist_of_push(rows: Seq<Blacklist>, i: int)
    requires
        0 <= i < rows.len(),
    ensures
        blocklist_of(rows.take(i + 1)) == blocks_with(
            blocklist_of(rows.take(i)),
            rows[i].user_id,
            rows[i].twitter_user_id,
            rows[i].type_,
        ),
{
    let a = rows.take(i);
    let b = rows.take(i + 1);
    let t0 = rows[i].user_id;
    let e0 = (rows[i].twitter_user_id, rows[i].type_);
    let had = if blocklist_of(a).contains_key(t0) {
        blocklist_of(a)[t0]
    } else {
        Set::empty()
    };
    let want = blocklist_of(a).insert(t0, had.insert(e0));
    assert(b[i] == rows[i]);
    assert forall|j: int| 0 <= j < i implies #[trigger] b[j] == a[j] by {}
    assert forall|t: i64| blocklist_of(b).contains_key(t) <==> want.contains_key(t) by {
        if blocklist_of(b).contains_key(t) {
            let j = choose|j: int| 0 <= j < b.len() && #[trigger] b[j].user_id == t;
            if j < i {
                assert(a[j].user_id == t);
            }
        }
        if blocklist_of(a).contains_key(t) {
            let j = choose|j: int| 0 <= j < a.len() && #[trigger] a[j].user_id == t;
            assert(b[j].user_id == t);
        }
        if t == t0 {
            assert(b[i].user_id == t);
        }
    }
    assert forall|t: i64| blocklist_of(b).contains_key(t) implies blocklist_of(b)[t] =~= want[t] by {
        assert forall|e: (i64, i32)| blocklist_of(b)[t].contains(e) <==> want[t].contains(e) by {
            if blocklist_of(b)[t].contains(e) {
                let j = choose|j: int|
                    0 <= j < b.len() && #[trigger] b[j].user_id == t && b[j].twitter_user_id == e.0
                        && b[j].type_ == e.1;
                if j < i {
                    assert(a[j].user_id == t && a[j].twitter_user_id == e.0 && a[j].type_ == e.1);
                }
            }
            if want[t].contains(e) {
                if t == t0 && e == e0 {
                    assert(b[i].user_id == t && b[i].twitter_user_id == e.0 && b[i].type_ == e.1);
                } else {
                    assert(blocklist_of(a).contains_key(t));
                    assert(blocklist_of(a)[t].contains(e));
                    let j = choose|j: int|
                        0 <= j < a.len() && #[trigger] a[j].user_id == t && a[j].twitter_user_id
                            == e.0 && a[j].type_ == e.1;
                    assert(b[j].user_id == t && b[j].twitter_user_id == e.0 && b[j].type_ == e.1);
                }
            }
        }
    }
    assert(blocklist_of(b) =~= want);
}

} // verus!
