use crate::clock::now_millis;
use crate::digest::spec_fingerprint;
use crate::history::fingerprints;
use crate::history::ForwardHistory;
use crate::keyboard::get_inline_buttons;
use crate::keyboard::spec_inline_buttons;
use crate::keyboard::InlineButton;
use crate::keyboard::InlineButtonView;
use crate::model::SubscriberState;
use crate::subscriber::TwitterSubscriber;
use crate::tweet::format_tweet_at;
use crate::tweet::Media;
use crate::tweet::MediaView;
use crate::tweet::Tweet;
use crate::tweet::RECENCY_WINDOW_MS;
use vstd::prelude::*;

verus! {

/// What the stream hands over: a tweet, or something that is logged and
/// dropped (a stall warning, a disconnect notice and the like).
#[derive(Clone, Debug, PartialEq, Eq)]
pub enum StreamMessage {
    Tweet(Tweet),
    Other,
}

/// One outbound delivery: the recipient and the buttons under the message.
#[derive(Clone, Debug, PartialEq, Eq)]
pub struct Delivery {
    pub tg_user_id: i64,
    pub buttons: Vec<InlineButton>,
}

/// A `Delivery` as a mathematical value.
pub struct DeliveryView {
    pub tg_user_id: i64,
    pub buttons: Seq<InlineButtonView>,
}

impl View for Delivery {
    type V = DeliveryView;

    open spec fn view(&self) -> DeliveryView {
        DeliveryView {
            tg_user_id: self.tg_user_id,
            buttons: self.buttons@.map_values(|b: InlineButton| b@),
        }
    }
}

/// What is to be sent for one tweet: to each recipient the attachments, if
/// there are any, and then the text with the recipient's buttons.
#[derive(Clone, Debug, PartialEq, Eq)]
pub struct Forward {
    pub msg: String,
    pub media: Vec<Media>,
    pub deliveries: Vec<Delivery>,
}

/// A `Forward` as a mathematical value.
pub struct ForwardView {
    pub msg: Seq<char>,
    pub media: Seq<MediaView>,
    pub deliveries: Seq<DeliveryView>,
}

impl View for Forward {
    type V = ForwardView;

    open spec fn view(&self) -> ForwardView {
        ForwardView {
            msg: self.msg@,
            media: self.media@.map_values(|m: Media| m@),
            deliveries: self.deliveries@.map_values(|d: Delivery| d@),
        }
    }
}

/// The blocks of `tenant` let a tweet of `author` through: a tweet that is no
/// retweet always, a retweet of `retweet_of` unless the tenant blocks that
/// account (kind 2) or the retweets of `author` (kind 1).
pub open spec fn passes_blocklist(
    s: SubscriberState,
    tenant: i64,
    author: i64,
    retweet_of: i64,
) -> bool {
    retweet_of == 0 || (!s.blocked(tenant, retweet_of, 2) && !s.blocked(tenant, author, 1))
}

/// Whether the lookup of the delivery to the tenant at position `i` found a
/// record. A position without an answer counts as not found.
pub open spec fn was_hit(hits: Seq<bool>, i: int) -> bool {
    0 <= i < hits.len() && hits[i]
}

/// Those of `tenants` that a tweet of `author` goes to, in their order: the
/// ones whose delivery was not on record and whose blocks let it through.
pub open spec fn spec_recipients(
    s: SubscriberState,
    tenants: Seq<i64>,
    hits: Seq<bool>,
    author: i64,
    retweet_of: i64,
) -> Seq<i64>
    decreases tenants.len(),
{
    if tenants.len() == 0 {
        Seq::empty()
    } else {
        let before = spec_recipients(s, tenants.drop_last(), hits, author, retweet_of);
        let last = tenants.len() - 1;
        if !was_hit(hits, last) && passes_blocklist(s, tenants[last], author, retweet_of) {
            before.push(tenants[last])
        } else {
            before
        }
    }
}

/// The deliveries to `recipients`, each with the buttons of its recipient.
pub open spec fn spec_deliveries(
    s: SubscriberState,
    recipients: Seq<i64>,
    author: i64,
    retweet_of: i64,
) -> Seq<DeliveryView> {
    recipients.map_values(
        |t: i64|
            DeliveryView { tg_user_id: t, buttons: spec_inline_buttons(s, t, retweet_of, author) },
    )
}

/// What is sent for the tweet `t`, given for each subscriber of its author
/// whether the delivery was on record.
pub open spec fn spec_forward(s: SubscriberState, t: Tweet, hits: Seq<bool>) -> ForwardView {
    ForwardView {
        msg: t.message(),
        media: t.media(),
        deliveries: spec_deliveries(
            s,
            spec_recipients(s, s.tenants_of(t.user.id), hits, t.user.id, t.retweet_user_id()),
            t.user.id,
            t.retweet_user_id(),
        ),
    }
}

/// The answers `hits` are ones that a history holding `keys` can give when
/// the deliveries of `url` to `tenants` are looked up in turn and each one
/// not found is put on record: a delivery is found only if it was on record
/// before or an earlier lookup put it there.
pub open spec fn hits_possible(
    keys: Set<u128>,
    tenants: Seq<i64>,
    url: Seq<char>,
    hits: Seq<bool>,
) -> bool {
    &&& hits.len() == tenants.len()
    &&& forall|i: int|
        0 <= i < hits.len() && #[trigger] hits[i] ==> keys.union(
            fingerprints(tenants, url, i),
        ).contains(spec_fingerprint(tenants[i], url))
}

/// Whether the blocks of `tenant` let a tweet of `author` through.
pub fn passes(ts: &TwitterSubscriber, tenant: i64, author: i64, retweet_of: i64) -> (r: bool)
    ensures
        r == passes_blocklist(ts@, tenant, author, retweet_of),
{
    if retweet_of == 0 {
        return true;
    }
    if ts.is_blocked(tenant, retweet_of, 2) {
        return false;
    }
    !ts.is_blocked(tenant, author, 1)
}

/// Picks from `tenants` the recipients of a tweet of `author`, given for
/// each whether its delivery was on record.
pub fn route(
    ts: &TwitterSubscriber,
    tenants: &Vec<i64>,
    hits: &Vec<bool>,
    author: i64,
    retweet_of: i64,
) -> (r: Vec<i64>)
    ensures
        r@ == spec_recipients(ts@, tenants@, hits@, author, retweet_of),
{
    let mut out: Vec<i64> = Vec::new();
    let mut i: usize = 0;
    proof {
        assert(tenants@.take(0) =~= Seq::<i64>::empty());
    }
    while i < tenants.len()
        invariant
            i <= tenants.len(),
            out@ == spec_recipients(ts@, tenants@.take(i as int), hits@, author, retweet_of),
        decreases tenants.len() - i,
    {
        let hit = i < hits.len() && hits[i];
        let ok = passes(ts, tenants[i], author, retweet_of);
        proof {
            assert(tenants@.take(i + 1).drop_last() =~= tenants@.take(i as int));
            assert(tenants@.take(i + 1)[i as int] == tenants@[i as int]);
        }
        if !hit && ok {
            out.push(tenants[i]);
        }
        i += 1;
    }
    proof {
        assert(tenants@.take(tenants.len() as int) =~= tenants@);
    }
    out
}

/// The deliveries to `recipients`, each with its buttons.
fn deliveries_for(
    ts: &TwitterSubscriber,
    recipients: &Vec<i64>,
    author: i64,
    retweet_of: i64,
) -> (r: Vec<Delivery>)
    ensures
        r@.map_values(|d: Delivery| d@) == spec_deliveries(ts@, recipients@, author, retweet_of),
{
    let mut out: Vec<Delivery> = Vec::new();
    let mut i: usize = 0;
    while i < recipients.len()
        invariant
            i <= recipients.len(),
            out.len() == i,
            forall|j: int|
                0 <= j < i ==> (#[trigger] out[j])@ == (DeliveryView {
                    tg_user_id: recipients[j],
                    buttons: spec_inline_buttons(ts@, recipients[j], retweet_of, author),
                }),
        decreases recipients.len() - i,
    {
        let buttons = get_inline_buttons(recipients[i], retweet_of, ts, author);
        out.push(Delivery { tg_user_id: recipients[i], buttons });
        i += 1;
    }
    proof {
        assert(out@.map_values(|d: Delivery| d@) =~= spec_deliveries(
            ts@,
            recipients@,
            author,
            retweet_of,
        ));
    }
    out
}

/// What routing the message `m` at the time `now` comes to, in the state `s`
/// and with a history that held the fingerprints `before`: the history holds
/// `after` then, and `r` is what is to be sent. Anything but a tweet, a tweet
/// whose content is older than the recency window at `now`, and a tweet
/// whose author retweets itself give nothing and leave the history as it
/// was. Any other tweet gives a forward: it goes to the subscribers of its
/// author whose delivery was not found on record and whose blocks let it
/// through, and the delivery to every subscriber is on record afterwards.
pub open spec fn forwarded_at(
    s: SubscriberState,
    m: StreamMessage,
    now: i64,
    before: Set<u128>,
    after: Set<u128>,
    r: Option<Forward>,
) -> bool {
    match m {
        StreamMessage::Other => r is None && after == before,
        StreamMessage::Tweet(t) => if t.stale(now) || t.self_retweet() {
            r is None && after == before
        } else {
            &&& after == before.union(
                fingerprints(
                    s.tenants_of(t.user.id),
                    t.canonical_url(),
                    s.tenants_of(t.user.id).len() as int,
                ),
            )
            &&& r is Some
            &&& exists|hits: Seq<bool>|
                hits_possible(before, s.tenants_of(t.user.id), t.canonical_url(), hits)
                    && #[trigger] spec_forward(s, t, hits) == r->0@
        },
    }
}

impl TwitterSubscriber {
    /// Routes one stream message at the time `now`, in milliseconds since the
    /// Unix epoch. Anything but a tweet, a tweet whose content is older than the
    /// recency window, and a tweet whose author retweets itself give nothing and
    /// leave the history as it is. Any other tweet goes to the subscribers of its
    /// author whose delivery is not yet on record and whose blocks let it
    /// through, and every subscriber's delivery is on record afterwards.
    pub fn forward_tweet_at(
        &self,
        forward_history: &mut ForwardHistory,
        m: &StreamMessage,
        now: i64,
    ) -> (r: Option<Forward>)
        requires
            old(forward_history).wf(),
        ensures
            final(forward_history).wf(),
            final(forward_history).ttl_secs() == old(forward_history).ttl_secs(),
            forwarded_at(
                self@,
                *m,
                now,
                old(forward_history).keys(),
                final(forward_history).keys(),
                r,
            ),
    {
        let t = match m {
            StreamMessage::Tweet(t) => t,
            StreamMessage::Other => {
                return None;
            },
        };
        let event = match format_tweet_at(t, now) {
            Some(e) => e,
            None => {
                return None;
            },
        };
        let tenants = self.followers(event.twitter_user_id);
        let hits = forward_history.screen(&tenants, event.tweet_url.as_str());
        let recipients = route(self, &tenants, &hits, event.twitter_user_id, event.retweet_user_id);
        let deliveries = deliveries_for(
            self,
            &recipients,
            event.twitter_user_id,
            event.retweet_user_id,
        );
        let f = Forward { msg: event.msg, media: event.media, deliveries };
        proof {
            assert(hits_possible(
                old(forward_history).keys(),
                self@.tenants_of(t.user.id),
                t.canonical_url(),
                hits@,
            ));
            assert(f@ == spec_forward(self@, *t, hits@));
        }
        Some(f)
    }

    /// Routes one stream message that has just arrived: what is to be sent,
    /// and what the history holds afterwards, are those of `forward_tweet_at`
    /// at the time that the clock gives. So a tweet that no time makes too
    /// old, and whose author does not retweet itself, always gives a forward;
    /// anything but a tweet, and a tweet whose author retweets itself, never
    /// give one; and no record leaves the history.
    pub fn forward_tweet(
        &self,
        forward_history: &mut ForwardHistory,
        m: &StreamMessage,
    ) -> (r: Option<Forward>)
        requires
            old(forward_history).wf(),
        ensures
            final(forward_history).wf(),
            final(forward_history).ttl_secs() == old(forward_history).ttl_secs(),
            exists|now: i64|
                forwarded_at(
                    self@,
                    *m,
                    now,
                    old(forward_history).keys(),
                    final(forward_history).keys(),
                    r,
                ),
            old(forward_history).keys().subset_of(final(forward_history).keys()),
            match *m {
                StreamMessage::Other => r is None,
                StreamMessage::Tweet(t) => {
                    &&& t.self_retweet() ==> r is None
                    &&& !t.self_retweet() && t.real_created_at() + RECENCY_WINDOW_MS >= i64::MAX
                        ==> r is Some
                },
            },
    {
        let now = now_millis();
        let r = self.forward_tweet_at(forward_history, m, now);
        assert(forwarded_at(
            self@,
            *m,
            now,
            old(forward_history).keys(),
            forward_history.keys(),
            r,
        ));
        r
    }
}

} // verus!
