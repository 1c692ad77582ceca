use crate::clock::now_millis;
use crate::markdown::bold;
use crate::markdown::escape;
use crate::markdown::spec_bold;
use crate::markdown::spec_escape;
use crate::text::decimal_u64;
use crate::text::remove_all;
use crate::text::spec_decimal;
use crate::text::spec_remove_all;
use vstd::prelude::*;
use vstd::string::StringExecFns;

verus! {

/// How long a tweet stays worth delivering: 72 hours, in milliseconds.
pub const RECENCY_WINDOW_MS: i64 = 259_200_000;

/// A Twitter account as a tweet names it.
#[derive(Clone, Debug, PartialEq, Eq)]
pub struct TwitterUser {
    pub id: i64,
    pub screen_name: String,
}

/// What kind of media a tweet carries.
#[derive(Clone, Copy, Debug, PartialEq, Eq, Structural)]
pub enum MediaType {
    Photo,
    Video,
    Gif,
}

/// One encoding of a video.
#[derive(Clone, Debug, PartialEq, Eq)]
pub struct VideoVariant {
    pub bitrate: Option<i32>,
    pub url: String,
}

/// One attachment of a tweet.
#[derive(Clone, Debug, PartialEq, Eq)]
pub struct MediaEntity {
    pub media_type: MediaType,
    pub media_url: String,
    /// The encodings on offer where the attachment is a video or a GIF.
    pub video_variants: Option<Vec<VideoVariant>>,
}

/// The tweet that a retweet passes on.
#[derive(Clone, Debug, PartialEq, Eq)]
pub struct RetweetedStatus {
    pub id: u64,
    /// Milliseconds since the Unix epoch.
    pub created_at: i64,
    pub user: Option<TwitterUser>,
}

/// A tweet as the stream delivers it, reduced to what routing and formatting
/// read.
#[derive(Clone, Debug, PartialEq, Eq)]
pub struct Tweet {
    pub id: u64,
    /// Milliseconds since the Unix epoch.
    pub created_at: i64,
    pub text: String,
    pub user: TwitterUser,
    pub retweeted_status: Option<RetweetedStatus>,
    /// The attachments of the extended entities, where the tweet has those.
    pub extended_media: Option<Vec<MediaEntity>>,
    /// The attachments of the plain entities.
    pub entities_media: Option<Vec<MediaEntity>>,
}

/// How an attachment is sent on.
#[derive(Clone, Copy, Debug, PartialEq, Eq, Structural)]
pub enum MediaKind {
    Photo,
    Video,
    Animation,
}

/// An attachment ready to be sent: a file by its address, with a caption.
#[derive(Clone, Debug, PartialEq, Eq)]
pub struct Media {
    pub kind: MediaKind,
    pub url: String,
    pub caption: String,
}

/// A `Media` as a mathematical value.
pub struct MediaView {
    pub kind: MediaKind,
    pub url: Seq<char>,
    pub caption: Seq<char>,
}

impl View for Media {
    type V = MediaView;

    open spec fn view(&self) -> MediaView {
        MediaView { kind: self.kind, url: self.url@, caption: self.caption@ }
    }
}

/// A tweet ready to be routed.
#[derive(Clone, Debug, PartialEq, Eq)]
pub struct TweetEvent {
    /// The account that tweeted or retweeted.
    pub twitter_user_id: i64,
    /// The account whose tweet was retweeted, 0 where this is no retweet.
    pub retweet_user_id: i64,
    /// The address of the tweet, of the original where this is a retweet.
    pub tweet_url: String,
    /// The text to send.
    pub msg: String,
    /// The attachments to send.
    pub media: Vec<Media>,
}

/// A `TweetEvent` as a mathematical value.
pub struct TweetEventView {
    pub twitter_user_id: i64,
    pub retweet_user_id: i64,
    pub tweet_url: Seq<char>,
    pub msg: Seq<char>,
    pub media: Seq<MediaView>,
}

impl View for TweetEvent {
    type V = TweetEventView;

    open spec fn view(&self) -> TweetEventView {
        TweetEventView {
            twitter_user_id: self.twitter_user_id,
            retweet_user_id: self.retweet_user_id,
            tweet_url: self.tweet_url@,
            msg: self.msg@,
            media: self.media@.map_values(|m: Media| m@),
        }
    }
}

/// The address of the tweet `id` of the account `screen_name`.
pub open spec fn spec_status_url(screen_name: Seq<char>, id: u64) -> Seq<char> {
    "https://twitter.com/"@ + screen_name + "/status/"@ + spec_decimal(id as nat)
}

/// Variant `i` is the one to send: it has a bitrate, none has a higher one,
/// and every earlier one with a bitrate has a lower one.
pub open spec fn is_best_variant(variants: Seq<VideoVariant>, i: int) -> bool {
    &&& 0 <= i < variants.len()
    &&& variants[i].bitrate is Some
    &&& forall|j: int|
        0 <= j < variants.len() && (#[trigger] variants[j]).bitrate is Some ==> variants[j].bitrate->0
            <= variants[i].bitrate->0
    &&& forall|j: int|
        0 <= j < i && (#[trigger] variants[j]).bitrate is Some ==> variants[j].bitrate->0
            < variants[i].bitrate->0
}

/// The bitrate and the address of the encoding with the largest bitrate;
/// `(0, None)` where no encoding states a bitrate.
pub open spec fn spec_max_video_bitrate(m: MediaEntity) -> (i32, Option<Seq<char>>) {
    match m.video_variants {
        Some(variants) => if exists|i: int| is_best_variant(variants@, i) {
            let i = choose|i: int| is_best_variant(variants@, i);
            (variants@[i].bitrate->0, Some(variants@[i].url@))
        } else {
            (0, None)
        },
        None => (0, None),
    }
}

/// How an attachment is sent: as the video encoding with the largest bitrate
/// where there is one, else a photo or a GIF by its own address; a video
/// without a usable encoding is not sent.
pub open spec fn spec_media(m: MediaEntity, caption: Seq<char>) -> Option<MediaView> {
    match spec_max_video_bitrate(m).1 {
        Some(url) => Some(MediaView { kind: MediaKind::Video, url, caption }),
        None => match m.media_type {
            MediaType::Photo => Some(
                MediaView { kind: MediaKind::Photo, url: m.media_url@, caption },
            ),
            MediaType::Gif => Some(
                MediaView { kind: MediaKind::Animation, url: m.media_url@, caption },
            ),
            MediaType::Video => None,
        },
    }
}

/// The attachments of `entities` that are sent, in their order.
pub open spec fn spec_media_list(entities: Seq<MediaEntity>, caption: Seq<char>) -> Seq<
    MediaView,
>
    decreases entities.len(),
{
    if entities.len() == 0 {
        Seq::empty()
    } else {
        let before = spec_media_list(entities.drop_last(), caption);
        match spec_media(entities.last(), caption) {
            Some(m) => before.push(m),
            None => before,
        }
    }
}

impl Tweet {
    /// The account whose tweet this one retweets, 0 where it retweets none
    /// or does not say whose.
    pub open spec fn retweet_user_id(&self) -> i64 {
        match self.retweeted_status {
            Some(rt) => match rt.user {
                Some(u) => u.id,
                None => 0,
            },
            None => 0,
        }
    }

    /// When the content was written: the original where this is a retweet.
    pub open spec fn real_created_at(&self) -> i64 {
        match self.retweeted_status {
            Some(rt) => rt.created_at,
            None => self.created_at,
        }
    }

    /// The screen name under which attachments are sent: the original author
    /// where this is a retweet that names one.
    pub open spec fn caption(&self) -> Seq<char> {
        match self.retweeted_status {
            Some(rt) => match rt.user {
                Some(u) => u.screen_name@,
                None => self.user.screen_name@,
            },
            None => self.user.screen_name@,
        }
    }

    /// The address of the content: of the original where this is a retweet
    /// that names its author.
    pub open spec fn canonical_url(&self) -> Seq<char> {
        match self.retweeted_status {
            Some(rt) => match rt.user {
                Some(u) => spec_status_url(u.screen_name@, rt.id),
                None => spec_status_url(self.user.screen_name@, self.id),
            },
            None => spec_status_url(self.user.screen_name@, self.id),
        }
    }

    /// The attachments: those of the extended entities where there are any.
    pub open spec fn attachments(&self) -> Seq<MediaEntity> {
        match self.extended_media {
            Some(m) => m@,
            None => match self.entities_media {
                Some(m) => m@,
                None => Seq::empty(),
            },
        }
    }

    /// The attachments that are sent.
    pub open spec fn media(&self) -> Seq<MediaView> {
        spec_media_list(self.attachments(), self.caption())
    }

    /// The tweet's text as it is sent: with attachments, the raw addresses of
    /// the link shortener and of Twitter are cut out.
    pub open spec fn body(&self) -> Seq<char> {
        if self.media().len() == 0 {
            self.text@
        } else {
            spec_remove_all(spec_remove_all(self.text@, "https://t.co"@), "https://twitter.com"@)
        }
    }

    /// The message: the author's screen name in bold, a colon, the text.
    pub open spec fn message(&self) -> Seq<char> {
        spec_bold(spec_escape(self.user.screen_name@)) + ": "@ + spec_escape(self.body())
    }

    /// The content is older than the recency window allows at time `now`.
    pub open spec fn stale(&self, now: i64) -> bool {
        self.real_created_at() + RECENCY_WINDOW_MS < now
    }

    /// The author retweets a tweet of its own.
    pub open spec fn self_retweet(&self) -> bool {
        self.user.id == self.retweet_user_id()
    }

    /// The event that the tweet gives rise to where it is not dropped.
    pub open spec fn event(&self) -> TweetEventView {
        TweetEventView {
            twitter_user_id: self.user.id,
            retweet_user_id: self.retweet_user_id(),
            tweet_url: self.canonical_url(),
            msg: self.message(),
            media: self.media(),
        }
    }
}

/// The address of the tweet `id` of the account `screen_name`.
fn status_url(screen_name: &str, id: u64) -> (s: String)
    ensures
        s@ == spec_status_url(screen_name@, id),
{
    let mut s = String::from_str("https://twitter.com/");
    s.append(screen_name);
    s.append("/status/");
    let digits = decimal_u64(id);
    s.append(digits.as_str());
    s
}

/// The encoding with the largest bitrate: its bitrate and its address.
pub fn get_max_video_bitrate(m: &MediaEntity) -> (r: (i32, Option<String>))
    ensures
        r.0 == spec_max_video_bitrate(*m).0,
        match r.1 {
            Some(url) => spec_max_video_bitrate(*m).1 == Some(url@),
            None => spec_max_video_bitrate(*m).1 is None,
        },
{
    let variants = match &m.video_variants {
        Some(v) => v,
        None => {
            return (0, None);
        },
    };
    let mut best: Option<usize> = None;
    let mut best_rate: i32 = 0;
    let mut i: usize = 0;
    while i < variants.len()
        invariant
            i <= variants.len(),
            match best {
                Some(b) => {
                    &&& b < i
                    &&& variants[b as int].bitrate == Some(best_rate)
                    &&& forall|j: int|
                        0 <= j < i && (#[trigger] variants[j]).bitrate is Some
                            ==> variants[j].bitrate->0 <= best_rate
                    &&& forall|j: int|
                        0 <= j < b && (#[trigger] variants[j]).bitrate is Some
                            ==> variants[j].bitrate->0 < best_rate
                },
                None => forall|j: int| 0 <= j < i ==> (#[trigger] variants[j]).bitrate is None,
            },
        decreases variants.len() - i,
    {
        match variants[i].bitrate {
            Some(rate) => {
                let better = match best {
                    Some(_) => rate > best_rate,
                    None => true,
                };
                if better {
                    best = Some(i);
                    best_rate = rate;
                }
            },
            None => {},
        }
        i += 1;
    }
    match best {
        Some(b) => {
            proof {
                assert(is_best_variant(variants@, b as int));
                let c = choose|c: int| is_best_variant(variants@, c);
                lemma_best_variant_unique(variants@, b as int, c);
            }
            (best_rate, Some(variants[b].url.clone()))
        },
        None => {
            proof {
                assert forall|c: int| !is_best_variant(variants@, c) by {
                    if 0 <= c < variants@.len() {
                        assert(variants@[c].bitrate is None);
                    }
                }
            }
            (0, None)
        },
    }
}

/// Only one encoding is the one to send.
proof fn lemma_best_variant_unique(variants: Seq<VideoVariant>, a: int, b: int)
    requires
        is_best_variant(variants, a),
        is_best_variant(variants, b),
    ensures
        a == b,
{
    if a < b {
        assert(variants[a].bitrate->0 < variants[b].bitrate->0);
        assert(variants[b].bitrate->0 <= variants[a].bitrate->0);
    } else if b < a {
        assert(variants[b].bitrate->0 < variants[a].bitrate->0);
        assert(variants[a].bitrate->0 <= variants[b].bitrate->0);
    }
}

/// Turns an attachment into what is sent for it, if anything is.
pub fn get_media_from_media_entity(m: &MediaEntity, caption: &str) -> (r: Option<Media>)
    ensures
        match r {
            Some(media) => spec_media(*m, caption@) == Some(media@),
            None => spec_media(*m, caption@) is None,
        },
{
    let video_url = get_max_video_bitrate(m);
    if let Some(url) = video_url.1 {
        return Some(Media { kind: MediaKind::Video, url, caption: String::from_str(caption) });
    }
    match m.media_type {
        MediaType::Photo => Some(
            Media {
                kind: MediaKind::Photo,
                url: m.media_url.clone(),
                caption: String::from_str(caption),
            },
        ),
        MediaType::Gif => Some(
            Media {
                kind: MediaKind::Animation,
                url: m.media_url.clone(),
                caption: String::from_str(caption),
            },
        ),
        MediaType::Video => None,
    }
}

/// The attachments of `entities` that are sent.
fn media_list(entities: &Vec<MediaEntity>, caption: &str) -> (r: Vec<Media>)
    ensures
        r@.map_values(|m: Media| m@) == spec_media_list(entities@, caption@),
{
    let mut media: Vec<Media> = Vec::new();
    let mut i: usize = 0;
    proof {
        assert(entities@.take(0) =~= Seq::<MediaEntity>::empty());
        assert(media@.map_values(|m: Media| m@) =~= Seq::<MediaView>::empty());
    }
    while i < entities.len()
        invariant
            i <= entities.len(),
            media@.map_values(|m: Media| m@) == spec_media_list(
                entities@.take(i as int),
                caption@,
            ),
        decreases entities.len() - i,
    {
        let ghost before = media@.map_values(|m: Media| m@);
        let item = get_media_from_media_entity(&entities[i], caption);
        proof {
            assert(entities@.take(i + 1).drop_last() =~= entities@.take(i as int));
            assert(entities@.take(i + 1).last() == entities@[i as int]);
        }
        if let Some(m) = item {
            media.push(m);
            proof {
                assert(media@.map_values(|m: Media| m@) =~= before.push(m@));
            }
        }
        i += 1;
    }
    proof {
        assert(entities@.take(entities.len() as int) =~= entities@);
    }
    media
}

/// Derives the event of a tweet at the time `now`, in milliseconds since the
/// Unix epoch. A tweet whose content is older than the recency window, and
/// one whose author retweets itself, gives none.
pub fn format_tweet_at(t: &Tweet, now: i64) -> (r: Option<TweetEvent>)
    ensures
        t.stale(now) || t.self_retweet() ==> r is None,
        !t.stale(now) && !t.self_retweet() ==> (r matches Some(e) && e@ == t.event()),
{
    let user = &t.user;
    let mut caption = user.screen_name.clone();
    let mut retweet_user_id: i64 = 0;
    let mut real_created_at = t.created_at;
    let mut tweet_url = status_url(user.screen_name.as_str(), t.id);
    if let Some(ts) = &t.retweeted_status {
        real_created_at = ts.created_at;
        if let Some(rt) = &ts.user {
            caption = rt.screen_name.clone();
            retweet_user_id = rt.id;
            tweet_url = status_url(rt.screen_name.as_str(), ts.id);
        }
    }
    if (real_created_at as i128) + (RECENCY_WINDOW_MS as i128) < (now as i128) {
        return None;
    }
    if user.id == retweet_user_id {
        return None;
    }
    let media = match &t.extended_media {
        Some(m) => media_list(m, caption.as_str()),
        None => match &t.entities_media {
            Some(m) => media_list(m, caption.as_str()),
            None => {
                let empty: Vec<Media> = Vec::new();
                proof {
                    assert(empty@.map_values(|m: Media| m@) =~= spec_media_list(
                        Seq::<MediaEntity>::empty(),
                        caption@,
                    ));
                }
                empty
            },
        },
    };
    let body = if media.len() == 0 {
        t.text.clone()
    } else {
        let cut = remove_all(t.text.as_str(), "https://t.co");
        remove_all(cut.as_str(), "https://twitter.com")
    };
    let name = escape(user.screen_name.as_str());
    let mut msg = bold(name.as_str());
    msg.append(": ");
    let escaped = escape(body.as_str());
    msg.append(escaped.as_str());
    Some(TweetEvent { twitter_user_id: user.id, retweet_user_id, tweet_url, msg, media })
}

/// Derives the event of a tweet that has just arrived. Whatever the clock
/// says, a tweet whose author retweets itself gives none, and an event that
/// is given is the one of the tweet.
pub fn format_tweet(t: &Tweet) -> (r: Option<TweetEvent>)
    ensures
        t.self_retweet() ==> r is None,
        r matches Some(e) ==> e@ == t.event(),
        exists|now: i64| r is None <==> t.stale(now) || t.self_retweet(),
{
    let now = now_millis();
    let r = format_tweet_at(t, now);
    assert(r is None <==> t.stale(now) || t.self_retweet());
    r
}

} // verus!
