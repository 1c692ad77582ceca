use twitter2telegram::tweet::format_tweet;
use twitter2telegram::tweet::format_tweet_at;
use twitter2telegram::tweet::get_max_video_bitrate;
use twitter2telegram::tweet::get_media_from_media_entity;
use twitter2telegram::tweet::Media;
use twitter2telegram::tweet::MediaEntity;
use twitter2telegram::tweet::MediaKind;
use twitter2telegram::tweet::MediaType;
use twitter2telegram::tweet::RetweetedStatus;
use twitter2telegram::tweet::Tweet;
use twitter2telegram::tweet::TwitterUser;
use twitter2telegram::tweet::VideoVariant;
use twitter2telegram::tweet::RECENCY_WINDOW_MS;

const NOW: i64 = 1_700_000_000_000;

fn tw_user(id: i64, name: &str) -> TwitterUser {
    TwitterUser { id, screen_name: name.to_string() }
}

fn tw_plain(author: i64, name: &str, id: u64, text: &str) -> Tweet {
    Tweet {
        id,
        created_at: NOW - 1000,
        text: text.to_string(),
        user: tw_user(author, name),
        retweeted_status: None,
        extended_media: None,
        entities_media: None,
    }
}

fn tw_variant(bitrate: Option<i32>, url: &str) -> VideoVariant {
    VideoVariant { bitrate, url: url.to_string() }
}

fn tw_photo(url: &str) -> MediaEntity {
    MediaEntity { media_type: MediaType::Photo, media_url: url.to_string(), video_variants: None }
}

fn tw_video(url: &str, variants: Vec<VideoVariant>) -> MediaEntity {
    MediaEntity {
        media_type: MediaType::Video,
        media_url: url.to_string(),
        video_variants: Some(variants),
    }
}

#[test]
fn recency_window_is_72_hours() {
    assert_eq!(RECENCY_WINDOW_MS, 72 * 60 * 60 * 1000);
}

#[test]
fn plain_tweet_is_formatted() {
    let t = tw_plain(100, "alice", 42, "hello");
    let e = format_tweet_at(&t, NOW).unwrap();
    assert_eq!(e.twitter_user_id, 100);
    assert_eq!(e.retweet_user_id, 0);
    assert_eq!(e.tweet_url, "https://twitter.com/alice/status/42");
    assert_eq!(e.msg, "*alice*: hello");
    assert!(e.media.is_empty());
}

#[test]
fn message_escapes_markup() {
    let t = tw_plain(100, "a_b", 1, "1+1=2. (really!) [x] {y} ~`>#-|*_\\");
    let e = format_tweet_at(&t, NOW).unwrap();
    assert_eq!(
        e.msg,
        "*a\\_b*: 1\\+1\\=2\\. \\(really\\!\\) \\[x\\] \\{y\\} \\~\\`\\>\\#\\-\\|\\*\\_\\"
    );
    assert_eq!(e.tweet_url, "https://twitter.com/a_b/status/1");
}

#[test]
fn links_stay_without_media() {
    let t = tw_plain(100, "alice", 1, "see https://t.co/abc");
    let e = format_tweet_at(&t, NOW).unwrap();
    assert_eq!(e.msg, "*alice*: see https://t\\.co/abc");
}

#[test]
fn links_are_cut_with_media() {
    let mut t = tw_plain(
        100,
        "alice",
        1,
        "pic https://t.co/xyz and https://twitter.com/a/status/1 https://t.cohttps://t.co",
    );
    t.entities_media = Some(vec![tw_photo("https://pbs.example/1.jpg")]);
    let e = format_tweet_at(&t, NOW).unwrap();
    assert_eq!(e.msg, "*alice*: pic /xyz and /a/status/1 ");
    assert_eq!(
        e.media,
        vec![Media {
            kind: MediaKind::Photo,
            url: "https://pbs.example/1.jpg".to_string(),
            caption: "alice".to_string(),
        }]
    );
}

#[test]
fn cutting_one_link_can_uncover_the_other() {
    let mut t = tw_plain(100, "alice", 1, "https://twitterhttps://t.co.com/x");
    t.entities_media = Some(vec![tw_photo("p")]);
    let e = format_tweet_at(&t, NOW).unwrap();
    assert_eq!(e.msg, "*alice*: /x");
}

#[test]
fn tweet_at_the_edge_of_the_window() {
    let mut t = tw_plain(100, "alice", 1, "x");
    t.created_at = NOW - RECENCY_WINDOW_MS;
    assert!(format_tweet_at(&t, NOW).is_some());
    t.created_at = NOW - RECENCY_WINDOW_MS - 1;
    assert!(format_tweet_at(&t, NOW).is_none());
    t.created_at = NOW + 5;
    assert!(format_tweet_at(&t, NOW).is_some());
}

#[test]
fn window_check_does_not_overflow() {
    let mut t = tw_plain(100, "alice", 1, "x");
    t.created_at = i64::MAX;
    assert!(format_tweet_at(&t, i64::MIN).is_some());
    assert!(format_tweet_at(&t, i64::MAX).is_some());
    t.created_at = i64::MIN;
    assert!(format_tweet_at(&t, i64::MAX).is_none());
    assert!(format_tweet_at(&t, i64::MIN).is_some());
}

#[test]
fn retweet_takes_age_and_address_from_the_original() {
    let mut t = tw_plain(100, "alice", 42, "RT @bob: hi");
    t.retweeted_status = Some(RetweetedStatus {
        id: 7,
        created_at: NOW - RECENCY_WINDOW_MS - 1,
        user: Some(tw_user(999, "bob")),
    });
    assert!(format_tweet_at(&t, NOW).is_none());
    t.retweeted_status.as_mut().unwrap().created_at = NOW - 10;
    t.created_at = NOW - RECENCY_WINDOW_MS - 1;
    let e = format_tweet_at(&t, NOW).unwrap();
    assert_eq!(e.twitter_user_id, 100);
    assert_eq!(e.retweet_user_id, 999);
    assert_eq!(e.tweet_url, "https://twitter.com/bob/status/7");
    assert_eq!(e.msg, "*alice*: RT @bob: hi");
}

#[test]
fn retweet_media_is_captioned_with_the_original_author() {
    let mut t = tw_plain(100, "alice", 42, "RT");
    t.retweeted_status =
        Some(RetweetedStatus { id: 7, created_at: NOW, user: Some(tw_user(999, "bob")) });
    t.extended_media = Some(vec![tw_photo("photo")]);
    let e = format_tweet_at(&t, NOW).unwrap();
    assert_eq!(e.media.len(), 1);
    assert_eq!(e.media[0].caption, "bob");
}

#[test]
fn retweet_without_author_keeps_own_address() {
    let mut t = tw_plain(100, "alice", 42, "RT");
    t.retweeted_status = Some(RetweetedStatus { id: 7, created_at: NOW, user: None });
    let e = format_tweet_at(&t, NOW).unwrap();
    assert_eq!(e.retweet_user_id, 0);
    assert_eq!(e.tweet_url, "https://twitter.com/alice/status/42");
}

#[test]
fn self_retweet_is_dropped() {
    let mut t = tw_plain(100, "alice", 42, "RT");
    t.retweeted_status =
        Some(RetweetedStatus { id: 7, created_at: NOW, user: Some(tw_user(100, "alice")) });
    assert!(format_tweet_at(&t, NOW).is_none());
    assert!(format_tweet(&t).is_none());
}

#[test]
fn author_zero_counts_as_self_retweet() {
    let t = tw_plain(0, "nobody", 42, "x");
    assert!(format_tweet_at(&t, NOW).is_none());
}

#[test]
fn format_tweet_reads_the_clock() {
    let mut t = tw_plain(100, "alice", 42, "x");
    t.created_at = 0;
    assert!(format_tweet(&t).is_none());
    t.created_at = i64::MAX;
    let e = format_tweet(&t).unwrap();
    assert_eq!(e.tweet_url, "https://twitter.com/alice/status/42");
}

#[test]
fn largest_status_id_is_written_out() {
    let t = tw_plain(100, "alice", u64::MAX, "x");
    let e = format_tweet_at(&t, NOW).unwrap();
    assert_eq!(e.tweet_url, "https://twitter.com/alice/status/18446744073709551615");
    let t = tw_plain(100, "alice", 0, "x");
    assert_eq!(
        format_tweet_at(&t, NOW).unwrap().tweet_url,
        "https://twitter.com/alice/status/0"
    );
}

#[test]
fn extended_media_goes_first() {
    let mut t = tw_plain(100, "alice", 1, "x");
    t.extended_media = Some(vec![tw_photo("ext1"), tw_photo("ext2")]);
    t.entities_media = Some(vec![tw_photo("plain")]);
    let e = format_tweet_at(&t, NOW).unwrap();
    let urls: Vec<&str> = e.media.iter().map(|m| m.url.as_str()).collect();
    assert_eq!(urls, vec!["ext1", "ext2"]);
    t.extended_media = Some(Vec::new());
    let e = format_tweet_at(&t, NOW).unwrap();
    assert!(e.media.is_empty());
    assert_eq!(e.msg, "*alice*: x");
}

#[test]
fn unsendable_media_is_left_out() {
    let mut t = tw_plain(100, "alice", 1, "https://t.co/a");
    t.entities_media = Some(vec![
        tw_video("v0", Vec::new()),
        tw_photo("p"),
        tw_video("v1", vec![tw_variant(None, "playlist")]),
    ]);
    let e = format_tweet_at(&t, NOW).unwrap();
    assert_eq!(e.media.len(), 1);
    assert_eq!(e.media[0].kind, MediaKind::Photo);
    t.entities_media = Some(vec![tw_video("v0", Vec::new())]);
    let e = format_tweet_at(&t, NOW).unwrap();
    assert!(e.media.is_empty());
    assert_eq!(e.msg, "*alice*: https://t\\.co/a");
}

#[test]
fn max_bitrate_takes_first_of_the_largest() {
    let m = tw_video(
        "thumb",
        vec![
            tw_variant(None, "playlist"),
            tw_variant(Some(100), "low"),
            tw_variant(Some(300), "high-a"),
            tw_variant(Some(300), "high-b"),
            tw_variant(Some(200), "mid"),
        ],
    );
    assert_eq!(get_max_video_bitrate(&m), (300, Some("high-a".to_string())));
}

#[test]
fn max_bitrate_without_usable_variant() {
    assert_eq!(get_max_video_bitrate(&tw_photo("p")), (0, None));
    assert_eq!(get_max_video_bitrate(&tw_video("v", Vec::new())), (0, None));
    assert_eq!(
        get_max_video_bitrate(&tw_video("v", vec![tw_variant(None, "a"), tw_variant(None, "b")])),
        (0, None)
    );
}

#[test]
fn max_bitrate_of_zero_and_negative_rates() {
    let gif = MediaEntity {
        media_type: MediaType::Gif,
        media_url: "thumb".to_string(),
        video_variants: Some(vec![tw_variant(Some(0), "gif.mp4")]),
    };
    assert_eq!(get_max_video_bitrate(&gif), (0, Some("gif.mp4".to_string())));
    let odd = tw_video("v", vec![tw_variant(Some(-7), "a"), tw_variant(Some(-9), "b")]);
    assert_eq!(get_max_video_bitrate(&odd), (-7, Some("a".to_string())));
}

#[test]
fn media_entity_becomes_media() {
    assert_eq!(
        get_media_from_media_entity(&tw_photo("p"), "cap"),
        Some(Media { kind: MediaKind::Photo, url: "p".to_string(), caption: "cap".to_string() })
    );
    let gif = MediaEntity {
        media_type: MediaType::Gif,
        media_url: "g".to_string(),
        video_variants: None,
    };
    assert_eq!(
        get_media_from_media_entity(&gif, "cap"),
        Some(Media {
            kind: MediaKind::Animation,
            url: "g".to_string(),
            caption: "cap".to_string()
        })
    );
    let gif_with_video = MediaEntity {
        media_type: MediaType::Gif,
        media_url: "g".to_string(),
        video_variants: Some(vec![tw_variant(Some(0), "g.mp4")]),
    };
    assert_eq!(
        get_media_from_media_entity(&gif_with_video, ""),
        Some(Media { kind: MediaKind::Video, url: "g.mp4".to_string(), caption: String::new() })
    );
    let video = tw_video("thumb", vec![tw_variant(Some(5), "v.mp4")]);
    assert_eq!(
        get_media_from_media_entity(&video, "cap"),
        Some(Media {
            kind: MediaKind::Video,
            url: "v.mp4".to_string(),
            caption: "cap".to_string()
        })
    );
    assert_eq!(get_media_from_media_entity(&tw_video("thumb", Vec::new()), "cap"), None);
}
