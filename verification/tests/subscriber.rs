use twitter2telegram::digest::token_hash;
use twitter2telegram::models::Blacklist;
use twitter2telegram::models::BlacklistType;
use twitter2telegram::models::Follow;
use twitter2telegram::probe::is_token_readable;
use twitter2telegram::probe::probe_handle;
use twitter2telegram::probe::Lookup;
use twitter2telegram::probe::PROBE_ACCOUNT_ID;
use twitter2telegram::subscriber::SubscriberError;
use twitter2telegram::subscriber::TwitterSubscriber;

const C1: &str = r#"{"Bearer":"one"}"#;
const C2: &str = r#"{"Bearer":"two"}"#;
const C3: &str = r#"{"Access":{"consumer":{"key":"ck","secret":"cs"},"access":{"key":"ak","secret":"as"}}}"#;

fn sub_valid() -> Lookup {
    Lookup::Handle("Twitter".to_string())
}

fn sub_follow(user_id: i64, twitter_user_id: i64) -> Follow {
    Follow {
        id: None,
        user_id,
        twitter_user_id,
        twitter_username: format!("user{}", twitter_user_id),
        created_at: 0,
        follow_rt_count: 0,
        block_rt_count: 0,
    }
}

fn sub_block(user_id: i64, twitter_user_id: i64, type_: i32) -> Blacklist {
    Blacklist {
        id: None,
        user_id,
        twitter_user_id,
        twitter_username: format!("user{}", twitter_user_id),
        created_at: 0,
        type_,
    }
}

fn sub_with(tokens: &[&str]) -> TwitterSubscriber {
    let mut ts = TwitterSubscriber::new(&Vec::new());
    for (i, t) in tokens.iter().enumerate() {
        ts.add_token(1000 + i as i64, t, &sub_valid()).unwrap();
    }
    ts
}

#[test]
fn blacklist_type_codes() {
    assert_eq!(BlacklistType::BlockRT.toi32(), 1);
    assert_eq!(BlacklistType::BlockTwitter.toi32(), 2);
}

#[test]
fn token_hash_is_md5_of_the_token() {
    assert_eq!(token_hash(""), 0xd41d8cd98f00b204e9800998ecf8427e_u128);
    assert_eq!(token_hash("abc"), 0x900150983cd24fb0d6963f7d28e17f72_u128);
    assert_eq!(token_hash(C1), u128::from_be_bytes(md5::compute(C1).0));
    assert_ne!(token_hash(C1), token_hash(C2));
    assert_eq!(token_hash(C2), token_hash(C2));
}

#[test]
fn token_readable_only_as_json_token() {
    assert!(is_token_readable(C1));
    assert!(is_token_readable(C3));
    assert!(!is_token_readable(""));
    assert!(!is_token_readable("not a token"));
    assert!(!is_token_readable(r#"{"Bearer":1}"#));
    assert!(!is_token_readable(r#"{"Unknown":"x"}"#));
}

#[test]
fn probe_constants() {
    assert_eq!(PROBE_ACCOUNT_ID, 783214);
    assert_eq!(probe_handle(), "Twitter");
}

#[test]
fn check_token_valid_judges_the_lookup() {
    assert_eq!(TwitterSubscriber::check_token_valid(C1, &sub_valid()), Ok(true));
    assert_eq!(
        TwitterSubscriber::check_token_valid(C1, &Lookup::Handle("twitter".to_string())),
        Ok(false)
    );
    assert_eq!(
        TwitterSubscriber::check_token_valid(C1, &Lookup::Handle("".to_string())),
        Ok(false)
    );
    assert_eq!(
        TwitterSubscriber::check_token_valid(C1, &Lookup::Failed),
        Err(SubscriberError::TransportError)
    );
    assert_eq!(
        TwitterSubscriber::check_token_valid("{", &sub_valid()),
        Err(SubscriberError::TokenMalformed)
    );
    assert_eq!(
        TwitterSubscriber::check_token_valid("", &Lookup::Failed),
        Err(SubscriberError::TokenMalformed)
    );
}

#[test]
fn add_token_registers_after_valid_probe() {
    let mut ts = TwitterSubscriber::new(&Vec::new());
    assert!(!ts.has_token(C1));
    assert_eq!(ts.pick_least_loaded(), None);
    assert_eq!(ts.add_token(7, C1, &sub_valid()), Ok(()));
    assert!(ts.has_token(C1));
    assert_eq!(ts.owner(C1), Some(7));
    assert_eq!(ts.filter_set(C1), Some(Vec::new()));
    assert!(!ts.has_session(C1));
    assert_eq!(ts.pick_least_loaded(), Some(token_hash(C1)));
}

#[test]
fn add_token_expired() {
    let mut ts = TwitterSubscriber::new(&Vec::new());
    assert_eq!(
        ts.add_token(7, C1, &Lookup::Handle("Someone".to_string())),
        Err(SubscriberError::CredentialExpired)
    );
    assert!(!ts.has_token(C1));
}

#[test]
fn add_token_malformed() {
    let mut ts = TwitterSubscriber::new(&Vec::new());
    assert_eq!(ts.add_token(7, "garbage", &sub_valid()), Err(SubscriberError::TokenMalformed));
    assert_eq!(ts.add_token(7, "", &sub_valid()), Err(SubscriberError::TokenMalformed));
    assert!(!ts.has_token("garbage"));
    assert!(!ts.has_token(""));
}

#[test]
fn add_token_transport_error() {
    let mut ts = TwitterSubscriber::new(&Vec::new());
    assert_eq!(ts.add_token(7, C1, &Lookup::Failed), Err(SubscriberError::TransportError));
    assert!(!ts.has_token(C1));
}

#[test]
fn add_token_twice_is_a_no_op() {
    let mut ts = sub_with(&[C1]);
    let f = sub_follow(1, 100);
    ts.add_follow(&f, 0).unwrap();
    assert_eq!(ts.add_token(99, C1, &Lookup::Failed), Ok(()));
    assert_eq!(ts.add_token(99, C1, &Lookup::Handle("x".to_string())), Ok(()));
    assert_eq!(ts.owner(C1), Some(1000));
    assert_eq!(ts.filter_set(C1), Some(vec![100]));
}

#[test]
fn add_follow_without_credential() {
    let mut ts = TwitterSubscriber::new(&Vec::new());
    assert_eq!(ts.add_follow(&sub_follow(1, 100), 5), Err(SubscriberError::NoCredential));
    assert!(!ts.is_following(1, 100));
    assert_eq!(ts.follow_rt_count(1, 5), 0);
    assert!(ts.followers(100).is_empty());
}

#[test]
fn two_credentials_two_accounts() {
    let mut ts = sub_with(&[C1, C2]);
    assert_eq!(ts.add_follow(&sub_follow(1, 100), 0), Ok(C2.to_string()));
    assert_eq!(ts.add_follow(&sub_follow(2, 200), 0), Ok(C1.to_string()));
    assert_eq!(ts.filter_set(C1), Some(vec![200]));
    assert_eq!(ts.filter_set(C2), Some(vec![100]));
    assert_eq!(ts.subscribe(C1), Ok(Some(vec![200])));
    assert_eq!(ts.subscribe(C2), Ok(Some(vec![100])));
}

#[test]
fn newest_credential_wins_ties() {
    let mut ts = sub_with(&[C1, C2, C3]);
    assert_eq!(ts.pick_least_loaded(), Some(token_hash(C3)));
    ts.add_follow(&sub_follow(1, 10), 0).unwrap();
    assert_eq!(ts.pick_least_loaded(), Some(token_hash(C2)));
    ts.add_follow(&sub_follow(1, 11), 0).unwrap();
    assert_eq!(ts.pick_least_loaded(), Some(token_hash(C1)));
    ts.add_follow(&sub_follow(1, 12), 0).unwrap();
    assert_eq!(ts.pick_least_loaded(), Some(token_hash(C3)));
    assert_eq!(ts.filter_set(C3), Some(vec![10]));
    assert_eq!(ts.filter_set(C2), Some(vec![11]));
    assert_eq!(ts.filter_set(C1), Some(vec![12]));
}

#[test]
fn subscriptions_stay_balanced() {
    let mut ts = sub_with(&[C1, C2, C3]);
    for k in 0..10 {
        ts.add_follow(&sub_follow(1 + (k % 4), 500 + k), 0).unwrap();
        let sizes: Vec<usize> =
            [C1, C2, C3].iter().map(|c| ts.filter_set(c).unwrap().len()).collect();
        let max = *sizes.iter().max().unwrap();
        let min = *sizes.iter().min().unwrap();
        assert!(max - min <= 1);
        assert_eq!(sizes.iter().sum::<usize>(), (k + 1) as usize);
    }
    assert_eq!(ts.filter_set(C3).unwrap().len(), 4);
    assert_eq!(ts.filter_set(C2).unwrap().len(), 3);
    assert_eq!(ts.filter_set(C1).unwrap().len(), 3);
}

#[test]
fn every_carried_account_has_one_credential() {
    let mut ts = sub_with(&[C1, C2]);
    for a in 1..=6 {
        ts.add_follow(&sub_follow(1, a), 0).unwrap();
        ts.add_follow(&sub_follow(2, a), 0).unwrap();
    }
    ts.remove_follow(1, 3);
    ts.remove_follow(2, 3);
    ts.remove_follow(2, 4);
    ts.add_token(1002, C3, &sub_valid()).unwrap();
    ts.add_follow(&sub_follow(3, 7), 0).unwrap();
    ts.add_follow(&sub_follow(3, 3), 0).unwrap();
    ts.remove_token(C1);
    for a in 1..=8 {
        let holders = [C1, C2, C3]
            .iter()
            .filter(|c| ts.filter_set(c).map(|f| f.contains(&a)).unwrap_or(false))
            .count();
        if ts.is_carried(a) {
            assert_eq!(holders, 1);
            assert!(!ts.followers(a).is_empty());
        } else {
            assert_eq!(holders, 0);
            assert!(ts.followers(a).is_empty());
        }
    }
    for c in [C2, C3] {
        let f = ts.filter_set(c).unwrap();
        let mut sorted = f.clone();
        sorted.sort();
        sorted.dedup();
        assert_eq!(sorted.len(), f.len());
    }
}

#[test]
fn second_subscriber_joins_without_rebalance() {
    let mut ts = sub_with(&[C1]);
    assert_eq!(ts.add_follow(&sub_follow(1, 100), 0), Ok(C1.to_string()));
    assert_eq!(ts.add_follow(&sub_follow(2, 100), 0), Ok(String::new()));
    assert_eq!(ts.followers(100), vec![1, 2]);
    assert!(ts.is_following(2, 100));
    assert_eq!(ts.filter_set(C1), Some(vec![100]));
}

#[test]
fn subscribing_twice_changes_nothing() {
    let mut ts = sub_with(&[C1]);
    ts.add_follow(&sub_follow(1, 100), 0).unwrap();
    assert_eq!(ts.add_follow(&sub_follow(1, 100), 0), Ok(String::new()));
    assert_eq!(ts.followers(100), vec![1]);
    assert_eq!(ts.filter_set(C1), Some(vec![100]));
}

#[test]
fn follow_counter_counts_the_source() {
    let mut ts = sub_with(&[C1]);
    assert_eq!(ts.follow_rt_count(1, 55), 0);
    ts.add_follow(&sub_follow(1, 100), 55).unwrap();
    assert_eq!(ts.follow_rt_count(1, 55), 1);
    ts.add_follow(&sub_follow(1, 101), 55).unwrap();
    assert_eq!(ts.follow_rt_count(1, 55), 2);
    ts.add_follow(&sub_follow(1, 102), 0).unwrap();
    ts.add_follow(&sub_follow(1, 103), -3).unwrap();
    assert_eq!(ts.follow_rt_count(1, 55), 2);
    assert_eq!(ts.follow_rt_count(1, 0), 0);
    assert_eq!(ts.follow_rt_count(1, -3), 0);
    assert_eq!(ts.follow_rt_count(2, 55), 0);
}

#[test]
fn remove_follow_keeps_account_while_subscribed() {
    let mut ts = sub_with(&[C1]);
    ts.add_follow(&sub_follow(1, 100), 0).unwrap();
    ts.add_follow(&sub_follow(2, 100), 0).unwrap();
    assert_eq!(ts.remove_follow(1, 100), "");
    assert_eq!(ts.followers(100), vec![2]);
    assert!(!ts.is_following(1, 100));
    assert!(ts.is_following(2, 100));
    assert!(ts.is_carried(100));
    assert_eq!(ts.filter_set(C1), Some(vec![100]));
}

#[test]
fn remove_follow_of_unknown_subscription() {
    let mut ts = sub_with(&[C1]);
    ts.add_follow(&sub_follow(1, 100), 0).unwrap();
    assert_eq!(ts.remove_follow(2, 100), "");
    assert_eq!(ts.remove_follow(1, 999), "");
    assert_eq!(ts.remove_follow(5, 999), "");
    assert_eq!(ts.followers(100), vec![1]);
    assert_eq!(ts.filter_set(C1), Some(vec![100]));
}

#[test]
fn last_unsubscribe_ends_the_worker() {
    let mut ts = sub_with(&[C1]);
    ts.add_follow(&sub_follow(1, 100), 0).unwrap();
    assert_eq!(ts.subscribe(C1), Ok(Some(vec![100])));
    assert!(ts.has_session(C1));
    assert_eq!(ts.remove_follow(1, 100), C1);
    assert!(!ts.has_session(C1));
    assert_eq!(ts.filter_set(C1), Some(Vec::new()));
    assert!(!ts.is_carried(100));
    assert!(ts.followers(100).is_empty());
    assert_eq!(ts.subscribe(C1), Ok(None));
    assert!(!ts.has_session(C1));
}

#[test]
fn remove_follow_takes_account_out_of_the_middle() {
    let mut ts = sub_with(&[C1]);
    for a in [10, 20, 30] {
        ts.add_follow(&sub_follow(1, a), 0).unwrap();
    }
    assert_eq!(ts.remove_follow(1, 20), C1);
    assert_eq!(ts.filter_set(C1), Some(vec![10, 30]));
    assert_eq!(ts.add_follow(&sub_follow(1, 20), 0), Ok(C1.to_string()));
    assert_eq!(ts.filter_set(C1), Some(vec![10, 30, 20]));
}

#[test]
fn subscribe_plans_the_session() {
    let mut ts = sub_with(&[C1]);
    assert_eq!(ts.subscribe("nonsense"), Err(SubscriberError::TokenMalformed));
    assert_eq!(ts.subscribe(""), Err(SubscriberError::TokenMalformed));
    assert_eq!(ts.subscribe(C2), Ok(None));
    assert_eq!(ts.subscribe(C1), Ok(None));
    assert!(!ts.has_session(C1));
    ts.add_follow(&sub_follow(1, 100), 0).unwrap();
    assert_eq!(ts.subscribe(C1), Ok(Some(vec![100])));
    assert!(ts.has_session(C1));
}

#[test]
fn rebalance_coalescing() {
    let mut ts = sub_with(&[C1]);
    let mut restarts = 0;
    let mut last = None;
    for a in 1..=10 {
        let token = ts.add_follow(&sub_follow(1, a), 0).unwrap();
        assert_eq!(token, C1);
    }
    for _ in 0..10 {
        if let Ok(Some(filter)) = ts.subscribe(C1) {
            restarts += 1;
            last = Some(filter);
        }
    }
    assert!(restarts <= 10);
    assert_eq!(last, Some((1..=10).collect::<Vec<i64>>()));
    assert_eq!(ts.filter_set(C1), last);
}

#[test]
fn credential_expiry() {
    let mut ts = sub_with(&[C1]);
    ts.add_follow(&sub_follow(1, 100), 0).unwrap();
    ts.add_follow(&sub_follow(2, 100), 0).unwrap();
    ts.add_follow(&sub_follow(2, 200), 0).unwrap();
    ts.subscribe(C1).unwrap();
    assert_eq!(ts.remove_token(C1), Some(1000));
    assert!(!ts.has_token(C1));
    assert_eq!(ts.filter_set(C1), None);
    assert_eq!(ts.pick_least_loaded(), None);
    assert!(ts.followers(100).is_empty());
    assert!(ts.followers(200).is_empty());
    assert!(!ts.is_following(1, 100));
    assert!(!ts.is_following(2, 100));
    assert!(!ts.is_following(2, 200));
    assert!(!ts.is_carried(100));
    assert_eq!(ts.add_follow(&sub_follow(3, 300), 0), Err(SubscriberError::NoCredential));
    assert_eq!(ts.add_follow(&sub_follow(1, 100), 0), Err(SubscriberError::NoCredential));
    ts.add_token(5, C2, &sub_valid()).unwrap();
    assert_eq!(ts.add_follow(&sub_follow(1, 100), 0), Ok(C2.to_string()));
}

#[test]
fn remove_token_leaves_other_credentials() {
    let mut ts = sub_with(&[C1, C2]);
    ts.add_follow(&sub_follow(1, 100), 0).unwrap();
    ts.add_follow(&sub_follow(1, 200), 0).unwrap();
    assert_eq!(ts.remove_token(C2), Some(1001));
    assert!(ts.has_token(C1));
    assert_eq!(ts.filter_set(C1), Some(vec![200]));
    assert!(!ts.is_following(1, 100));
    assert!(ts.is_following(1, 200));
    assert_eq!(ts.pick_least_loaded(), Some(token_hash(C1)));
}

#[test]
fn remove_token_unknown() {
    let mut ts = sub_with(&[C1]);
    ts.add_follow(&sub_follow(1, 100), 0).unwrap();
    assert_eq!(ts.remove_token(C2), None);
    assert_eq!(ts.remove_token("junk"), None);
    assert_eq!(ts.filter_set(C1), Some(vec![100]));
    assert_eq!(ts.followers(100), vec![1]);
}

#[test]
fn block_and_unblock_are_idempotent() {
    let mut ts = TwitterSubscriber::new(&Vec::new());
    assert!(!ts.is_blocked(1, 999, 2));
    assert_eq!(ts.block(&sub_block(1, 999, 2), 0), Ok(()));
    assert_eq!(ts.block(&sub_block(1, 999, 2), 0), Ok(()));
    assert!(ts.is_blocked(1, 999, 2));
    assert!(!ts.is_blocked(1, 999, 1));
    assert!(!ts.is_blocked(2, 999, 2));
    ts.unblock(1, 999, 1);
    assert!(ts.is_blocked(1, 999, 2));
    ts.unblock(1, 999, 2);
    assert!(!ts.is_blocked(1, 999, 2));
    ts.unblock(1, 999, 2);
    ts.unblock(7, 1, 1);
    assert!(!ts.is_blocked(1, 999, 2));
}

#[test]
fn block_counter_counts_kind_two_only() {
    let mut ts = TwitterSubscriber::new(&Vec::new());
    ts.block(&sub_block(1, 999, 2), 100).unwrap();
    assert_eq!(ts.block_rt_count(1, 100), 1);
    ts.block(&sub_block(1, 998, 2), 100).unwrap();
    assert_eq!(ts.block_rt_count(1, 100), 2);
    ts.block(&sub_block(1, 100, 1), 100).unwrap();
    assert_eq!(ts.block_rt_count(1, 100), 2);
    ts.block(&sub_block(1, 999, 2), 100).unwrap();
    assert_eq!(ts.block_rt_count(1, 100), 3);
    assert_eq!(ts.block_rt_count(1, 999), 0);
    assert_eq!(ts.follow_rt_count(1, 100), 0);
}

#[test]
fn new_reads_the_stored_blocks() {
    let rows = vec![
        sub_block(1, 999, 2),
        sub_block(2, 100, 1),
        sub_block(1, 100, 1),
        sub_block(1, 999, 2),
    ];
    let mut ts = TwitterSubscriber::new(&rows);
    assert!(ts.is_blocked(1, 999, 2));
    assert!(ts.is_blocked(1, 100, 1));
    assert!(ts.is_blocked(2, 100, 1));
    assert!(!ts.is_blocked(2, 999, 2));
    assert!(!ts.is_blocked(3, 999, 2));
    assert_eq!(ts.pick_least_loaded(), None);
    ts.unblock(1, 999, 2);
    assert!(!ts.is_blocked(1, 999, 2));
}

#[test]
fn returned_token_reaches_the_credential_that_changed() {
    let mut ts = sub_with(&[C1, C2, C3]);
    for a in 1..=7 {
        let token = ts.add_follow(&sub_follow(1, a), 0).unwrap();
        assert!(ts.has_token(&token));
        assert!(ts.filter_set(&token).unwrap().contains(&a));
        assert_eq!(ts.subscribe(&token).unwrap(), ts.filter_set(&token));
    }
    for a in 1..=7 {
        let before = [C1, C2, C3].iter().find(|c| ts.filter_set(c).unwrap().contains(&a)).unwrap();
        let token = ts.remove_follow(1, a);
        assert_eq!(&token, before);
        assert!(!ts.filter_set(&token).unwrap().contains(&a));
    }
}

#[test]
fn one_credential_collects_every_account_in_order() {
    let mut ts = sub_with(&[C1]);
    let accounts = [40, 7, 19, 3, 88];
    for (i, a) in accounts.iter().enumerate() {
        assert_eq!(ts.add_follow(&sub_follow(i as i64, *a), i as i64), Ok(C1.to_string()));
    }
    assert_eq!(ts.filter_set(C1), Some(accounts.to_vec()));
    assert_eq!(ts.subscribe(C1), Ok(Some(accounts.to_vec())));
}
