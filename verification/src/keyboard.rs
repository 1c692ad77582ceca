use crate::model::count_of;
use crate::model::SubscriberState;
use crate::subscriber::TwitterSubscriber;
use crate::text::decimal_i64;
use crate::text::spec_decimal_int;
use vstd::prelude::*;
use vstd::string::StringExecFns;

verus! {

/// A button under a delivered tweet: pressing it sends `data` back as a
/// command.
#[derive(Clone, Debug, PartialEq, Eq)]
pub struct InlineButton {
    pub text: String,
    pub data: String,
}

/// An `InlineButton` as a mathematical value.
pub struct InlineButtonView {
    pub text: Seq<char>,
    pub data: Seq<char>,
}

impl View for InlineButton {
    type V = InlineButtonView;

    open spec fn view(&self) -> InlineButtonView {
        InlineButtonView { text: self.text@, data: self.data@ }
    }
}

/// The buttons under a tweet of `twitter_user_id` delivered to `tg_user_id`.
/// Under a retweet of `retweet_user_id` there are four: block the original
/// author, follow the original author or, where the tenant follows that
/// account already, unfollow it, block the retweets of the sender, unfollow
/// the sender. The two labels with a number show how many follows and blocks
/// the tenant made from tweets of the sender. Under a tweet that is no
/// retweet there is one button, to unfollow the sender.
pub open spec fn spec_inline_buttons(
    s: SubscriberState,
    tg_user_id: i64,
    retweet_user_id: i64,
    twitter_user_id: i64,
) -> Seq<InlineButtonView> {
    let sender = spec_decimal_int(twitter_user_id as int);
    let original = spec_decimal_int(retweet_user_id as int);
    let follows = spec_decimal_int(count_of(s.follow_count, tg_user_id, twitter_user_id) as int);
    let blocks = spec_decimal_int(count_of(s.block_count, tg_user_id, twitter_user_id) as int);
    if retweet_user_id != 0 {
        seq![
            InlineButtonView { text: "🚫RTer"@, data: "/BlockTwitterID 2 "@ + original },
            if !s.subscribed(tg_user_id, retweet_user_id) {
                InlineButtonView {
                    text: "👀RTer("@ + follows + ")"@,
                    data: "/FollowTwitterID "@ + original + " "@ + sender,
                }
            } else {
                InlineButtonView { text: "❌RT"@, data: "/UnfollowTwitterID "@ + original }
            },
            InlineButtonView {
                text: "🚫RT("@ + blocks + ")"@,
                data: "/BlockTwitterID 1 "@ + sender + " 0"@,
            },
            InlineButtonView { text: "❌"@, data: "/UnfollowTwitterID "@ + sender },
        ]
    } else {
        seq![InlineButtonView { text: "Unfollow"@, data: "/UnfollowTwitterID "@ + sender }]
    }
}

/// `head`, then `a`.
fn join2(head: &str, a: &str) -> (s: String)
    ensures
        s@ == head@ + a@,
{
    let mut s = String::from_str(head);
    s.append(a);
    s
}

/// `head`, then `a`, then `mid`, then `b`.
fn join4(head: &str, a: &str, mid: &str, b: &str) -> (s: String)
    ensures
        s@ == head@ + a@ + mid@ + b@,
{
    let mut s = String::from_str(head);
    s.append(a);
    s.append(mid);
    s.append(b);
    s
}

/// The buttons under a tweet of `twitter_user_id` delivered to `tg_user_id`,
/// where `retweet_user_id` is the account whose tweet was retweeted, 0 where
/// the tweet is no retweet.
pub fn get_inline_buttons(
    tg_user_id: i64,
    retweet_user_id: i64,
    ts: &TwitterSubscriber,
    twitter_user_id: i64,
) -> (r: Vec<InlineButton>)
    ensures
        r@.map_values(|b: InlineButton| b@) == spec_inline_buttons(
            ts@,
            tg_user_id,
            retweet_user_id,
            twitter_user_id,
        ),
{
    let follow_count = ts.follow_rt_count(tg_user_id, twitter_user_id);
    let block_count = ts.block_rt_count(tg_user_id, twitter_user_id);
    let sender = decimal_i64(twitter_user_id);
    let mut inline_buttons: Vec<InlineButton> = Vec::new();
    if retweet_user_id != 0 {
        let original = decimal_i64(retweet_user_id);
        inline_buttons.push(
            InlineButton {
                text: String::from_str("🚫RTer"),
                data: join2("/BlockTwitterID 2 ", original.as_str()),
            },
        );
        if !ts.is_following(tg_user_id, retweet_user_id) {
            let follows = decimal_i64(follow_count);
            inline_buttons.push(
                InlineButton {
                    text: join4("👀RTer(", follows.as_str(), ")", ""),
                    data: join4("/FollowTwitterID ", original.as_str(), " ", sender.as_str()),
                },
            );
        } else {
            inline_buttons.push(
                InlineButton {
                    text: String::from_str("❌RT"),
                    data: join2("/UnfollowTwitterID ", original.as_str()),
                },
            );
        }
        let blocks = decimal_i64(block_count);
        inline_buttons.push(
            InlineButton {
                text: join4("🚫RT(", blocks.as_str(), ")", ""),
                data: join4("/BlockTwitterID 1 ", sender.as_str(), " 0", ""),
            },
        );
        inline_buttons.push(
            InlineButton {
                text: String::from_str("❌"),
                data: join2("/UnfollowTwitterID ", sender.as_str()),
            },
        );
    } else {
        inline_buttons.push(
            InlineButton {
                text: String::from_str("Unfollow"),
                data: join2("/UnfollowTwitterID ", sender.as_str()),
            },
        );
    }
    proof {
        reveal_strlit("");
        assert(""@ =~= Seq::<char>::empty());
        assert(inline_buttons@.map_values(|b: InlineButton| b@) =~= spec_inline_buttons(
            ts@,
            tg_user_id,
            retweet_user_id,
            twitter_user_id,
        ));
    }
    inline_buttons
}

} // verus!
