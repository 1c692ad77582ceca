use vstd::prelude::*;

verus! {

/// The two kinds of block a tenant can place on a source account.
#[derive(Clone, Copy, Debug, PartialEq, Eq, Structural)]
pub enum BlacklistType {
    /// Retweets made by the account are not delivered.
    BlockRT,
    /// Retweets of the account's own tweets are not delivered.
    BlockTwitter,
}

impl BlacklistType {
    /// The number under which the kind is stored and appears in commands.
    pub open spec fn code(self) -> i32 {
        match self {
            BlacklistType::BlockRT => 1,
            BlacklistType::BlockTwitter => 2,
        }
    }

    pub fn toi32(&self) -> (r: i32)
        ensures
            r == self.code(),
    {
        match self {
            BlacklistType::BlockRT => 1,
            BlacklistType::BlockTwitter => 2,
        }
    }
}

/// A stored block: `user_id` does not want what `twitter_user_id` is involved
/// in, in the way `type_` says. Times are seconds since the Unix epoch.
#[derive(Clone, Debug, PartialEq, Eq)]
pub struct Blacklist {
    pub id: Option<i32>,
    pub user_id: i64,
    pub twitter_user_id: i64,
    pub twitter_username: String,
    pub created_at: i64,
    pub type_: i32,
}

/// A stored subscription of `user_id` to the source account `twitter_user_id`.
#[derive(Clone, Debug, PartialEq, Eq)]
pub struct Follow {
    pub id: Option<i32>,
    pub user_id: i64,
    pub twitter_user_id: i64,
    pub twitter_username: String,
    pub created_at: i64,
    pub follow_rt_count: i64,
    pub block_rt_count: i64,
}

/// A tenant as the store keeps it.
#[derive(Clone, Debug, PartialEq, Eq)]
pub struct User {
    pub id: i64,
    pub label: String,
    pub twitter_access_token: Option<String>,
    pub twitter_status: bool,
    pub created_at: i64,
    pub disable_retweet: bool,
    pub disable_text_msg: bool,
}

} // verus!
