use crate::command::Command;
use crate::command::CommandView;
use crate::markdown::escape;
use crate::markdown::spec_escape;
use crate::models::User;
use crate::text::chars_of;
use crate::text::decimal_i64;
use crate::text::spec_decimal_int;
use vstd::prelude::*;
use vstd::string::StringExecFns;

verus! {

/// What has to be done for a command, once the checks that need no outside
/// work are made.
#[derive(Clone, Debug, PartialEq, Eq)]
pub enum Plan {
    /// Answer with this text and do nothing else.
    Reply(String),
    /// Answer with the menu.
    ShowMenu,
    /// Ask Twitter for an authorisation address for the tenant and send it.
    RequestAuthUrl { user_id: i64 },
    /// Exchange the code for a credential of the tenant and register it.
    VerifyCode { user_id: i64, code: String },
    /// Look the account up, store the subscription and add it.
    Follow { user_id: i64, twitter_user_id: i64, from_twitter_user_id: i64 },
    /// Delete the subscription and remove it.
    Unfollow { user_id: i64, twitter_user_id: i64 },
    /// Look the account up, store the block and add it.
    Block { user_id: i64, x_type: i32, twitter_user_id: i64, from_twitter_id: i64 },
    /// Delete the block and remove it.
    Unblock { user_id: i64, x_type: i32, twitter_user_id: i64 },
    /// Answer with the tenant's subscriptions.
    ListFollowed { user_id: i64 },
    /// Answer with the tenant's blocks of one kind.
    ListBlocked { user_id: i64, x_type: i32 },
    /// Store a new tenant.
    AddUser { telegram_id: i64, custom_label: String },
}

/// A `Plan` as a mathematical value.
pub enum PlanView {
    Reply(Seq<char>),
    ShowMenu,
    RequestAuthUrl { user_id: i64 },
    VerifyCode { user_id: i64, code: Seq<char> },
    Follow { user_id: i64, twitter_user_id: i64, from_twitter_user_id: i64 },
    Unfollow { user_id: i64, twitter_user_id: i64 },
    Block { user_id: i64, x_type: i32, twitter_user_id: i64, from_twitter_id: i64 },
    Unblock { user_id: i64, x_type: i32, twitter_user_id: i64 },
    ListFollowed { user_id: i64 },
    ListBlocked { user_id: i64, x_type: i32 },
    AddUser { telegram_id: i64, custom_label: Seq<char> },
}

impl View for Plan {
    type V = PlanView;

    open spec fn view(&self) -> PlanView {
        match *self {
            Plan::Reply(text) => PlanView::Reply(text@),
            Plan::ShowMenu => PlanView::ShowMenu,
            Plan::RequestAuthUrl { user_id } => PlanView::RequestAuthUrl { user_id },
            Plan::VerifyCode { user_id, code } => PlanView::VerifyCode { user_id, code: code@ },
            Plan::Follow { user_id, twitter_user_id, from_twitter_user_id } => PlanView::Follow {
                user_id,
                twitter_user_id,
                from_twitter_user_id,
            },
            Plan::Unfollow { user_id, twitter_user_id } => PlanView::Unfollow {
                user_id,
                twitter_user_id,
            },
            Plan::Block { user_id, x_type, twitter_user_id, from_twitter_id } => PlanView::Block {
                user_id,
                x_type,
                twitter_user_id,
                from_twitter_id,
            },
            Plan::Unblock { user_id, x_type, twitter_user_id } => PlanView::Unblock {
                user_id,
                x_type,
                twitter_user_id,
            },
            Plan::ListFollowed { user_id } => PlanView::ListFollowed { user_id },
            Plan::ListBlocked { user_id, x_type } => PlanView::ListBlocked { user_id, x_type },
            Plan::AddUser { telegram_id, custom_label } => PlanView::AddUser {
                telegram_id,
                custom_label: custom_label@,
            },
        }
    }
}

/// White space as Unicode defines it.
pub open spec fn is_whitespace(c: char) -> bool {
    let n = c as int;
    (9 <= n <= 13) || n == 32 || n == 133 || n == 160 || n == 5760 || (8192 <= n <= 8202) || n
        == 8232 || n == 8233 || n == 8239 || n == 8287 || n == 12288
}

/// A text without the white space at its start.
pub open spec fn trim_start(s: Seq<char>) -> Seq<char>
    decreases s.len(),
{
    if s.len() > 0 && is_whitespace(s[0]) {
        trim_start(s.skip(1))
    } else {
        s
    }
}

/// A text without the white space at its end.
pub open spec fn trim_end(s: Seq<char>) -> Seq<char>
    decreases s.len(),
{
    if s.len() > 0 && is_whitespace(s.last()) {
        trim_end(s.drop_last())
    } else {
        s
    }
}

/// The number of bytes that a character takes in UTF-8.
pub open spec fn utf8_width(c: char) -> nat {
    let n = c as int;
    if n < 128 {
        1
    } else if n < 2048 {
        2
    } else if n < 65536 {
        3
    } else {
        4
    }
}

/// The number of bytes that a text takes in UTF-8.
pub open spec fn utf8_len(s: Seq<char>) -> nat
    decreases s.len(),
{
    if s.len() == 0 {
        0
    } else {
        utf8_len(s.drop_last()) + utf8_width(s.last())
    }
}

/// A verification code is taken where, white space at its ends aside, it is
/// seven bytes long.
pub open spec fn code_acceptable(code: Seq<char>) -> bool {
    utf8_len(trim_end(trim_start(code))) == 7
}

/// The answer to a sender who is no tenant.
pub open spec fn spec_not_authorized(sender_id: i64) -> Seq<char> {
    "User "@ + spec_decimal_int(sender_id as int)
        + " not authorized, please contact administrator to add permissions"@
}

/// The checks that every tenant command passes before anything is done for
/// it: the tenant has authorised the bot with Twitter, and the account
/// named is a positive number.
pub open spec fn checked(user: User, account: i64, then: PlanView) -> PlanView {
    if !user.twitter_status {
        PlanView::Reply("Please get the Twitter authorization link and authorize first"@)
    } else if account <= 0 {
        PlanView::Reply("Incorrect ID"@)
    } else {
        then
    }
}

/// What is done for `command`, sent by `sender_id`, where `user` is the
/// tenant that the store holds for the sender, if it holds one, and
/// `telegram_admin_id` is the administrator. Only the administrator adds
/// tenants; everything else is for tenants only.
pub open spec fn spec_command_plan(
    user: Option<User>,
    sender_id: i64,
    telegram_admin_id: i64,
    command: CommandView,
) -> PlanView {
    match command {
        CommandView::AddUser { telegram_id, custom_label } => if sender_id != telegram_admin_id {
            PlanView::Reply("You are not an admin"@)
        } else if telegram_id <= 0 {
            PlanView::Reply("Incorrect ID"@)
        } else {
            PlanView::AddUser { telegram_id, custom_label }
        },
        _ => match user {
            None => PlanView::Reply(spec_not_authorized(sender_id)),
            Some(u) => match command {
                CommandView::Start => PlanView::ShowMenu,
                CommandView::GetTwitterAuthURL => PlanView::RequestAuthUrl { user_id: u.id },
                CommandView::SetTwitterVerifyCode(code) => if code_acceptable(code) {
                    PlanView::VerifyCode { user_id: u.id, code }
                } else {
                    PlanView::Reply(
                        spec_escape("The 7-digit authorization code cannot be empty"@),
                    )
                },
                CommandView::FollowTwitterID(account, from) => checked(
                    u,
                    account,
                    PlanView::Follow {
                        user_id: u.id,
                        twitter_user_id: account,
                        from_twitter_user_id: from,
                    },
                ),
                CommandView::UnfollowTwitterID(account) => checked(
                    u,
                    account,
                    PlanView::Unfollow { user_id: u.id, twitter_user_id: account },
                ),
                CommandView::BlockTwitterID { x_type, x_twitter_user_id, x_from_twitter_id } => {
                    checked(
                        u,
                        x_twitter_user_id,
                        PlanView::Block {
                            user_id: u.id,
                            x_type,
                            twitter_user_id: x_twitter_user_id,
                            from_twitter_id: x_from_twitter_id,
                        },
                    )
                },
                CommandView::UnblockTwitterID { x_type, x_twitter_user_id } => checked(
                    u,
                    x_twitter_user_id,
                    PlanView::Unblock { user_id: u.id, x_type, twitter_user_id: x_twitter_user_id },
                ),
                CommandView::ListFollowedTwitterID => checked(
                    u,
                    1,
                    PlanView::ListFollowed { user_id: u.id },
                ),
                CommandView::ListBlockedTwitterID(x_type) => checked(
                    u,
                    1,
                    PlanView::ListBlocked { user_id: u.id, x_type },
                ),
                CommandView::AddUser { telegram_id, custom_label } => PlanView::AddUser {
                    telegram_id,
                    custom_label,
                },
            },
        },
    }
}

/// Whether `c` is white space.
fn whitespace(c: char) -> (r: bool)
    ensures
        r == is_whitespace(c),
{
    let n = c as u32;
    (9 <= n && n <= 13) || n == 32 || n == 133 || n == 160 || n == 5760 || (8192 <= n && n <= 8202)
        || n == 8232 || n == 8233 || n == 8239 || n == 8287 || n == 12288
}

/// The number of bytes that `c` takes in UTF-8.
fn width(c: char) -> (r: usize)
    ensures
        r == utf8_width(c),
        1 <= r <= 4,
{
    let n = c as u32;
    if n < 128 {
        1
    } else if n < 2048 {
        2
    } else if n < 65536 {
        3
    } else {
        4
    }
}

/// Cutting white space off the start leaves the text from the first
/// position that holds none.
proof fn lemma_trim_start(s: Seq<char>, a: int)
    requires
        0 <= a <= s.len(),
        forall|j: int| 0 <= j < a ==> is_whitespace(#[trigger] s[j]),
        a < s.len() ==> !is_whitespace(s[a]),
    ensures
        trim_start(s) == s.skip(a),
    decreases a,
{
    if a == 0 {
        assert(s.skip(0) =~= s);
    } else {
        assert(is_whitespace(s[0]));
        let rest = s.skip(1);
        assert forall|j: int| 0 <= j < a - 1 implies is_whitespace(#[trigger] rest[j]) by {
            assert(rest[j] == s[j + 1]);
        }
        lemma_trim_start(rest, a - 1);
        assert(rest.skip(a - 1) =~= s.skip(a));
    }
}

/// Cutting white space off the end leaves the text up to the last position
/// that holds none.
proof fn lemma_trim_end(s: Seq<char>, b: int)
    requires
        0 <= b <= s.len(),
        forall|j: int| b <= j < s.len() ==> is_whitespace(#[trigger] s[j]),
        b > 0 ==> !is_whitespace(s[b - 1]),
    ensures
        trim_end(s) == s.take(b),
    decreases s.len() - b,
{
    if b == s.len() {
        assert(s.take(b) =~= s);
    } else {
        assert(is_whitespace(s.last()));
        let rest = s.drop_last();
        assert forall|j: int| b <= j < rest.len() implies is_whitespace(#[trigger] rest[j]) by {
            assert(rest[j] == s[j]);
        }
        lemma_trim_end(rest, b);
        assert(rest.take(b) =~= s.take(b));
    }
}

/// A longer text takes no fewer bytes.
proof fn lemma_utf8_len_grows(s: Seq<char>, k: int)
    requires
        0 <= k <= s.len(),
    ensures
        utf8_len(s.take(k)) <= utf8_len(s),
    decreases s.len() - k,
{
    if k == s.len() {
        assert(s.take(k) =~= s);
    } else {
        lemma_utf8_len_grows(s.drop_last(), k);
        assert(s.drop_last().take(k) =~= s.take(k));
    }
}

/// Whether a verification code is taken.
pub fn is_code_acceptable(code: &str) -> (r: bool)
    ensures
        r == code_acceptable(code@),
{
    let v = chars_of(code);
    let n = v.len();
    let mut a: usize = 0;
    while a < n && whitespace(v[a])
        invariant
            a <= n,
            n == v.len(),
            forall|j: int| 0 <= j < a ==> is_whitespace(#[trigger] v[j]),
        decreases n - a,
    {
        a += 1;
    }
    let mut b: usize = n;
    while b > a && whitespace(v[b - 1])
        invariant
            a <= b <= n,
            n == v.len(),
            forall|j: int| b <= j < n ==> is_whitespace(#[trigger] v[j]),
        decreases b,
    {
        b -= 1;
    }
    let ghost core = v@.subrange(a as int, b as int);
    proof {
        lemma_trim_start(v@, a as int);
        let rest = v@.skip(a as int);
        assert forall|j: int| b - a <= j < rest.len() implies is_whitespace(#[trigger] rest[j]) by {
            assert(rest[j] == v[a + j]);
        }
        if b > a {
            assert(rest[b - a - 1] == v[b - 1]);
        }
        lemma_trim_end(rest, b - a);
        assert(rest.take(b - a) =~= core);
        assert(core.take(0) =~= Seq::<char>::empty());
    }
    let mut total: usize = 0;
    let mut i: usize = a;
    while i < b
        invariant
            a <= i <= b <= n,
            n == v.len(),
            core == v@.subrange(a as int, b as int),
            core == trim_end(trim_start(code@)),
            total == utf8_len(core.take(i - a)),
            total <= 7,
        decreases b - i,
    {
        let w = width(v[i]);
        proof {
            assert(core.take(i - a + 1).drop_last() =~= core.take(i - a));
            assert(core.take(i - a + 1).last() == v[i as int]);
        }
        if total + w > 7 {
            proof {
                lemma_utf8_len_grows(core, i - a + 1);
            }
            return false;
        }
        total = total + w;
        i += 1;
    }
    proof {
        assert(core.take(b - a) =~= core);
    }
    total == 7
}

/// The checks that every tenant command passes.
fn check(user: &User, account: i64, then: Plan) -> (r: Plan)
    ensures
        r@ == checked(*user, account, then@),
{
    if !user.twitter_status {
        Plan::Reply(
            String::from_str("Please get the Twitter authorization link and authorize first"),
        )
    } else if account <= 0 {
        Plan::Reply(String::from_str("Incorrect ID"))
    } else {
        then
    }
}

/// Decides what is done for `command`, sent by `sender_id`. `user` is the
/// tenant that the store holds for the sender, if it holds one;
/// `telegram_admin_id` is the administrator.
pub fn command_handler(
    user: Option<&User>,
    sender_id: i64,
    telegram_admin_id: i64,
    command: Command,
) -> (r: Plan)
    ensures
        r@ == spec_command_plan(
            match user {
                Some(u) => Some(*u),
                None => None,
            },
            sender_id,
            telegram_admin_id,
            command@,
        ),
{
    if let Command::AddUser { telegram_id, custom_label } = command {
        if sender_id != telegram_admin_id {
            return Plan::Reply(String::from_str("You are not an admin"));
        }
        if telegram_id <= 0 {
            return Plan::Reply(String::from_str("Incorrect ID"));
        }
        return Plan::AddUser { telegram_id, custom_label };
    }
    let u = match user {
        Some(u) => u,
        None => {
            let mut text = String::from_str("User ");
            let id = decimal_i64(sender_id);
            text.append(id.as_str());
            text.append(" not authorized, please contact administrator to add permissions");
            return Plan::Reply(text);
        },
    };
    match command {
        Command::Start => Plan::ShowMenu,
        Command::GetTwitterAuthURL => Plan::RequestAuthUrl { user_id: u.id },
        Command::SetTwitterVerifyCode(code) => {
            if is_code_acceptable(code.as_str()) {
                Plan::VerifyCode { user_id: u.id, code }
            } else {
                Plan::Reply(escape("The 7-digit authorization code cannot be empty"))
            }
        },
        Command::FollowTwitterID(account, from) => check(
            u,
            account,
            Plan::Follow { user_id: u.id, twitter_user_id: account, from_twitter_user_id: from },
        ),
        Command::UnfollowTwitterID(account) => check(
            u,
            account,
            Plan::Unfollow { user_id: u.id, twitter_user_id: account },
        ),
        Command::BlockTwitterID { x_type, x_twitter_user_id, x_from_twitter_id } => check(
            u,
            x_twitter_user_id,
            Plan::Block {
                user_id: u.id,
                x_type,
                twitter_user_id: x_twitter_user_id,
                from_twitter_id: x_from_twitter_id,
            },
        ),
        Command::UnblockTwitterID { x_type, x_twitter_user_id } => check(
            u,
            x_twitter_user_id,
            Plan::Unblock { user_id: u.id, x_type, twitter_user_id: x_twitter_user_id },
        ),
        Command::ListFollowedTwitterID => check(u, 1, Plan::ListFollowed { user_id: u.id }),
        Command::ListBlockedTwitterID(x_type) => check(
            u,
            1,
            Plan::ListBlocked { user_id: u.id, x_type },
        ),
        Command::AddUser { telegram_id, custom_label } => Plan::AddUser {
            telegram_id,
            custom_label,
        },
    }
}

} // verus!
