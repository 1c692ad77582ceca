use crate::command::command_args;
use crate::command::command_bot;
use crate::command::command_name;
use crate::command::command_word;
use crate::command::spec_parse_command;
use crate::command::CommandView;
use crate::command::ParseError;
use crate::keyboard::spec_inline_buttons;
use crate::lexer::all_digits;
use crate::lexer::digit_of;
use crate::lexer::digits_value;
use crate::lexer::find_char;
use crate::lexer::lemma_find_char_is;
use crate::lexer::parse_i32;
use crate::lexer::parse_i64;
use crate::lexer::parse_int;
use crate::lexer::spec_split;
use crate::model::SubscriberState;
use crate::text::digit_char;
use crate::text::spec_decimal;
use crate::text::spec_decimal_int;
use vstd::prelude::*;

verus! {

/// A character that is neither a space nor an `@`.
pub open spec fn is_plain(c: char) -> bool {
    c != ' ' && c != '@'
}

/// A text without spaces and without `@`.
pub open spec fn all_plain(s: Seq<char>) -> bool {
    forall|i: int| 0 <= i < s.len() ==> is_plain(#[trigger] s[i])
}

/// The decimal form of a natural number is one digit or more, and reads
/// back as the number.
pub proof fn lemma_decimal_digits(n: nat)
    ensures
        spec_decimal(n).len() > 0,
        all_digits(spec_decimal(n)),
        digits_value(spec_decimal(n)) == n,
    decreases n,
{
    let s = spec_decimal(n);
    if n < 10 {
        assert(s.drop_last() =~= Seq::<char>::empty());
        assert(digit_of(digit_char(n)) == Some(n));
        assert(digits_value(s.drop_last()) == 0);
    } else {
        lemma_decimal_digits(n / 10);
        let head = spec_decimal(n / 10);
        assert(s.drop_last() =~= head);
        assert(digit_of(digit_char(n % 10)) == Some(n % 10));
        assert forall|i: int| 0 <= i < s.len() implies digit_of(#[trigger] s[i]) is Some by {
            if i < head.len() {
                assert(s[i] == head[i]);
            }
        }
    }
}

/// Decimal round trip: an integer written in decimal reads back as itself.
pub proof fn law_decimal_round_trip(n: int)
    ensures
        parse_int(spec_decimal_int(n)) == Some(n),
        all_plain(spec_decimal_int(n)),
        spec_decimal_int(n).len() > 0,
{
    let s = spec_decimal_int(n);
    if n < 0 {
        let body = spec_decimal((-n) as nat);
        lemma_decimal_digits((-n) as nat);
        assert(s[0] == '-');
        assert(s.skip(1) =~= body);
        assert forall|i: int| 0 <= i < s.len() implies is_plain(#[trigger] s[i]) by {
            if i > 0 {
                assert(s[i] == body[i - 1]);
                assert(digit_of(body[i - 1]) is Some);
            }
        }
    } else {
        lemma_decimal_digits(n as nat);
        assert(digit_of(s[0]) is Some);
        assert forall|i: int| 0 <= i < s.len() implies is_plain(#[trigger] s[i]) by {
            assert(digit_of(s[i]) is Some);
        }
    }
}

/// Decimal round trip for the integers of the routing keys.
pub proof fn law_decimal_round_trip_i64(n: i64)
    ensures
        parse_i64(spec_decimal_int(n as int)) == Some(n),
{
    law_decimal_round_trip(n as int);
}

/// A text without the separator is a single piece.
pub proof fn lemma_split_single(a: Seq<char>, c: char)
    requires
        forall|i: int| 0 <= i < a.len() ==> #[trigger] a[i] != c,
    ensures
        find_char(a, c) == a.len(),
        spec_split(a, c) == seq![a],
{
    lemma_find_char_is(a, c, a.len() as int);
}

/// A piece without the separator, the separator, and more text: the pieces
/// are that piece and the pieces of the rest.
pub proof fn lemma_split_first(a: Seq<char>, rest: Seq<char>, c: char)
    requires
        forall|i: int| 0 <= i < a.len() ==> #[trigger] a[i] != c,
    ensures
        find_char(a + seq![c] + rest, c) == a.len(),
        spec_split(a + seq![c] + rest, c) == seq![a] + spec_split(rest, c),
{
    let text = a + seq![c] + rest;
    assert forall|j: int| 0 <= j < a.len() implies text[j] != c by {
        assert(text[j] == a[j]);
    }
    assert(text[a.len() as int] == c);
    lemma_find_char_is(text, c, a.len() as int);
    assert(text.take(a.len() as int) =~= a);
    assert(text.skip(a.len() as int + 1) =~= rest);
}

/// A command's name, a space, and its arguments: how the text comes apart.
pub proof fn lemma_command_parts(name: Seq<char>, args: Seq<char>)
    requires
        all_plain(name),
    ensures
        command_word(name + seq![' '] + args) == name,
        command_args(name + seq![' '] + args) == args,
        command_name(name + seq![' '] + args) == name,
        command_bot(name + seq![' '] + args) is None,
{
    let text = name + seq![' '] + args;
    assert forall|i: int| 0 <= i < name.len() implies #[trigger] name[i] != ' ' by {
        assert(is_plain(name[i]));
    }
    assert forall|i: int| 0 <= i < name.len() implies #[trigger] name[i] != '@' by {
        assert(is_plain(name[i]));
    }
    lemma_split_first(name, args, ' ');
    assert(text.take(name.len() as int) =~= name);
    assert(text.skip(name.len() as int + 1) =~= args);
    lemma_split_single(name, '@');
}

/// The names of the commands that stand on buttons, letter by letter.
proof fn lemma_button_names()
    ensures
        all_plain("/BlockTwitterID"@),
        all_plain("/FollowTwitterID"@),
        all_plain("/UnfollowTwitterID"@),
        "/BlockTwitterID 2 "@ == "/BlockTwitterID"@ + seq![' '] + seq!['2', ' '],
        "/BlockTwitterID 1 "@ == "/BlockTwitterID"@ + seq![' '] + seq!['1', ' '],
        "/FollowTwitterID "@ == "/FollowTwitterID"@ + seq![' '],
        "/UnfollowTwitterID "@ == "/UnfollowTwitterID"@ + seq![' '],
        " "@ == seq![' '],
        " 0"@ == seq![' ', '0'],
        "/BlockTwitterID"@.len() == 15,
        "/FollowTwitterID"@.len() == 16,
        "/UnfollowTwitterID"@.len() == 18,
        "/BlockTwitterID"@[1] == 'B',
        "/FollowTwitterID"@[1] == 'F',
        "/UnfollowTwitterID"@[1] == 'U',
        "/start"@.len() == 6,
        "/GetTwitterAuthURL"@.len() == 18,
        "/GetTwitterAuthURL"@[1] == 'G',
        "/SetTwitterVerifyCode"@.len() == 21,
{
    reveal_strlit("/BlockTwitterID");
    reveal_strlit("/FollowTwitterID");
    reveal_strlit("/UnfollowTwitterID");
    reveal_strlit("/BlockTwitterID 2 ");
    reveal_strlit("/BlockTwitterID 1 ");
    reveal_strlit("/FollowTwitterID ");
    reveal_strlit("/UnfollowTwitterID ");
    reveal_strlit(" ");
    reveal_strlit(" 0");
    reveal_strlit("/start");
    reveal_strlit("/GetTwitterAuthURL");
    reveal_strlit("/SetTwitterVerifyCode");
    assert("/BlockTwitterID 2 "@ =~= "/BlockTwitterID"@ + seq![' '] + seq!['2', ' ']);
    assert("/BlockTwitterID 1 "@ =~= "/BlockTwitterID"@ + seq![' '] + seq!['1', ' ']);
    assert("/FollowTwitterID "@ =~= "/FollowTwitterID"@ + seq![' ']);
    assert("/UnfollowTwitterID "@ =~= "/UnfollowTwitterID"@ + seq![' ']);
    assert(" "@ =~= seq![' ']);
    assert(" 0"@ =~= seq![' ', '0']);
}

/// What pressing a button asks for: the command that its data writes.
pub open spec fn button_command(
    s: SubscriberState,
    tg_user_id: i64,
    retweet_user_id: i64,
    twitter_user_id: i64,
    i: int,
) -> CommandView {
    if retweet_user_id == 0 {
        CommandView::UnfollowTwitterID(twitter_user_id)
    } else if i == 0 {
        CommandView::BlockTwitterID {
            x_type: 2,
            x_twitter_user_id: retweet_user_id,
            x_from_twitter_id: 0,
        }
    } else if i == 1 {
        if s.subscribed(tg_user_id, retweet_user_id) {
            CommandView::UnfollowTwitterID(retweet_user_id)
        } else {
            CommandView::FollowTwitterID(retweet_user_id, twitter_user_id)
        }
    } else if i == 2 {
        CommandView::BlockTwitterID {
            x_type: 1,
            x_twitter_user_id: twitter_user_id,
            x_from_twitter_id: 0,
        }
    } else {
        CommandView::UnfollowTwitterID(twitter_user_id)
    }
}

/// `/UnfollowTwitterID` with an account reads back as that command.
proof fn lemma_unfollow_round_trip(account: i64, bot_name: Seq<char>)
    ensures
        spec_parse_command("/UnfollowTwitterID "@ + spec_decimal_int(account as int), bot_name)
            == Ok::<CommandView, ParseError>(CommandView::UnfollowTwitterID(account)),
{
    lemma_button_names();
    let name = "/UnfollowTwitterID"@;
    let args = spec_decimal_int(account as int);
    let text = "/UnfollowTwitterID "@ + args;
    assert(text =~= name + seq![' '] + args);
    lemma_command_parts(name, args);
    law_decimal_round_trip(account as int);
}

/// `/FollowTwitterID` with two accounts reads back as that command.
proof fn lemma_follow_round_trip(account: i64, from: i64, bot_name: Seq<char>)
    ensures
        spec_parse_command(
            "/FollowTwitterID "@ + spec_decimal_int(account as int) + " "@ + spec_decimal_int(
                from as int,
            ),
            bot_name,
        ) == Ok::<CommandView, ParseError>(CommandView::FollowTwitterID(account, from)),
{
    lemma_button_names();
    let name = "/FollowTwitterID"@;
    let a = spec_decimal_int(account as int);
    let b = spec_decimal_int(from as int);
    let args = a + seq![' '] + b;
    let text = "/FollowTwitterID "@ + a + " "@ + b;
    assert(text =~= name + seq![' '] + args);
    lemma_command_parts(name, args);
    law_decimal_round_trip(account as int);
    law_decimal_round_trip(from as int);
    assert forall|i: int| 0 <= i < a.len() implies #[trigger] a[i] != ' ' by {
        assert(is_plain(a[i]));
    }
    assert forall|i: int| 0 <= i < b.len() implies #[trigger] b[i] != ' ' by {
        assert(is_plain(b[i]));
    }
    lemma_split_first(a, b, ' ');
    lemma_split_single(b, ' ');
    let pieces = spec_split(args, ' ');
    assert(pieces =~= seq![a, b]);
    assert(pieces[0] == a && pieces[1] == b);
}

/// `/BlockTwitterID` with a kind of one digit and two accounts reads back as
/// that command.
proof fn lemma_block_round_trip(
    kind: i32,
    account: Seq<char>,
    account_id: i64,
    from: Seq<char>,
    from_id: i64,
    bot_name: Seq<char>,
)
    requires
        kind == 1 || kind == 2,
        parse_int(account) == Some(account_id as int),
        parse_int(from) == Some(from_id as int),
        forall|i: int| 0 <= i < account.len() ==> #[trigger] account[i] != ' ',
        forall|i: int| 0 <= i < from.len() ==> #[trigger] from[i] != ' ',
    ensures
        spec_parse_command(
            "/BlockTwitterID"@ + seq![' '] + seq![digit_char(kind as nat), ' '] + account + seq![
                ' ',
            ] + from,
            bot_name,
        ) == Ok::<CommandView, ParseError>(
            CommandView::BlockTwitterID {
                x_type: kind,
                x_twitter_user_id: account_id,
                x_from_twitter_id: from_id,
            },
        ),
{
    lemma_button_names();
    let name = "/BlockTwitterID"@;
    let k = seq![digit_char(kind as nat)];
    let args = k + seq![' '] + (account + seq![' '] + from);
    let text = name + seq![' '] + seq![digit_char(kind as nat), ' '] + account + seq![' '] + from;
    assert(text =~= name + seq![' '] + args);
    lemma_command_parts(name, args);
    assert(k =~= spec_decimal_int(kind as int));
    law_decimal_round_trip(kind as int);
    assert forall|i: int| 0 <= i < k.len() implies #[trigger] k[i] != ' ' by {}
    lemma_split_first(k, account + seq![' '] + from, ' ');
    lemma_split_first(account, from, ' ');
    lemma_split_single(from, ' ');
    let pieces = spec_split(args, ' ');
    assert(pieces =~= seq![k, account, from]);
    assert(pieces[0] == k && pieces[1] == account && pieces[2] == from);
    assert(parse_i32(k) == Some(kind));
}

/// `/BlockTwitterID` with a kind of one digit and one account reads back as
/// that command, on nobody's behalf.
proof fn lemma_short_block_round_trip(
    kind: i32,
    account: Seq<char>,
    account_id: i64,
    bot_name: Seq<char>,
)
    requires
        kind == 1 || kind == 2,
        parse_int(account) == Some(account_id as int),
        forall|i: int| 0 <= i < account.len() ==> #[trigger] account[i] != ' ',
    ensures
        spec_parse_command(
            "/BlockTwitterID"@ + seq![' '] + seq![digit_char(kind as nat), ' '] + account,
            bot_name,
        ) == Ok::<CommandView, ParseError>(
            CommandView::BlockTwitterID {
                x_type: kind,
                x_twitter_user_id: account_id,
                x_from_twitter_id: 0,
            },
        ),
{
    lemma_button_names();
    let name = "/BlockTwitterID"@;
    let k = seq![digit_char(kind as nat)];
    let args = k + seq![' '] + account;
    let text = name + seq![' '] + seq![digit_char(kind as nat), ' '] + account;
    assert(text =~= name + seq![' '] + args);
    lemma_command_parts(name, args);
    assert(k =~= spec_decimal_int(kind as int));
    law_decimal_round_trip(kind as int);
    assert forall|i: int| 0 <= i < k.len() implies #[trigger] k[i] != ' ' by {}
    lemma_split_first(k, account, ' ');
    lemma_split_single(account, ' ');
    let pieces = spec_split(args, ' ');
    assert(pieces =~= seq![k, account]);
    assert(pieces[0] == k && pieces[1] == account);
    assert(parse_i32(k) == Some(kind));
}

/// Round trip of the keyboard: the data of every button under a delivered
/// tweet reads back, for whatever bot, as the command that the button
/// stands for.
pub proof fn law_buttons_round_trip(
    s: SubscriberState,
    tg_user_id: i64,
    retweet_user_id: i64,
    twitter_user_id: i64,
    i: int,
    bot_name: Seq<char>,
)
    requires
        0 <= i < spec_inline_buttons(s, tg_user_id, retweet_user_id, twitter_user_id).len(),
    ensures
        spec_parse_command(
            spec_inline_buttons(s, tg_user_id, retweet_user_id, twitter_user_id)[i].data,
            bot_name,
        ) == Ok::<CommandView, ParseError>(
            button_command(s, tg_user_id, retweet_user_id, twitter_user_id, i),
        ),
{
    lemma_button_names();
    let sender = spec_decimal_int(twitter_user_id as int);
    let original = spec_decimal_int(retweet_user_id as int);
    law_decimal_round_trip(twitter_user_id as int);
    law_decimal_round_trip(retweet_user_id as int);
    law_decimal_round_trip(0);
    assert forall|j: int| 0 <= j < sender.len() implies #[trigger] sender[j] != ' ' by {
        assert(is_plain(sender[j]));
    }
    assert forall|j: int| 0 <= j < original.len() implies #[trigger] original[j] != ' ' by {
        assert(is_plain(original[j]));
    }
    let data = spec_inline_buttons(s, tg_user_id, retweet_user_id, twitter_user_id)[i].data;
    if retweet_user_id == 0 {
        lemma_unfollow_round_trip(twitter_user_id, bot_name);
    } else if i == 0 {
        lemma_short_block_round_trip(2, original, retweet_user_id, bot_name);
        assert(data =~= "/BlockTwitterID"@ + seq![' '] + seq![digit_char(2), ' '] + original);
    } else if i == 1 {
        if s.subscribed(tg_user_id, retweet_user_id) {
            lemma_unfollow_round_trip(retweet_user_id, bot_name);
        } else {
            lemma_follow_round_trip(retweet_user_id, twitter_user_id, bot_name);
        }
    } else if i == 2 {
        let zero = seq!['0'];
        assert(zero =~= spec_decimal_int(0));
        assert forall|j: int| 0 <= j < zero.len() implies #[trigger] zero[j] != ' ' by {}
        lemma_block_round_trip(1, sender, twitter_user_id, zero, 0, bot_name);
        assert(data =~= "/BlockTwitterID"@ + seq![' '] + seq![digit_char(1), ' '] + sender
            + seq![' '] + zero);
    } else {
        lemma_unfollow_round_trip(twitter_user_id, bot_name);
    }
}

} // verus!
