use twitter2telegram::command::parse_command;
use twitter2telegram::command::Command;
use twitter2telegram::command::ParseError;
use twitter2telegram::handler::command_handler;
use twitter2telegram::handler::is_code_acceptable;
use twitter2telegram::handler::Plan;
use twitter2telegram::keyboard::get_inline_buttons;
use twitter2telegram::models::Blacklist;
use twitter2telegram::models::Follow;
use twitter2telegram::models::User;
use twitter2telegram::replies::add_user_reply;
use twitter2telegram::replies::blocked_list;
use twitter2telegram::replies::error_message;
use twitter2telegram::replies::expiry_notice;
use twitter2telegram::replies::followed_list;
use twitter2telegram::replies::outcome_reply;
use twitter2telegram::replies::Outcome;
use twitter2telegram::replies::BLOCKS_PER_MESSAGE;
use twitter2telegram::subscriber::SubscriberError;
use twitter2telegram::subscriber::TwitterSubscriber;

const BOT: &str = "T2TBot";

fn cmd(text: &str) -> Result<Command, ParseError> {
    parse_command(text, BOT)
}

fn cmd_user(id: i64, twitter_status: bool) -> User {
    User {
        id,
        label: "label".to_string(),
        twitter_access_token: None,
        twitter_status,
        created_at: 0,
        disable_retweet: false,
        disable_text_msg: false,
    }
}

fn cmd_reply(text: &str) -> Plan {
    Plan::Reply(text.to_string())
}

const NEED_AUTH: &str = "Please get the Twitter authorization link and authorize first";

#[test]
fn parse_commands_without_arguments() {
    assert_eq!(cmd("/start"), Ok(Command::Start));
    assert_eq!(cmd("/start now please"), Ok(Command::Start));
    assert_eq!(cmd("/GetTwitterAuthURL"), Ok(Command::GetTwitterAuthURL));
    assert_eq!(cmd("/ListFollowedTwitterID"), Ok(Command::ListFollowedTwitterID));
    assert_eq!(cmd("/ListFollowedTwitterID 5"), Ok(Command::ListFollowedTwitterID));
}

#[test]
fn parse_unknown_commands() {
    assert_eq!(cmd(""), Err(ParseError::UnknownCommand));
    assert_eq!(cmd(" "), Err(ParseError::UnknownCommand));
    assert_eq!(cmd("start"), Err(ParseError::UnknownCommand));
    assert_eq!(cmd("/Start"), Err(ParseError::UnknownCommand));
    assert_eq!(cmd("/START"), Err(ParseError::UnknownCommand));
    assert_eq!(cmd("/followtwitterid 1"), Err(ParseError::UnknownCommand));
    assert_eq!(cmd(" /start"), Err(ParseError::UnknownCommand));
    assert_eq!(cmd("/startx"), Err(ParseError::UnknownCommand));
    assert_eq!(cmd("/star"), Err(ParseError::UnknownCommand));
    assert_eq!(cmd("hello world"), Err(ParseError::UnknownCommand));
    assert_eq!(cmd("/Follow 1"), Err(ParseError::UnknownCommand));
}

#[test]
fn parse_bot_name() {
    assert_eq!(cmd("/start@T2TBot"), Ok(Command::Start));
    assert_eq!(cmd("/start@t2tbot"), Ok(Command::Start));
    assert_eq!(cmd("/start@T2TBOT x"), Ok(Command::Start));
    assert_eq!(cmd("/start@T2TBot@else"), Ok(Command::Start));
    assert_eq!(cmd("/start@Other"), Err(ParseError::WrongBotName));
    assert_eq!(cmd("/start@"), Err(ParseError::WrongBotName));
    assert_eq!(cmd("/start@T2TBo"), Err(ParseError::WrongBotName));
    assert_eq!(cmd("/start@T2TBott"), Err(ParseError::WrongBotName));
    assert_eq!(cmd("/nothing@Other"), Err(ParseError::WrongBotName));
    assert_eq!(cmd("/nothing@T2TBot"), Err(ParseError::UnknownCommand));
    assert_eq!(cmd("/UnfollowTwitterID@t2tbot 4"), Ok(Command::UnfollowTwitterID(4)));
    assert_eq!(cmd("/start @Other"), Ok(Command::Start));
    assert_eq!(parse_command("/start@", ""), Ok(Command::Start));
    assert_eq!(parse_command("/start@[", "{"), Err(ParseError::WrongBotName));
    assert_eq!(parse_command("/start@A", "a"), Ok(Command::Start));
    assert_eq!(parse_command("/start@À", "à"), Err(ParseError::WrongBotName));
}

#[test]
fn parse_verify_code_takes_the_rest() {
    assert_eq!(
        cmd("/SetTwitterVerifyCode 1234567"),
        Ok(Command::SetTwitterVerifyCode("1234567".to_string()))
    );
    assert_eq!(cmd("/SetTwitterVerifyCode"), Ok(Command::SetTwitterVerifyCode(String::new())));
    assert_eq!(cmd("/SetTwitterVerifyCode "), Ok(Command::SetTwitterVerifyCode(String::new())));
    assert_eq!(
        cmd("/SetTwitterVerifyCode  a b "),
        Ok(Command::SetTwitterVerifyCode(" a b ".to_string()))
    );
    assert_eq!(
        cmd("/SetTwitterVerifyCode ünï"),
        Ok(Command::SetTwitterVerifyCode("ünï".to_string()))
    );
}

#[test]
fn parse_follow() {
    assert_eq!(cmd("/FollowTwitterID 123"), Ok(Command::FollowTwitterID(123, 0)));
    assert_eq!(cmd("/FollowTwitterID 123 456"), Ok(Command::FollowTwitterID(123, 456)));
    assert_eq!(cmd("/FollowTwitterID -5 +7"), Ok(Command::FollowTwitterID(-5, 7)));
    assert_eq!(cmd("/FollowTwitterID"), Err(ParseError::IncorrectFormat));
    assert_eq!(cmd("/FollowTwitterID "), Err(ParseError::IncorrectFormat));
    assert_eq!(cmd("/FollowTwitterID x"), Err(ParseError::IncorrectFormat));
    assert_eq!(cmd("/FollowTwitterID 1 x"), Err(ParseError::IncorrectFormat));
    assert_eq!(cmd("/FollowTwitterID 1 "), Err(ParseError::IncorrectFormat));
    assert_eq!(cmd("/FollowTwitterID 1  2"), Err(ParseError::IncorrectFormat));
    assert_eq!(cmd("/FollowTwitterID 1 2 3"), Err(ParseError::TooManyArguments));
    assert_eq!(cmd("/FollowTwitterID 1 2 "), Err(ParseError::TooManyArguments));
    assert_eq!(cmd("/FollowTwitterID x 2 3"), Err(ParseError::IncorrectFormat));
}

#[test]
fn parse_integers() {
    assert_eq!(
        cmd("/UnfollowTwitterID 9223372036854775807"),
        Ok(Command::UnfollowTwitterID(i64::MAX))
    );
    assert_eq!(
        cmd("/UnfollowTwitterID -9223372036854775808"),
        Ok(Command::UnfollowTwitterID(i64::MIN))
    );
    assert_eq!(cmd("/UnfollowTwitterID 9223372036854775808"), Err(ParseError::IncorrectFormat));
    assert_eq!(cmd("/UnfollowTwitterID -9223372036854775809"), Err(ParseError::IncorrectFormat));
    assert_eq!(
        cmd("/UnfollowTwitterID 99999999999999999999999999999999999999999999"),
        Err(ParseError::IncorrectFormat)
    );
    assert_eq!(
        cmd("/UnfollowTwitterID 000000000000000000000000000000000000000007"),
        Ok(Command::UnfollowTwitterID(7))
    );
    assert_eq!(cmd("/UnfollowTwitterID +0"), Ok(Command::UnfollowTwitterID(0)));
    assert_eq!(cmd("/UnfollowTwitterID -0"), Ok(Command::UnfollowTwitterID(0)));
    assert_eq!(cmd("/UnfollowTwitterID 42"), Ok(Command::UnfollowTwitterID(42)));
    for bad in ["", "+", "-", "--1", "+-1", "1-", "1_0", "1.0", "0x10", "１２", "4 2", "42 ", " 42", "1e3"]
    {
        assert_eq!(
            cmd(&format!("/UnfollowTwitterID {}", bad)),
            Err(ParseError::IncorrectFormat)
        );
    }
    assert_eq!(cmd("/ListBlockedTwitterID 2147483647"), Ok(Command::ListBlockedTwitterID(i32::MAX)));
    assert_eq!(cmd("/ListBlockedTwitterID -2147483648"), Ok(Command::ListBlockedTwitterID(i32::MIN)));
    assert_eq!(cmd("/ListBlockedTwitterID 2147483648"), Err(ParseError::IncorrectFormat));
    assert_eq!(cmd("/ListBlockedTwitterID -2147483649"), Err(ParseError::IncorrectFormat));
    assert_eq!(cmd("/ListBlockedTwitterID 9223372036854775808"), Err(ParseError::IncorrectFormat));
    assert_eq!(cmd("/ListBlockedTwitterID"), Err(ParseError::IncorrectFormat));
    assert_eq!(cmd("/ListBlockedTwitterID 1"), Ok(Command::ListBlockedTwitterID(1)));
}

#[test]
fn parse_block_and_unblock() {
    assert_eq!(
        cmd("/BlockTwitterID 2 999"),
        Ok(Command::BlockTwitterID { x_type: 2, x_twitter_user_id: 999, x_from_twitter_id: 0 })
    );
    assert_eq!(
        cmd("/BlockTwitterID 1 100 0"),
        Ok(Command::BlockTwitterID { x_type: 1, x_twitter_user_id: 100, x_from_twitter_id: 0 })
    );
    assert_eq!(
        cmd("/BlockTwitterID 2 999 100"),
        Ok(Command::BlockTwitterID { x_type: 2, x_twitter_user_id: 999, x_from_twitter_id: 100 })
    );
    assert_eq!(cmd("/BlockTwitterID 2"), Err(ParseError::TooFewArguments));
    assert_eq!(cmd("/BlockTwitterID"), Err(ParseError::IncorrectFormat));
    assert_eq!(cmd("/BlockTwitterID x"), Err(ParseError::IncorrectFormat));
    assert_eq!(cmd("/BlockTwitterID 2 9 1 1"), Err(ParseError::TooManyArguments));
    assert_eq!(cmd("/BlockTwitterID 2147483648 1"), Err(ParseError::IncorrectFormat));
    assert_eq!(cmd("/BlockTwitterID 2 x"), Err(ParseError::IncorrectFormat));
    assert_eq!(cmd("/BlockTwitterID 2 9 x"), Err(ParseError::IncorrectFormat));
    assert_eq!(
        cmd("/UnblockTwitterID 2 999"),
        Ok(Command::UnblockTwitterID { x_type: 2, x_twitter_user_id: 999 })
    );
    assert_eq!(cmd("/UnblockTwitterID 2"), Err(ParseError::TooFewArguments));
    assert_eq!(cmd("/UnblockTwitterID 2 999 1"), Err(ParseError::TooManyArguments));
    assert_eq!(cmd("/UnblockTwitterID 2 999 "), Err(ParseError::TooManyArguments));
    assert_eq!(cmd("/UnblockTwitterID a 999"), Err(ParseError::IncorrectFormat));
}

#[test]
fn parse_add_user() {
    assert_eq!(
        cmd("/AddUser 55 bob"),
        Ok(Command::AddUser { telegram_id: 55, custom_label: "bob".to_string() })
    );
    assert_eq!(
        cmd("/AddUser 55 "),
        Ok(Command::AddUser { telegram_id: 55, custom_label: String::new() })
    );
    assert_eq!(
        cmd("/AddUser -1 ☃_*"),
        Ok(Command::AddUser { telegram_id: -1, custom_label: "☃_*".to_string() })
    );
    assert_eq!(cmd("/AddUser 55"), Err(ParseError::TooFewArguments));
    assert_eq!(cmd("/AddUser"), Err(ParseError::IncorrectFormat));
    assert_eq!(cmd("/AddUser bob 55"), Err(ParseError::IncorrectFormat));
    assert_eq!(cmd("/AddUser 55 bob smith"), Err(ParseError::TooManyArguments));
}

#[test]
fn buttons_parse_back_as_commands() {
    let ts = TwitterSubscriber::new(&Vec::new());
    let retweet = get_inline_buttons(1, 999, &ts, 100);
    assert_eq!(
        cmd(&retweet[0].data),
        Ok(Command::BlockTwitterID { x_type: 2, x_twitter_user_id: 999, x_from_twitter_id: 0 })
    );
    assert_eq!(cmd(&retweet[1].data), Ok(Command::FollowTwitterID(999, 100)));
    assert_eq!(
        cmd(&retweet[2].data),
        Ok(Command::BlockTwitterID { x_type: 1, x_twitter_user_id: 100, x_from_twitter_id: 0 })
    );
    assert_eq!(cmd(&retweet[3].data), Ok(Command::UnfollowTwitterID(100)));
    let direct = get_inline_buttons(1, 0, &ts, i64::MIN);
    assert_eq!(cmd(&direct[0].data), Ok(Command::UnfollowTwitterID(i64::MIN)));
}

#[test]
fn verification_code_length() {
    assert!(is_code_acceptable("1234567"));
    assert!(is_code_acceptable(" 1234567\n"));
    assert!(is_code_acceptable("\t\r\n 1234567 \u{3000}\u{a0}\u{2028}"));
    assert!(is_code_acceptable("1234 67"));
    assert!(is_code_acceptable("abcdefg"));
    assert!(is_code_acceptable("ééé1"));
    assert!(is_code_acceptable("☃☃1"));
    assert!(is_code_acceptable("😀123"));
    assert!(!is_code_acceptable(""));
    assert!(!is_code_acceptable("       "));
    assert!(!is_code_acceptable("123456"));
    assert!(!is_code_acceptable("12345678"));
    assert!(!is_code_acceptable("éééé"));
    assert!(!is_code_acceptable("1234567\u{200b}"));
    assert!(!is_code_acceptable("😀😀"));
}

#[test]
fn strangers_are_turned_away() {
    assert_eq!(
        command_handler(None, 4242, 1, Command::Start),
        cmd_reply("User 4242 not authorized, please contact administrator to add permissions")
    );
    assert_eq!(
        command_handler(None, -3, 1, Command::FollowTwitterID(5, 0)),
        cmd_reply("User -3 not authorized, please contact administrator to add permissions")
    );
    assert_eq!(
        command_handler(None, 1, 1, Command::ListFollowedTwitterID),
        cmd_reply("User 1 not authorized, please contact administrator to add permissions")
    );
}

#[test]
fn only_the_admin_adds_users() {
    let add = || Command::AddUser { telegram_id: 55, custom_label: "bob".to_string() };
    let u = cmd_user(7, true);
    assert_eq!(command_handler(Some(&u), 7, 1, add()), cmd_reply("You are not an admin"));
    assert_eq!(command_handler(None, 7, 1, add()), cmd_reply("You are not an admin"));
    assert_eq!(
        command_handler(None, 1, 1, add()),
        Plan::AddUser { telegram_id: 55, custom_label: "bob".to_string() }
    );
    assert_eq!(
        command_handler(
            None,
            1,
            1,
            Command::AddUser { telegram_id: 0, custom_label: "bob".to_string() }
        ),
        cmd_reply("Incorrect ID")
    );
    assert_eq!(
        command_handler(
            Some(&u),
            1,
            1,
            Command::AddUser { telegram_id: -9, custom_label: "bob".to_string() }
        ),
        cmd_reply("Incorrect ID")
    );
    assert_eq!(
        command_handler(
            None,
            2,
            1,
            Command::AddUser { telegram_id: -9, custom_label: "bob".to_string() }
        ),
        cmd_reply("You are not an admin")
    );
}

#[test]
fn menu_and_authorisation_need_no_credential() {
    let u = cmd_user(7, false);
    assert_eq!(command_handler(Some(&u), 7, 1, Command::Start), Plan::ShowMenu);
    assert_eq!(
        command_handler(Some(&u), 7, 1, Command::GetTwitterAuthURL),
        Plan::RequestAuthUrl { user_id: 7 }
    );
    assert_eq!(
        command_handler(Some(&u), 7, 1, Command::SetTwitterVerifyCode(" 1234567 ".to_string())),
        Plan::VerifyCode { user_id: 7, code: " 1234567 ".to_string() }
    );
    assert_eq!(
        command_handler(Some(&u), 7, 1, Command::SetTwitterVerifyCode("123".to_string())),
        cmd_reply("The 7\\-digit authorization code cannot be empty")
    );
}

#[test]
fn tenant_commands_need_a_credential_and_a_positive_account() {
    let no = cmd_user(7, false);
    let yes = cmd_user(7, true);
    let all = || {
        vec![
            Command::FollowTwitterID(5, 6),
            Command::UnfollowTwitterID(5),
            Command::BlockTwitterID { x_type: 2, x_twitter_user_id: 5, x_from_twitter_id: 6 },
            Command::UnblockTwitterID { x_type: 2, x_twitter_user_id: 5 },
            Command::ListFollowedTwitterID,
            Command::ListBlockedTwitterID(2),
        ]
    };
    for c in all() {
        assert_eq!(command_handler(Some(&no), 7, 1, c), cmd_reply(NEED_AUTH));
    }
    let plans: Vec<Plan> = all().into_iter().map(|c| command_handler(Some(&yes), 7, 1, c)).collect();
    assert_eq!(
        plans,
        vec![
            Plan::Follow { user_id: 7, twitter_user_id: 5, from_twitter_user_id: 6 },
            Plan::Unfollow { user_id: 7, twitter_user_id: 5 },
            Plan::Block { user_id: 7, x_type: 2, twitter_user_id: 5, from_twitter_id: 6 },
            Plan::Unblock { user_id: 7, x_type: 2, twitter_user_id: 5 },
            Plan::ListFollowed { user_id: 7 },
            Plan::ListBlocked { user_id: 7, x_type: 2 },
        ]
    );
    for c in [
        Command::FollowTwitterID(0, 6),
        Command::UnfollowTwitterID(-5),
        Command::BlockTwitterID { x_type: 2, x_twitter_user_id: 0, x_from_twitter_id: 6 },
        Command::UnblockTwitterID { x_type: 2, x_twitter_user_id: i64::MIN },
    ] {
        assert_eq!(command_handler(Some(&yes), 7, 1, c), cmd_reply("Incorrect ID"));
    }
    assert_eq!(
        command_handler(Some(&no), 7, 1, Command::FollowTwitterID(0, 6)),
        cmd_reply(NEED_AUTH)
    );
    assert_eq!(
        command_handler(Some(&yes), 7, 1, Command::FollowTwitterID(1, -6)),
        Plan::Follow { user_id: 7, twitter_user_id: 1, from_twitter_user_id: -6 }
    );
    assert_eq!(
        command_handler(Some(&yes), 7, 1, Command::ListBlockedTwitterID(-4)),
        Plan::ListBlocked { user_id: 7, x_type: -4 }
    );
}

#[test]
fn outcome_replies() {
    assert_eq!(
        outcome_reply(Outcome::Added, &Ok(1)),
        "Added successfully, affecting 1 records"
    );
    assert_eq!(
        outcome_reply(Outcome::Unblocked, &Ok(0)),
        "Unblock successfully, affecting 0 records"
    );
    assert_eq!(
        outcome_reply(Outcome::Unsubscribed, &Ok(12)),
        "Unsubscribe Success, affecting 12 records"
    );
    assert_eq!(
        outcome_reply(Outcome::TokenUpdated, &Ok(usize::MAX)),
        format!("Update Twitter messages successfully, affecting {} records", usize::MAX)
    );
    for o in [Outcome::Added, Outcome::Unblocked, Outcome::Unsubscribed, Outcome::TokenUpdated] {
        assert_eq!(outcome_reply(o, &Err("disk full".to_string())), "Failure, error disk full");
    }
    assert_eq!(outcome_reply(Outcome::Added, &Err(String::new())), "Failure, error ");
}

#[test]
fn add_user_replies() {
    assert_eq!(
        add_user_reply("bob_1", 55, &Ok(1)),
        "*bob\\_1* _55_ Add Success, affecting 1 Records"
    );
    assert_eq!(
        add_user_reply("", -7, &Err("UNIQUE".to_string())),
        "** _-7_ Add Failure, error UNIQUE"
    );
}

#[test]
fn followed_list_has_one_line_each() {
    let f = |id: i64, name: &str| Follow {
        id: None,
        user_id: 1,
        twitter_user_id: id,
        twitter_username: name.to_string(),
        created_at: 0,
        follow_rt_count: 0,
        block_rt_count: 0,
    };
    assert_eq!(
        followed_list(&Vec::new()),
        "You are currently subscribed to the following accounts\\.\n"
    );
    assert_eq!(
        followed_list(&vec![f(100, "a_b"), f(7, "c")]),
        "You are currently subscribed to the following accounts\\.\n\\* *a\\_b* _100_\n\\* *c* _7_\n"
    );
}

#[test]
fn blocked_list_comes_in_fifties() {
    let b = |id: i64| Blacklist {
        id: None,
        user_id: 1,
        twitter_user_id: id,
        twitter_username: format!("n.{}", id),
        created_at: 0,
        type_: 2,
    };
    assert_eq!(BLOCKS_PER_MESSAGE, 50);
    assert_eq!(blocked_list(&Vec::new()), Vec::<String>::new());
    assert_eq!(
        blocked_list(&vec![b(1), b(2)]),
        vec!["Your blacklist\\.\n\\* n\\.1 1\n\\* n\\.2 2\n".to_string()]
    );
    let line = |id: i64| format!("\\* n\\.{} {}\n", id, id);
    let rows: Vec<Blacklist> = (1..=101).map(b).collect();
    let messages = blocked_list(&rows);
    assert_eq!(messages.len(), 3);
    assert_eq!(
        messages[0],
        format!("Your blacklist\\.\n{}", (1..=50).map(line).collect::<String>())
    );
    assert_eq!(messages[1], (51..=100).map(line).collect::<String>());
    assert_eq!(messages[2], line(101));
    assert_eq!(blocked_list(&rows[..50].to_vec()).len(), 1);
    assert_eq!(blocked_list(&rows[..51].to_vec()).len(), 2);
    assert_eq!(blocked_list(&rows[..100].to_vec()).len(), 2);
}

#[test]
fn notices_and_errors_in_words() {
    assert_eq!(
        expiry_notice(),
        "Your Twitter authorization has expired, you will not receive future messages\\."
    );
    assert_eq!(error_message(SubscriberError::NoCredential), "No valid Twitter token");
    assert_eq!(
        error_message(SubscriberError::CredentialExpired),
        "Twitter authorization has expired"
    );
    assert!(error_message(SubscriberError::CredentialExpired).contains("expired"));
    assert!(!error_message(SubscriberError::TokenMalformed).contains("expired"));
    assert!(!error_message(SubscriberError::TransportError).contains("expired"));
    assert!(!error_message(SubscriberError::TokenMalformed).is_empty());
    assert!(!error_message(SubscriberError::TransportError).is_empty());
}
