use crate::lexer::find_char;
use crate::lexer::find_from;
use crate::lexer::lemma_find_char;
use crate::lexer::parse_i32;
use crate::lexer::parse_i64;
use crate::lexer::pieces_of;
use crate::lexer::read_i32;
use crate::lexer::read_i64;
use crate::lexer::spec_split;
use crate::lexer::split_ranges;
use crate::text::chars_of;
use vstd::prelude::*;
use vstd::string::StrSliceExecFns;
use vstd::string::StringExecFns;

verus! {

/// What a tenant can ask of the bot.
#[derive(Clone, Debug, PartialEq, Eq)]
pub enum Command {
    /// `/start`: show the menu.
    Start,
    /// `/GetTwitterAuthURL`: ask for the address at which Twitter authorises
    /// the bot.
    GetTwitterAuthURL,
    /// `/SetTwitterVerifyCode <code>`: hand in the code that Twitter gave.
    SetTwitterVerifyCode(String),
    /// `/FollowTwitterID <account> [<from-account>]`: subscribe to an
    /// account, on behalf of a tweet of another where that is given.
    FollowTwitterID(i64, i64),
    /// `/UnfollowTwitterID <account>`: end a subscription.
    UnfollowTwitterID(i64),
    /// `/BlockTwitterID <kind> <account> [<from-account>]`: place a block.
    BlockTwitterID { x_type: i32, x_twitter_user_id: i64, x_from_twitter_id: i64 },
    /// `/UnblockTwitterID <kind> <account>`: lift a block.
    UnblockTwitterID { x_type: i32, x_twitter_user_id: i64 },
    /// `/ListBlockedTwitterID <kind>`: list the blocks of one kind.
    ListBlockedTwitterID(i32),
    /// `/ListFollowedTwitterID`: list the subscriptions.
    ListFollowedTwitterID,
    /// `/AddUser <tg-id> <label>`: admit a tenant; for the administrator.
    AddUser { telegram_id: i64, custom_label: String },
}

/// A `Command` as a mathematical value.
pub enum CommandView {
    Start,
    GetTwitterAuthURL,
    SetTwitterVerifyCode(Seq<char>),
    FollowTwitterID(i64, i64),
    UnfollowTwitterID(i64),
    BlockTwitterID { x_type: i32, x_twitter_user_id: i64, x_from_twitter_id: i64 },
    UnblockTwitterID { x_type: i32, x_twitter_user_id: i64 },
    ListBlockedTwitterID(i32),
    ListFollowedTwitterID,
    AddUser { telegram_id: i64, custom_label: Seq<char> },
}

impl View for Command {
    type V = CommandView;

    open spec fn view(&self) -> CommandView {
        match *self {
            Command::Start => CommandView::Start,
            Command::GetTwitterAuthURL => CommandView::GetTwitterAuthURL,
            Command::SetTwitterVerifyCode(code) => CommandView::SetTwitterVerifyCode(code@),
            Command::FollowTwitterID(a, b) => CommandView::FollowTwitterID(a, b),
            Command::UnfollowTwitterID(a) => CommandView::UnfollowTwitterID(a),
            Command::BlockTwitterID { x_type, x_twitter_user_id, x_from_twitter_id } => {
                CommandView::BlockTwitterID { x_type, x_twitter_user_id, x_from_twitter_id }
            },
            Command::UnblockTwitterID { x_type, x_twitter_user_id } => {
                CommandView::UnblockTwitterID { x_type, x_twitter_user_id }
            },
            Command::ListBlockedTwitterID(k) => CommandView::ListBlockedTwitterID(k),
            Command::ListFollowedTwitterID => CommandView::ListFollowedTwitterID,
            Command::AddUser { telegram_id, custom_label } => CommandView::AddUser {
                telegram_id,
                custom_label: custom_label@,
            },
        }
    }
}

/// Why a text is no command.
#[derive(Clone, Copy, Debug, PartialEq, Eq, Structural)]
pub enum ParseError {
    /// The command is addressed to another bot.
    WrongBotName,
    /// The first word names no command.
    UnknownCommand,
    /// An argument that the command needs is missing.
    TooFewArguments,
    /// There are more arguments than the command takes.
    TooManyArguments,
    /// An argument is not the number it has to be.
    IncorrectFormat,
}

/// The first word of a text: what stands before its first space.
pub open spec fn command_word(s: Seq<char>) -> Seq<char> {
    s.take(find_char(s, ' '))
}

/// What follows the first space of a text; empty where it has no space.
pub open spec fn command_args(s: Seq<char>) -> Seq<char> {
    if find_char(s, ' ') < s.len() {
        s.skip(find_char(s, ' ') + 1)
    } else {
        Seq::empty()
    }
}

/// The name in the first word: what stands before its first `@`.
pub open spec fn command_name(s: Seq<char>) -> Seq<char> {
    spec_split(command_word(s), '@')[0]
}

/// The bot that the first word addresses: what stands between its first `@`
/// and its second, if it has an `@`.
pub open spec fn command_bot(s: Seq<char>) -> Option<Seq<char>> {
    if spec_split(command_word(s), '@').len() > 1 {
        Some(spec_split(command_word(s), '@')[1])
    } else {
        None
    }
}

/// A character's code, that of the small letter for a capital ASCII letter.
pub open spec fn lower_code(c: char) -> int {
    if 65 <= c as int <= 90 {
        c as int + 32
    } else {
        c as int
    }
}

/// Two texts are equal but for the case of their ASCII letters.
pub open spec fn eq_ignore_ascii_case(a: Seq<char>, b: Seq<char>) -> bool {
    a.len() == b.len() && forall|i: int| 0 <= i < a.len() ==> lower_code(#[trigger] a[i])
        == lower_code(b[i])
}

/// Argument `i` as a 64-bit integer.
pub open spec fn arg_i64(pieces: Seq<Seq<char>>, i: int) -> Result<i64, ParseError> {
    if i >= pieces.len() {
        Err(ParseError::TooFewArguments)
    } else {
        match parse_i64(pieces[i]) {
            Some(n) => Ok(n),
            None => Err(ParseError::IncorrectFormat),
        }
    }
}

/// Argument `i` as a 32-bit integer.
pub open spec fn arg_i32(pieces: Seq<Seq<char>>, i: int) -> Result<i32, ParseError> {
    if i >= pieces.len() {
        Err(ParseError::TooFewArguments)
    } else {
        match parse_i32(pieces[i]) {
            Some(n) => Ok(n),
            None => Err(ParseError::IncorrectFormat),
        }
    }
}

/// `/FollowTwitterID`: one account, and optionally the account on whose
/// behalf; 0 where that is left out.
pub open spec fn parse_follow(pieces: Seq<Seq<char>>) -> Result<CommandView, ParseError> {
    match arg_i64(pieces, 0) {
        Err(e) => Err(e),
        Ok(account) => if pieces.len() == 1 {
            Ok(CommandView::FollowTwitterID(account, 0))
        } else {
            match arg_i64(pieces, 1) {
                Err(e) => Err(e),
                Ok(from) => if pieces.len() > 2 {
                    Err(ParseError::TooManyArguments)
                } else {
                    Ok(CommandView::FollowTwitterID(account, from))
                },
            }
        },
    }
}

/// `/BlockTwitterID`: a kind, an account, and optionally the account on whose
/// behalf; 0 where that is left out.
pub open spec fn parse_block(pieces: Seq<Seq<char>>) -> Result<CommandView, ParseError> {
    match arg_i32(pieces, 0) {
        Err(e) => Err(e),
        Ok(x_type) => match arg_i64(pieces, 1) {
            Err(e) => Err(e),
            Ok(x_twitter_user_id) => if pieces.len() == 2 {
                Ok(CommandView::BlockTwitterID { x_type, x_twitter_user_id, x_from_twitter_id: 0 })
            } else {
                match arg_i64(pieces, 2) {
                    Err(e) => Err(e),
                    Ok(x_from_twitter_id) => if pieces.len() > 3 {
                        Err(ParseError::TooManyArguments)
                    } else {
                        Ok(
                            CommandView::BlockTwitterID {
                                x_type,
                                x_twitter_user_id,
                                x_from_twitter_id,
                            },
                        )
                    },
                }
            },
        },
    }
}

/// `/UnblockTwitterID`: a kind and an account.
pub open spec fn parse_unblock(pieces: Seq<Seq<char>>) -> Result<CommandView, ParseError> {
    match arg_i32(pieces, 0) {
        Err(e) => Err(e),
        Ok(x_type) => match arg_i64(pieces, 1) {
            Err(e) => Err(e),
            Ok(x_twitter_user_id) => if pieces.len() > 2 {
                Err(ParseError::TooManyArguments)
            } else {
                Ok(CommandView::UnblockTwitterID { x_type, x_twitter_user_id })
            },
        },
    }
}

/// `/AddUser`: a tenant's number and a label without spaces.
pub open spec fn parse_add_user(pieces: Seq<Seq<char>>) -> Result<CommandView, ParseError> {
    match arg_i64(pieces, 0) {
        Err(e) => Err(e),
        Ok(telegram_id) => if pieces.len() < 2 {
            Err(ParseError::TooFewArguments)
        } else if pieces.len() > 2 {
            Err(ParseError::TooManyArguments)
        } else {
            Ok(CommandView::AddUser { telegram_id, custom_label: pieces[1] })
        },
    }
}

/// The command that a text writes. The first word is the command's name,
/// with `@` and the bot's name behind it where the sender wants to be exact;
/// the arguments follow, one space between one and the next. A command that
/// takes a single argument takes everything behind the first space for it.
pub open spec fn spec_parse_command(s: Seq<char>, bot_name: Seq<char>) -> Result<
    CommandView,
    ParseError,
> {
    if command_bot(s) is Some && !eq_ignore_ascii_case(command_bot(s)->0, bot_name) {
        Err(ParseError::WrongBotName)
    } else {
        parse_named(command_name(s), command_args(s))
    }
}

/// The command called `name` with the arguments `args`.
pub open spec fn parse_named(name: Seq<char>, args: Seq<char>) -> Result<CommandView, ParseError> {
    let pieces = spec_split(args, ' ');
    if name == "/start"@ {
        Ok(CommandView::Start)
    } else if name == "/GetTwitterAuthURL"@ {
        Ok(CommandView::GetTwitterAuthURL)
    } else if name == "/SetTwitterVerifyCode"@ {
        Ok(CommandView::SetTwitterVerifyCode(args))
    } else if name == "/FollowTwitterID"@ {
        parse_follow(pieces)
    } else if name == "/UnfollowTwitterID"@ {
        match parse_i64(args) {
            Some(n) => Ok(CommandView::UnfollowTwitterID(n)),
            None => Err(ParseError::IncorrectFormat),
        }
    } else if name == "/BlockTwitterID"@ {
        parse_block(pieces)
    } else if name == "/UnblockTwitterID"@ {
        parse_unblock(pieces)
    } else if name == "/ListBlockedTwitterID"@ {
        match parse_i32(args) {
            Some(n) => Ok(CommandView::ListBlockedTwitterID(n)),
            None => Err(ParseError::IncorrectFormat),
        }
    } else if name == "/ListFollowedTwitterID"@ {
        Ok(CommandView::ListFollowedTwitterID)
    } else if name == "/AddUser"@ {
        parse_add_user(pieces)
    } else {
        Err(ParseError::UnknownCommand)
    }
}

/// The characters of `v` from `from` up to `to`.
fn slice_vec(v: &Vec<char>, from: usize, to: usize) -> (r: Vec<char>)
    requires
        from <= to <= v.len(),
    ensures
        r@ == v@.subrange(from as int, to as int),
{
    let mut out: Vec<char> = Vec::new();
    let mut i = from;
    while i < to
        invariant
            from <= i <= to <= v.len(),
            out@ == v@.subrange(from as int, i as int),
        decreases to - i,
    {
        out.push(v[i]);
        proof {
            assert(out@ =~= v@.subrange(from as int, i + 1));
        }
        i += 1;
    }
    out
}

/// Whether the range `from..to` of `v` reads as `word`.
fn range_is(v: &Vec<char>, from: usize, to: usize, word: &str) -> (r: bool)
    requires
        from <= to <= v.len(),
    ensures
        r == (v@.subrange(from as int, to as int) == word@),
{
    let w = chars_of(word);
    if w.len() != to - from {
        return false;
    }
    let mut i: usize = 0;
    while i < w.len()
        invariant
            from <= to <= v.len(),
            w.len() == to - from,
            w@ == word@,
            i <= w.len(),
            forall|j: int| 0 <= j < i ==> v[from + j] == w[j],
        decreases w.len() - i,
    {
        if v[from + i] != w[i] {
            proof {
                assert(v@.subrange(from as int, to as int)[i as int] != w@[i as int]);
            }
            return false;
        }
        i += 1;
    }
    proof {
        assert(v@.subrange(from as int, to as int) =~= w@);
    }
    true
}

/// A character's code, that of the small letter for a capital ASCII letter.
fn lower(c: char) -> (r: u32)
    ensures
        r == lower_code(c),
{
    let code = c as u32;
    if 65 <= code && code <= 90 {
        code + 32
    } else {
        code
    }
}

/// Whether the range `from..to` of `v` is `name` but for the case of ASCII
/// letters.
fn range_is_ignoring_case(v: &Vec<char>, from: usize, to: usize, name: &str) -> (r: bool)
    requires
        from <= to <= v.len(),
    ensures
        r == eq_ignore_ascii_case(v@.subrange(from as int, to as int), name@),
{
    let w = chars_of(name);
    let ghost s = v@.subrange(from as int, to as int);
    if w.len() != to - from {
        return false;
    }
    let mut i: usize = 0;
    while i < w.len()
        invariant
            from <= to <= v.len(),
            w.len() == to - from,
            w@ == name@,
            s == v@.subrange(from as int, to as int),
            i <= w.len(),
            forall|j: int| 0 <= j < i ==> lower_code(#[trigger] s[j]) == lower_code(w[j]),
        decreases w.len() - i,
    {
        if lower(v[from + i]) != lower(w[i]) {
            proof {
                assert(s[i as int] == v[from + i]);
            }
            return false;
        }
        proof {
            assert(s[i as int] == v[from + i]);
        }
        i += 1;
    }
    true
}

/// Reads argument `i` of `pieces` as a 64-bit integer.
fn read_arg_i64(v: &Vec<char>, pieces: &Vec<(usize, usize)>, i: usize) -> (r: Result<
    i64,
    ParseError,
>)
    requires
        forall|k: int| 0 <= k < pieces.len() ==> (#[trigger] pieces[k]).0 <= pieces[k].1 <= v.len(),
    ensures
        r == arg_i64(pieces_of(v@, pieces@), i as int),
{
    if i >= pieces.len() {
        return Err(ParseError::TooFewArguments);
    }
    match read_i64(v, pieces[i].0, pieces[i].1) {
        Some(n) => Ok(n),
        None => Err(ParseError::IncorrectFormat),
    }
}

/// Reads argument `i` of `pieces` as a 32-bit integer.
fn read_arg_i32(v: &Vec<char>, pieces: &Vec<(usize, usize)>, i: usize) -> (r: Result<
    i32,
    ParseError,
>)
    requires
        forall|k: int| 0 <= k < pieces.len() ==> (#[trigger] pieces[k]).0 <= pieces[k].1 <= v.len(),
    ensures
        r == arg_i32(pieces_of(v@, pieces@), i as int),
{
    if i >= pieces.len() {
        return Err(ParseError::TooFewArguments);
    }
    match read_i32(v, pieces[i].0, pieces[i].1) {
        Some(n) => Ok(n),
        None => Err(ParseError::IncorrectFormat),
    }
}

/// What the answer of the parser has to be.
pub open spec fn parsed_as(r: Result<Command, ParseError>, want: Result<CommandView, ParseError>) -> bool {
    match r {
        Ok(c) => want == Ok::<CommandView, ParseError>(c@),
        Err(e) => want == Err::<CommandView, ParseError>(e),
    }
}

/// Reads the arguments of `/FollowTwitterID`.
fn read_follow(v: &Vec<char>, pieces: &Vec<(usize, usize)>) -> (r: Result<Command, ParseError>)
    requires
        forall|k: int| 0 <= k < pieces.len() ==> (#[trigger] pieces[k]).0 <= pieces[k].1 <= v.len(),
    ensures
        parsed_as(r, parse_follow(pieces_of(v@, pieces@))),
{
    let account = match read_arg_i64(v, pieces, 0) {
        Ok(n) => n,
        Err(e) => {
            return Err(e);
        },
    };
    if pieces.len() == 1 {
        return Ok(Command::FollowTwitterID(account, 0));
    }
    let from = match read_arg_i64(v, pieces, 1) {
        Ok(n) => n,
        Err(e) => {
            return Err(e);
        },
    };
    if pieces.len() > 2 {
        return Err(ParseError::TooManyArguments);
    }
    Ok(Command::FollowTwitterID(account, from))
}

/// Reads the arguments of `/BlockTwitterID`.
fn read_block(v: &Vec<char>, pieces: &Vec<(usize, usize)>) -> (r: Result<Command, ParseError>)
    requires
        forall|k: int| 0 <= k < pieces.len() ==> (#[trigger] pieces[k]).0 <= pieces[k].1 <= v.len(),
    ensures
        parsed_as(r, parse_block(pieces_of(v@, pieces@))),
{
    let x_type = match read_arg_i32(v, pieces, 0) {
        Ok(n) => n,
        Err(e) => {
            return Err(e);
        },
    };
    let x_twitter_user_id = match read_arg_i64(v, pieces, 1) {
        Ok(n) => n,
        Err(e) => {
            return Err(e);
        },
    };
    if pieces.len() == 2 {
        return Ok(Command::BlockTwitterID { x_type, x_twitter_user_id, x_from_twitter_id: 0 });
    }
    let x_from_twitter_id = match read_arg_i64(v, pieces, 2) {
        Ok(n) => n,
        Err(e) => {
            return Err(e);
        },
    };
    if pieces.len() > 3 {
        return Err(ParseError::TooManyArguments);
    }
    Ok(Command::BlockTwitterID { x_type, x_twitter_user_id, x_from_twitter_id })
}

/// Reads the arguments of `/UnblockTwitterID`.
fn read_unblock(v: &Vec<char>, pieces: &Vec<(usize, usize)>) -> (r: Result<Command, ParseError>)
    requires
        forall|k: int| 0 <= k < pieces.len() ==> (#[trigger] pieces[k]).0 <= pieces[k].1 <= v.len(),
    ensures
        parsed_as(r, parse_unblock(pieces_of(v@, pieces@))),
{
    let x_type = match read_arg_i32(v, pieces, 0) {
        Ok(n) => n,
        Err(e) => {
            return Err(e);
        },
    };
    let x_twitter_user_id = match read_arg_i64(v, pieces, 1) {
        Ok(n) => n,
        Err(e) => {
            return Err(e);
        },
    };
    if pieces.len() > 2 {
        return Err(ParseError::TooManyArguments);
    }
    Ok(Command::UnblockTwitterID { x_type, x_twitter_user_id })
}

/// Reads the command called by the range `a..b` of `word`, with the
/// arguments `args`, which stand in `text` from position `args_from` on.
fn read_named(
    word: &Vec<char>,
    a: usize,
    b: usize,
    args: &Vec<char>,
    text: &str,
    args_from: usize,
) -> (r: Result<Command, ParseError>)
    requires
        a <= b <= word.len(),
        args_from + args.len() == text@.len(),
        args_from + args.len() <= usize::MAX,
        args@ == text@.subrange(args_from as int, text@.len() as int),
    ensures
        parsed_as(r, parse_named(word@.subrange(a as int, b as int), args@)),
{
    let n = args_from + args.len();
    proof {
        assert(args@.subrange(0, args.len() as int) =~= args@);
    }
    if range_is(word, a, b, "/start") {
        Ok(Command::Start)
    } else if range_is(word, a, b, "/GetTwitterAuthURL") {
        Ok(Command::GetTwitterAuthURL)
    } else if range_is(word, a, b, "/SetTwitterVerifyCode") {
        let code = text.substring_char(args_from, n);
        Ok(Command::SetTwitterVerifyCode(String::from_str(code)))
    } else if range_is(word, a, b, "/FollowTwitterID") {
        let pieces = split_ranges(args, ' ');
        read_follow(args, &pieces)
    } else if range_is(word, a, b, "/UnfollowTwitterID") {
        match read_i64(args, 0, args.len()) {
            Some(account) => Ok(Command::UnfollowTwitterID(account)),
            None => Err(ParseError::IncorrectFormat),
        }
    } else if range_is(word, a, b, "/BlockTwitterID") {
        let pieces = split_ranges(args, ' ');
        read_block(args, &pieces)
    } else if range_is(word, a, b, "/UnblockTwitterID") {
        let pieces = split_ranges(args, ' ');
        read_unblock(args, &pieces)
    } else if range_is(word, a, b, "/ListBlockedTwitterID") {
        match read_i32(args, 0, args.len()) {
            Some(kind) => Ok(Command::ListBlockedTwitterID(kind)),
            None => Err(ParseError::IncorrectFormat),
        }
    } else if range_is(word, a, b, "/ListFollowedTwitterID") {
        Ok(Command::ListFollowedTwitterID)
    } else if range_is(word, a, b, "/AddUser") {
        let pieces = split_ranges(args, ' ');
        read_add_user(args, &pieces, text, args_from)
    } else {
        Err(ParseError::UnknownCommand)
    }
}

/// Reads the arguments of `/AddUser`.
fn read_add_user(
    args: &Vec<char>,
    pieces: &Vec<(usize, usize)>,
    text: &str,
    args_from: usize,
) -> (r: Result<Command, ParseError>)
    requires
        forall|k: int|
            0 <= k < pieces.len() ==> (#[trigger] pieces[k]).0 <= pieces[k].1 <= args.len(),
        args_from + args.len() == text@.len(),
        args_from + args.len() <= usize::MAX,
        args@ == text@.subrange(args_from as int, text@.len() as int),
    ensures
        parsed_as(r, parse_add_user(pieces_of(args@, pieces@))),
{
    let telegram_id = match read_arg_i64(args, pieces, 0) {
        Ok(id) => id,
        Err(e) => {
            return Err(e);
        },
    };
    if pieces.len() < 2 {
        return Err(ParseError::TooFewArguments);
    }
    if pieces.len() > 2 {
        return Err(ParseError::TooManyArguments);
    }
    let label = text.substring_char(args_from + pieces[1].0, args_from + pieces[1].1);
    proof {
        assert(text@.subrange(args_from + pieces[1].0, args_from + pieces[1].1)
            =~= args@.subrange(pieces[1].0 as int, pieces[1].1 as int));
        assert(pieces_of(args@, pieces@)[1] == args@.subrange(
            pieces[1].0 as int,
            pieces[1].1 as int,
        ));
    }
    Ok(Command::AddUser { telegram_id, custom_label: String::from_str(label) })
}

/// Cuts `text` at its first space: the first word, what follows the space,
/// and where that starts.
fn split_command(text: &str) -> (r: (Vec<char>, Vec<char>, usize))
    ensures
        r.0@ == command_word(text@),
        r.1@ == command_args(text@),
        r.2 + r.1.len() == text@.len(),
        r.2 + r.1.len() <= usize::MAX,
        r.1@ == text@.subrange(r.2 as int, text@.len() as int),
{
    let v = chars_of(text);
    let n = v.len();
    proof {
        assert(v@.skip(0) =~= v@);
        lemma_find_char(v@, ' ');
    }
    let space = find_from(&v, ' ', 0);
    let word = slice_vec(&v, 0, space);
    let args_from = if space < n {
        space + 1
    } else {
        n
    };
    let args = slice_vec(&v, args_from, n);
    proof {
        assert(word@ =~= command_word(text@));
        assert(args@ =~= command_args(text@));
    }
    (word, args, args_from)
}

/// Reads the command that `text` writes, for the bot called `bot_name`.
pub fn parse_command(text: &str, bot_name: &str) -> (r: Result<Command, ParseError>)
    ensures
        parsed_as(r, spec_parse_command(text@, bot_name@)),
{
    let (word, args, args_from) = split_command(text);
    let parts = split_ranges(&word, '@');
    let ghost names = pieces_of(word@, parts@);
    proof {
        assert(names[0] == word@.subrange(parts[0].0 as int, parts[0].1 as int));
    }
    if parts.len() > 1 {
        proof {
            assert(names[1] == word@.subrange(parts[1].0 as int, parts[1].1 as int));
        }
        if !range_is_ignoring_case(&word, parts[1].0, parts[1].1, bot_name) {
            return Err(ParseError::WrongBotName);
        }
    }
    read_named(&word, parts[0].0, parts[0].1, &args, text, args_from)
}

} // verus!
