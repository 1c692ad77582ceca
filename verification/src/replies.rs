use crate::markdown::escape;
use crate::markdown::spec_escape;
use crate::models::Blacklist;
use crate::models::Follow;
use crate::subscriber::SubscriberError;
use crate::text::decimal_i64;
use crate::text::decimal_u64;
use crate::text::spec_decimal;
use crate::text::spec_decimal_int;
use vstd::prelude::*;
use vstd::string::StringExecFns;

verus! {

/// How many blocks one message lists at most.
pub const BLOCKS_PER_MESSAGE: usize = 50;

/// What was tried for a tenant and is reported back.
#[derive(Clone, Copy, Debug, PartialEq, Eq, Structural)]
pub enum Outcome {
    /// A subscription or a block was stored.
    Added,
    /// A block was deleted.
    Unblocked,
    /// A subscription was deleted.
    Unsubscribed,
    /// A credential was stored.
    TokenUpdated,
}

/// How a success is worded, up to the number of records.
pub open spec fn success_prefix(outcome: Outcome) -> Seq<char> {
    match outcome {
        Outcome::Added => "Added successfully, affecting "@,
        Outcome::Unblocked => "Unblock successfully, affecting "@,
        Outcome::Unsubscribed => "Unsubscribe Success, affecting "@,
        Outcome::TokenUpdated => "Update Twitter messages successfully, affecting "@,
    }
}

/// The report of what the store did: how many records it touched, or the
/// error it gave, in its own words.
pub open spec fn spec_outcome_reply(outcome: Outcome, result: Result<usize, String>) -> Seq<char> {
    match result {
        Ok(count) => success_prefix(outcome) + spec_decimal(count as nat) + " records"@,
        Err(error) => "Failure, error "@ + error@,
    }
}

/// Words the report of what the store did.
pub fn outcome_reply(outcome: Outcome, result: &Result<usize, String>) -> (r: String)
    ensures
        r@ == spec_outcome_reply(outcome, *result),
{
    match result {
        Ok(count) => {
            let mut text = match outcome {
                Outcome::Added => String::from_str("Added successfully, affecting "),
                Outcome::Unblocked => String::from_str("Unblock successfully, affecting "),
                Outcome::Unsubscribed => String::from_str("Unsubscribe Success, affecting "),
                Outcome::TokenUpdated => String::from_str(
                    "Update Twitter messages successfully, affecting ",
                ),
            };
            let digits = decimal_u64(*count as u64);
            text.append(digits.as_str());
            text.append(" records");
            text
        },
        Err(error) => {
            let mut text = String::from_str("Failure, error ");
            text.append(error.as_str());
            text
        },
    }
}

/// The report on a new tenant: the label in bold, the number in italics,
/// and what the store did.
pub open spec fn spec_add_user_reply(
    custom_label: Seq<char>,
    telegram_id: i64,
    result: Result<usize, String>,
) -> Seq<char> {
    "*"@ + spec_escape(custom_label) + "* _"@ + spec_decimal_int(telegram_id as int) + "_ Add "@
        + match result {
        Ok(count) => "Success, affecting "@ + spec_decimal(count as nat) + " Records"@,
        Err(error) => "Failure, error "@ + error@,
    }
}

/// Words the report on a new tenant.
pub fn add_user_reply(custom_label: &str, telegram_id: i64, result: &Result<usize, String>) -> (r:
    String)
    ensures
        r@ == spec_add_user_reply(custom_label@, telegram_id, *result),
{
    let mut text = String::from_str("*");
    let label = escape(custom_label);
    text.append(label.as_str());
    text.append("* _");
    let id = decimal_i64(telegram_id);
    text.append(id.as_str());
    text.append("_ Add ");
    match result {
        Ok(count) => {
            text.append("Success, affecting ");
            let digits = decimal_u64(*count as u64);
            text.append(digits.as_str());
            text.append(" Records");
            proof {
                assert(text@ =~= spec_add_user_reply(custom_label@, telegram_id, *result));
            }
        },
        Err(error) => {
            text.append("Failure, error ");
            text.append(error.as_str());
            proof {
                assert(text@ =~= spec_add_user_reply(custom_label@, telegram_id, *result));
            }
        },
    }
    text
}

/// One line of the list of subscriptions: the name in bold, the number in
/// italics.
pub open spec fn follow_line(f: Follow) -> Seq<char> {
    "\\* *"@ + spec_escape(f.twitter_username@) + "* _"@ + spec_decimal_int(
        f.twitter_user_id as int,
    ) + "_\n"@
}

/// The lines of the subscriptions `follows`, in their order.
pub open spec fn follow_lines(follows: Seq<Follow>) -> Seq<char>
    decreases follows.len(),
{
    if follows.len() == 0 {
        Seq::empty()
    } else {
        follow_lines(follows.drop_last()) + follow_line(follows.last())
    }
}

/// The list of a tenant's subscriptions: a heading, then one line each.
pub open spec fn spec_followed_list(follows: Seq<Follow>) -> Seq<char> {
    spec_escape("You are currently subscribed to the following accounts.\n"@) + follow_lines(
        follows,
    )
}

/// Words the list of a tenant's subscriptions.
pub fn followed_list(follows: &Vec<Follow>) -> (r: String)
    ensures
        r@ == spec_followed_list(follows@),
{
    let mut msg = escape("You are currently subscribed to the following accounts.\n");
    let ghost head = msg@;
    let mut i: usize = 0;
    proof {
        assert(follows@.take(0) =~= Seq::<Follow>::empty());
        assert(msg@ =~= head + follow_lines(follows@.take(0)));
    }
    while i < follows.len()
        invariant
            i <= follows.len(),
            msg@ == head + follow_lines(follows@.take(i as int)),
        decreases follows.len() - i,
    {
        let f = &follows[i];
        let ghost before = msg@;
        msg.append("\\* *");
        let name = escape(f.twitter_username.as_str());
        msg.append(name.as_str());
        msg.append("* _");
        let id = decimal_i64(f.twitter_user_id);
        msg.append(id.as_str());
        msg.append("_\n");
        proof {
            assert(follows@.take(i + 1).drop_last() =~= follows@.take(i as int));
            assert(follows@.take(i + 1).last() == follows@[i as int]);
            assert(msg@ =~= before + follow_line(*f));
            assert(msg@ =~= head + follow_lines(follows@.take(i + 1)));
        }
        i += 1;
    }
    proof {
        assert(follows@.take(follows.len() as int) =~= follows@);
    }
    msg
}

/// One line of the list of blocks: the name and the number.
pub open spec fn block_line(b: Blacklist) -> Seq<char> {
    "\\* "@ + spec_escape(b.twitter_username@) + " "@ + spec_decimal_int(b.twitter_user_id as int)
        + "\n"@
}

/// The lines of the blocks `rows`, in their order.
pub open spec fn block_lines(rows: Seq<Blacklist>) -> Seq<char>
    decreases rows.len(),
{
    if rows.len() == 0 {
        Seq::empty()
    } else {
        block_lines(rows.drop_last()) + block_line(rows.last())
    }
}

/// How many messages the list of `n` blocks takes.
pub open spec fn block_message_count(n: nat) -> nat {
    (n + BLOCKS_PER_MESSAGE - 1) as nat / (BLOCKS_PER_MESSAGE as nat)
}

/// Message `k` of the list of blocks: fifty lines, fewer in the last one;
/// the first message starts with a heading.
pub open spec fn block_message(rows: Seq<Blacklist>, k: int) -> Seq<char> {
    let from = k * BLOCKS_PER_MESSAGE;
    let to = if from + BLOCKS_PER_MESSAGE < rows.len() {
        from + BLOCKS_PER_MESSAGE
    } else {
        rows.len() as int
    };
    let heading = if k == 0 {
        spec_escape("Your blacklist.\n"@)
    } else {
        Seq::empty()
    };
    heading + block_lines(rows.subrange(from, to))
}

/// The list of a tenant's blocks, in messages of fifty; no message at all
/// where there is no block.
pub open spec fn spec_blocked_list(rows: Seq<Blacklist>) -> Seq<Seq<char>> {
    Seq::new(block_message_count(rows.len()), |k: int| block_message(rows, k))
}

/// Words the list of a tenant's blocks.
pub fn blocked_list(list: &Vec<Blacklist>) -> (r: Vec<String>)
    ensures
        r@.map_values(|s: String| s@) == spec_blocked_list(list@),
{
    let n = list.len();
    let mut out: Vec<String> = Vec::new();
    let mut from: usize = 0;
    while from < n
        invariant
            n == list.len(),
            from <= n,
            from < n ==> from == out.len() * BLOCKS_PER_MESSAGE,
            from == n ==> out.len() == block_message_count(n as nat),
            out.len() <= block_message_count(n as nat),
            forall|k: int| 0 <= k < out.len() ==> (#[trigger] out[k])@ == block_message(list@, k),
        decreases n - from,
    {
        let to: usize = if n - from > BLOCKS_PER_MESSAGE {
            from + BLOCKS_PER_MESSAGE
        } else {
            n
        };
        let mut msg = if from == 0 {
            escape("Your blacklist.\n")
        } else {
            String::new()
        };
        let ghost head = msg@;
        let ghost chunk = list@.subrange(from as int, to as int);
        let mut i: usize = from;
        proof {
            assert(chunk.take(0) =~= Seq::<Blacklist>::empty());
            assert(msg@ =~= head + block_lines(chunk.take(0)));
        }
        while i < to
            invariant
                from <= i <= to <= n,
                n == list.len(),
                chunk == list@.subrange(from as int, to as int),
                msg@ == head + block_lines(chunk.take(i - from)),
            decreases to - i,
        {
            let b = &list[i];
            let ghost before = msg@;
            msg.append("\\* ");
            let name = escape(b.twitter_username.as_str());
            msg.append(name.as_str());
            msg.append(" ");
            let id = decimal_i64(b.twitter_user_id);
            msg.append(id.as_str());
            msg.append("\n");
            proof {
                assert(chunk.take(i - from + 1).drop_last() =~= chunk.take(i - from));
                assert(chunk.take(i - from + 1).last() == list@[i as int]);
                assert(msg@ =~= before + block_line(*b));
                assert(msg@ =~= head + block_lines(chunk.take(i - from + 1)));
            }
            i += 1;
        }
        proof {
            assert(chunk.take(to - from) =~= chunk);
            let k = out.len() as int;
            assert(from == k * BLOCKS_PER_MESSAGE);
            assert(msg@ == block_message(list@, k));
            lemma_message_count(n as nat, k as nat, to as nat);
        }
        out.push(msg);
        from = to;
    }
    proof {
        assert(out.len() == block_message_count(n as nat));
        assert(out@.map_values(|s: String| s@) =~= spec_blocked_list(list@));
    }
    out
}

/// After `k` full messages, one more message that ends at `to` is the last
/// one exactly when `to` is the end of the list.
proof fn lemma_message_count(n: nat, k: nat, to: nat)
    requires
        k * BLOCKS_PER_MESSAGE < n,
        to == if n - k * BLOCKS_PER_MESSAGE > BLOCKS_PER_MESSAGE {
            k * BLOCKS_PER_MESSAGE + BLOCKS_PER_MESSAGE
        } else {
            n as int
        },
    ensures
        k + 1 <= block_message_count(n),
        to == n ==> k + 1 == block_message_count(n),
        to < n ==> to == (k + 1) * BLOCKS_PER_MESSAGE,
{
    assert(BLOCKS_PER_MESSAGE == 50);
    let c = block_message_count(n);
    assert(c == (n + 49) / 50);
    assert(k * 50 < n);
    if to == n {
        assert(n <= k * 50 + 50);
    }
}

/// What a tenant is told when its credential has expired.
pub open spec fn spec_expiry_notice() -> Seq<char> {
    spec_escape("Your Twitter authorization has expired, you will not receive future messages."@)
}

/// What a tenant is told when its credential has expired.
pub fn expiry_notice() -> (r: String)
    ensures
        r@ == spec_expiry_notice(),
{
    escape("Your Twitter authorization has expired, you will not receive future messages.")
}

/// An error of the subscription manager in words.
pub open spec fn spec_error_message(e: SubscriberError) -> Seq<char> {
    match e {
        SubscriberError::NoCredential => "No valid Twitter token"@,
        SubscriberError::CredentialExpired => "Twitter authorization has expired"@,
        SubscriberError::TokenMalformed => "Twitter token cannot be read"@,
        SubscriberError::TransportError => "Twitter cannot be reached"@,
    }
}

/// Words an error of the subscription manager.
pub fn error_message(e: SubscriberError) -> (r: String)
    ensures
        r@ == spec_error_message(e),
{
    match e {
        SubscriberError::NoCredential => String::from_str("No valid Twitter token"),
        SubscriberError::CredentialExpired => String::from_str("Twitter authorization has expired"),
        SubscriberError::TokenMalformed => String::from_str("Twitter token cannot be read"),
        SubscriberError::TransportError => String::from_str("Twitter cannot be reached"),
    }
}

} // verus!
