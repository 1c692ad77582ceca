use vstd::prelude::*;

verus! {

/// The characters that MarkdownV2 reads as markup.
pub open spec fn is_markup(c: char) -> bool {
    c == '_' || c == '*' || c == '[' || c == ']' || c == '(' || c == ')' || c == '~' || c == '`'
        || c == '>' || c == '#' || c == '+' || c == '-' || c == '=' || c == '|' || c == '{' || c
        == '}' || c == '.' || c == '!'
}

/// A text with a backslash in front of every markup character.
pub open spec fn spec_escape(s: Seq<char>) -> Seq<char>
    decreases s.len(),
{
    if s.len() == 0 {
        Seq::empty()
    } else if is_markup(s.last()) {
        spec_escape(s.drop_last()).push('\\').push(s.last())
    } else {
        spec_escape(s.drop_last()).push(s.last())
    }
}

/// A text between two asterisks.
pub open spec fn spec_bold(s: Seq<char>) -> Seq<char> {
    seq!['*'] + s + seq!['*']
}

/// Calls `teloxide::utils::markdown::escape`. Trusted: the result is the text
/// with a backslash put before each of the eighteen markup characters and
/// nothing else changed.
#[verifier::external_body]
pub(crate) fn escape(s: &str) -> (r: String)
    ensures
        r@ == spec_escape(s@),
{
    teloxide::utils::markdown::escape(s)
}

/// Calls `teloxide::utils::markdown::bold`. Trusted: the result is the text
/// with one asterisk before it and one after it.
#[verifier::external_body]
pub(crate) fn bold(s: &str) -> (r: String)
    ensures
        r@ == spec_bold(s@),
{
    teloxide::utils::markdown::bold(s)
}

} // verus!
