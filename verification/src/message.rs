//! The line in which an outcome is reported to the user.

use vstd::prelude::*;
use vstd::string::*;

verus! {

/// What `str::to_uppercase` makes of a text: each character replaced by its
/// upper-case form as Unicode defines it.
pub uninterp spec fn uppercase_of(text: Seq<char>) -> Seq<char>;

/// `str::to_uppercase`: the upper-case form of `text`.
#[verifier::external_body]
fn uppercase(text: &str) -> (upper: String)
    ensures
        upper@ == uppercase_of(text@),
{
    text.to_uppercase()
}

/// A report line: the severity in upper case between square brackets, a
/// space, and the message.
pub open spec fn report_line(tag: Seq<char>, message: Seq<char>) -> Seq<char> {
    "["@ + uppercase_of(tag) + "] "@ + message
}

/// The line that reports `message` under the severity `message_type`
/// (`info`, `ok` or `error`).
pub fn display_message(message_type: &str, message: &str) -> (line: String)
    ensures
        line@ == report_line(message_type@, message@),
{
    let upper = uppercase(message_type);
    tagged_line(upper.as_str(), message)
}

/// The line for a severity that is already known in upper case: what follows
/// the call of the standard library, for any text that it gave.
pub fn tagged_line(upper: &str, message: &str) -> (line: String)
    ensures
        line@ == "["@ + upper@ + "] "@ + message@,
{
    let mut line = String::from_str("[");
    line.append(upper);
    line.append("] ");
    line.append(message);
    line
}

} // verus!
