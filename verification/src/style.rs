//! Terminal styling of text.

use owo_colors::OwoColorize;
use vstd::prelude::*;

verus! {

/// A text between the escape sequences for a red foreground and for the
/// default one.
pub open spec fn red_text(text: Seq<char>) -> Seq<char> {
    "\x1b[31m"@ + text + "\x1b[39m"@
}

/// A text between the escape sequences for a cyan foreground and for the
/// default one.
pub open spec fn cyan_text(text: Seq<char>) -> Seq<char> {
    "\x1b[36m"@ + text + "\x1b[39m"@
}

/// A text between the escape sequences for dim text and for plain text.
pub open spec fn dimmed_text(text: Seq<char>) -> Seq<char> {
    "\x1b[2m"@ + text + "\x1b[0m"@
}

/// `owo_colors::OwoColorize::red`, displayed: the escape sequence 31, the text
/// unchanged, the escape sequence 39.
#[verifier::external_body]
pub(crate) fn red(text: &str) -> (styled: String)
    ensures
        styled@ == red_text(text@),
{
    format!("{}", text.red())
}

/// `owo_colors::OwoColorize::cyan`, displayed: the escape sequence 36, the text
/// unchanged, the escape sequence 39.
#[verifier::external_body]
pub(crate) fn cyan(text: &str) -> (styled: String)
    ensures
        styled@ == cyan_text(text@),
{
    format!("{}", text.cyan())
}

/// `owo_colors::OwoColorize::dimmed`, displayed: the escape sequence 2, the
/// text unchanged, the escape sequence 0.
#[verifier::external_body]
pub(crate) fn dimmed(text: &str) -> (styled: String)
    ensures
        styled@ == dimmed_text(text@),
{
    format!("{}", text.dimmed())
}

/// A styled text is the text, whole and unchanged, between two escape sequences.
pub proof fn law_styled_text(text: Seq<char>)
    ensures
        red_text(text) == seq!['\x1b', '[', '3', '1', 'm'] + text + seq!['\x1b', '[', '3', '9', 'm'],
        cyan_text(text) == seq!['\x1b', '[', '3', '6', 'm'] + text + seq![
            '\x1b',
            '[',
            '3',
            '9',
            'm',
        ],
        dimmed_text(text) == seq!['\x1b', '[', '2', 'm'] + text + seq!['\x1b', '[', '0', 'm'],
{
    reveal_strlit("\x1b[31m");
    reveal_strlit("\x1b[36m");
    reveal_strlit("\x1b[39m");
    reveal_strlit("\x1b[2m");
    reveal_strlit("\x1b[0m");
    assert("\x1b[31m"@ =~= seq!['\x1b', '[', '3', '1', 'm']);
    assert("\x1b[36m"@ =~= seq!['\x1b', '[', '3', '6', 'm']);
    assert("\x1b[39m"@ =~= seq!['\x1b', '[', '3', '9', 'm']);
    assert("\x1b[2m"@ =~= seq!['\x1b', '[', '2', 'm']);
    assert("\x1b[0m"@ =~= seq!['\x1b', '[', '0', 'm']);
}

} // verus!
