//! Emphasis of words in terminal output.

use vstd::prelude::*;
use colored::Colorize;

verus! {

/// Whether `shown` is `plain` as the terminal shows it in bold: either the
/// text alone, where the output is not coloured, or the text between the
/// escape sequences that start bold print and reset it.
pub open spec fn bold_form(plain: Seq<char>, shown: Seq<char>) -> bool {
    shown == plain || shown == "\x1b[1m"@ + plain + "\x1b[0m"@
}

/// Whether `shown` is `plain` as the terminal shows it underlined.
pub open spec fn underline_form(plain: Seq<char>, shown: Seq<char>) -> bool {
    shown == plain || shown == "\x1b[4m"@ + plain + "\x1b[0m"@
}

/// `s` in bold, as `colored`'s `bold` prints it. Whether escape sequences
/// are written depends on the process's environment and terminal, so only
/// the two possible forms are stated, for a text that holds no escape
/// character itself.
#[verifier::external_body]
pub(crate) fn bold(s: &str) -> (res: String)
    ensures
        !s@.contains('\x1b') ==> bold_form(s@, res@),
{
    s.bold().to_string()
}

/// `s` underlined, as `colored`'s `underline` prints it. As for `bold`, the
/// environment decides between the two forms that are stated.
#[verifier::external_body]
pub(crate) fn underline(s: &str) -> (res: String)
    ensures
        !s@.contains('\x1b') ==> underline_form(s@, res@),
{
    s.underline().to_string()
}

} // verus!
