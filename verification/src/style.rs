//! Terminal styling of the tags in the progress output.
//!
//! Whether a style shows up in the text is decided by the process-wide colour setting of
//! `console`, so a styled text is one of two: the plain text, or the text between the escape
//! sequences of the style and the reset sequence.

use vstd::prelude::*;

verus! {

/// The escape sequences for bold blue.
pub open spec fn blue_bold_codes() -> Seq<char> {
    "\x1b[34m\x1b[1m"@
}

/// The escape sequences for bold green.
pub open spec fn green_bold_codes() -> Seq<char> {
    "\x1b[32m\x1b[1m"@
}

/// The escape sequences for bold red.
pub open spec fn red_bold_codes() -> Seq<char> {
    "\x1b[31m\x1b[1m"@
}

/// The escape sequence for bold.
pub open spec fn bold_codes() -> Seq<char> {
    "\x1b[1m"@
}

/// Whether `out` is what printing `text` in the style with the escape sequences `codes` may
/// give: `text` where colours are off, the escaped text where they are on.
pub open spec fn styled(out: Seq<char>, codes: Seq<char>, text: Seq<char>) -> bool {
    out == text || out == codes + text + "\x1b[0m"@
}

/// `console::style(..).blue().bold()`, printed: `text` as it is or between the sequences of
/// bold blue and the reset. Which of the two depends on the terminal, the environment and
/// `console::set_colors_enabled`, and is left open.
#[verifier::external_body]
pub(crate) fn blue_bold(text: &str) -> (r: String)
    ensures
        styled(r@, blue_bold_codes(), text@),
{
    console::style(text).blue().bold().to_string()
}

/// `console::style(..).green().bold()`, printed: `text` as it is or between the sequences of
/// bold green and the reset. Which of the two depends on the terminal, the environment and
/// `console::set_colors_enabled`, and is left open.
#[verifier::external_body]
pub(crate) fn green_bold(text: &str) -> (r: String)
    ensures
        styled(r@, green_bold_codes(), text@),
{
    console::style(text).green().bold().to_string()
}

/// `console::style(..).red().bold()`, printed: `text` as it is or between the sequences of
/// bold red and the reset. Which of the two depends on the terminal, the environment and
/// `console::set_colors_enabled`, and is left open.
#[verifier::external_body]
pub(crate) fn red_bold(text: &str) -> (r: String)
    ensures
        styled(r@, red_bold_codes(), text@),
{
    console::style(text).red().bold().to_string()
}

/// `console::style(..).bold()`, printed: `text` as it is or between the sequence of bold and
/// the reset. Which of the two depends on the terminal, the environment and
/// `console::set_colors_enabled`, and is left open.
#[verifier::external_body]
pub(crate) fn bold(text: &str) -> (r: String)
    ensures
        styled(r@, bold_codes(), text@),
{
    console::style(text).bold().to_string()
}

/// A styled text shows the text in full, with nothing around it but the sequences of its style.
pub proof fn law_styled_text_shows_the_text(out: Seq<char>, codes: Seq<char>, text: Seq<char>)
    requires
        styled(out, codes, text),
    ensures
        out.len() == text.len() || out.len() == codes.len() + text.len() + 4,
        out.len() == text.len() ==> out == text,
        out.len() != text.len() ==> {
            &&& out.take(codes.len() as int) == codes
            &&& out.subrange(codes.len() as int, (codes.len() + text.len()) as int) == text
            &&& out.skip((codes.len() + text.len()) as int) == seq!['\x1b', '[', '0', 'm']
        },
{
    reveal_strlit("\x1b[0m");
    if out != text {
        assert(out.take(codes.len() as int) =~= codes);
        assert(out.subrange(codes.len() as int, (codes.len() + text.len()) as int) =~= text);
        assert(out.skip((codes.len() + text.len()) as int) =~= seq!['\x1b', '[', '0', 'm']);
    }
}

/// Both showings of a text are possible: the text itself, and the text between the sequences of
/// its style and the reset.
pub proof fn law_both_showings_are_possible(codes: Seq<char>, text: Seq<char>)
    ensures
        styled(text, codes, text),
        styled(codes + text + seq!['\x1b', '[', '0', 'm'], codes, text),
{
    reveal_strlit("\x1b[0m");
    assert("\x1b[0m"@ =~= seq!['\x1b', '[', '0', 'm']);
}

/// The colours differ in the digit of the colour alone, and each goes with bold.
pub proof fn law_colours_differ_in_one_digit()
    ensures
        bold_codes() == seq!['\x1b', '[', '1', 'm'],
        blue_bold_codes() == seq!['\x1b', '[', '3', '4', 'm'] + bold_codes(),
        green_bold_codes() == blue_bold_codes().update(3, '2'),
        red_bold_codes() == blue_bold_codes().update(3, '1'),
{
    reveal_strlit("\x1b[34m\x1b[1m");
    reveal_strlit("\x1b[32m\x1b[1m");
    reveal_strlit("\x1b[31m\x1b[1m");
    reveal_strlit("\x1b[1m");
    assert(bold_codes() =~= seq!['\x1b', '[', '1', 'm']);
    assert(blue_bold_codes() =~= seq!['\x1b', '[', '3', '4', 'm'] + bold_codes());
    assert(green_bold_codes() =~= blue_bold_codes().update(3, '2'));
    assert(red_bold_codes() =~= blue_bold_codes().update(3, '1'));
}

}
