//! The style policy: which terminal display-attribute sequence opens and
//! closes each styled construct, and the painting helpers that produce them.
//!
//! The sequences themselves come from the `ansi_term` crate, exactly as a
//! terminal expects them; each helper here is a thin trusted wrapper whose
//! contract pins the bytes the crate writes.

use vstd::prelude::*;
use vstd::string::*;

verus! {

/// The escape character that opens every terminal attribute sequence.
pub open spec fn esc() -> char {
    '\u{1b}'
}

/// Closes any open attributes: `ESC [ 0 m`.
pub open spec fn seq_reset() -> Seq<char> {
    seq![esc(), '[', '0', 'm']
}

/// Opens bold: `ESC [ 1 m`.
pub open spec fn seq_bold() -> Seq<char> {
    seq![esc(), '[', '1', 'm']
}

/// Opens italic: `ESC [ 3 m`.
pub open spec fn seq_italic() -> Seq<char> {
    seq![esc(), '[', '3', 'm']
}

/// Opens underline: `ESC [ 4 m`.
pub open spec fn seq_underline() -> Seq<char> {
    seq![esc(), '[', '4', 'm']
}

/// Opens inverse video: `ESC [ 7 m`.
pub open spec fn seq_reverse() -> Seq<char> {
    seq![esc(), '[', '7', 'm']
}

/// Opens strikethrough: `ESC [ 9 m`.
pub open spec fn seq_strikethrough() -> Seq<char> {
    seq![esc(), '[', '9', 'm']
}

/// Opens bold and underline together: `ESC [ 1 ; 4 m`.
pub open spec fn seq_bold_underline() -> Seq<char> {
    seq![esc(), '[', '1', ';', '4', 'm']
}

/// Opens bold and italic together: `ESC [ 1 ; 3 m`.
pub open spec fn seq_bold_italic() -> Seq<char> {
    seq![esc(), '[', '1', ';', '3', 'm']
}

/// Opens italic and underline together: `ESC [ 3 ; 4 m`.
pub open spec fn seq_italic_underline() -> Seq<char> {
    seq![esc(), '[', '3', ';', '4', 'm']
}

/// The code-span highlight: bold, background palette entry 238, white
/// foreground: `ESC [ 1 ; 48 ; 5 ; 238 ; 37 m`.
pub open spec fn seq_code() -> Seq<char> {
    seq![esc(), '[', '1', ';', '4', '8', ';', '5', ';', '2', '3', '8', ';', '3', '7', 'm']
}

/// Erases from the cursor to the end of the line: `ESC [ K`.
pub open spec fn seq_erase_eol() -> Seq<char> {
    seq![esc(), '[', 'K']
}

/// Relies on `ansi_term::Style::paint` with the bold attribute: the output
/// is the bold opener, the text, and the reset sequence.
#[verifier::external_body]
pub(crate) fn paint_bold(text: String) -> (r: String)
    ensures
        r@ == seq_bold() + text@ + seq_reset(),
{
    ansi_term::Style::new().bold().paint(text).to_string()
}

/// Relies on `ansi_term::Style::paint` with the italic attribute.
#[verifier::external_body]
pub(crate) fn paint_italic(text: String) -> (r: String)
    ensures
        r@ == seq_italic() + text@ + seq_reset(),
{
    ansi_term::Style::new().italic().paint(text).to_string()
}

/// Relies on `ansi_term::Style::paint` with the underline attribute.
#[verifier::external_body]
pub(crate) fn paint_underline(text: String) -> (r: String)
    ensures
        r@ == seq_underline() + text@ + seq_reset(),
{
    ansi_term::Style::new().underline().paint(text).to_string()
}

/// Relies on `ansi_term::Style::paint` with the strikethrough attribute.
#[verifier::external_body]
pub(crate) fn paint_strikethrough(text: String) -> (r: String)
    ensures
        r@ == seq_strikethrough() + text@ + seq_reset(),
{
    ansi_term::Style::new().strikethrough().paint(text).to_string()
}

/// Relies on `ansi_term::Style::paint` with the reverse attribute.
#[verifier::external_body]
pub(crate) fn paint_reverse(text: String) -> (r: String)
    ensures
        r@ == seq_reverse() + text@ + seq_reset(),
{
    ansi_term::Style::new().reverse().paint(text).to_string()
}

/// Relies on `ansi_term::Style::paint` with bold and underline set; the
/// crate writes bold before underline in one sequence.
#[verifier::external_body]
pub(crate) fn paint_bold_underline(text: String) -> (r: String)
    ensures
        r@ == seq_bold_underline() + text@ + seq_reset(),
{
    ansi_term::Style::new().bold().underline().paint(text).to_string()
}

/// Relies on `ansi_term::Style::paint` with bold and italic set.
#[verifier::external_body]
pub(crate) fn paint_bold_italic(text: String) -> (r: String)
    ensures
        r@ == seq_bold_italic() + text@ + seq_reset(),
{
    ansi_term::Style::new().bold().italic().paint(text).to_string()
}

/// Relies on `ansi_term::Style::paint` with italic and underline set.
#[verifier::external_body]
pub(crate) fn paint_italic_underline(text: String) -> (r: String)
    ensures
        r@ == seq_italic_underline() + text@ + seq_reset(),
{
    ansi_term::Style::new().italic().underline().paint(text).to_string()
}

/// Relies on `ansi_term::Style::paint` with bold, a fixed background colour
/// (palette entry 238) and a white foreground; the crate writes the
/// attribute, then the background, then the foreground.
#[verifier::external_body]
pub(crate) fn paint_code(text: String) -> (r: String)
    ensures
        r@ == seq_code() + text@ + seq_reset(),
{
    ansi_term::Style::new()
        .fg(ansi_term::Color::White)
        .bold()
        .on(ansi_term::Color::Fixed(238))
        .paint(text)
        .to_string()
}

/// Relies on `ansi_escapes::EraseEndLine`: its display form is the
/// erase-to-end-of-line sequence.
#[verifier::external_body]
pub(crate) fn erase_end_line() -> (r: String)
    ensures
        r@ == seq_erase_eol(),
{
    ansi_escapes::EraseEndLine.to_string()
}

/// The attribute pair a heading of the given level is wrapped in: level 1 is
/// bold and underlined, level 2 bold and italic, level 3 italic and
/// underlined, level 4 italic, and any other level underlined.
pub open spec fn heading_enter(level: u8) -> Seq<char> {
    if level == 1 {
        seq_bold_underline()
    } else if level == 2 {
        seq_bold_italic()
    } else if level == 3 {
        seq_italic_underline()
    } else if level == 4 {
        seq_italic()
    } else {
        seq_underline()
    }
}

/// Wraps heading text in the level's attribute pair.
pub(crate) fn paint_heading(level: u8, text: String) -> (r: String)
    ensures
        r@ == heading_enter(level) + text@ + seq_reset(),
{
    match level {
        1 => paint_bold_underline(text),
        2 => paint_bold_italic(text),
        3 => paint_italic_underline(text),
        4 => paint_italic(text),
        _ => paint_underline(text),
    }
}

} // verus!
