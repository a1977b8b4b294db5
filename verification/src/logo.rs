//! The banner that the program shows when it starts, drawn by `figlet_rs`.

use vstd::prelude::*;
use figlet_rs::FIGfont;

verus! {

/// `figlet_rs::FIGfont`, a FIGlet font: for each character that it knows, the
/// lines that draw it. Nothing of what a font holds is visible here.
#[verifier::external_type_specification]
#[verifier::external_body]
pub struct ExFIGfont(FIGfont);

/// `FIGfont::standard` reads the font that `figlet_rs` carries in its own
/// source and gives it back, or the reason why it could not be read.
/// Nothing is claimed of which of the two comes back.
#[verifier::external_body]
fn standard_font() -> (font: Result<FIGfont, String>) {
    FIGfont::standard()
}

/// `FIGfont::convert` picks the shape of each character of `message` that
/// the font knows, and the figure that it returns is written out line by
/// line. The one claim made here is the first thing that `convert` does: for
/// an empty message it returns nothing.
#[verifier::external_body]
fn draw(font: &FIGfont, message: &str) -> (art: Option<String>)
    ensures
        message@.len() == 0 ==> art is None,
{
    match font.convert(message) {
        Some(figure) => Some(figure.to_string()),
        None => None,
    }
}

/// The words of the program's banner.
pub fn logo_message() -> (message: String)
    ensures
        message@ == "winget UPDATE"@,
{
    "winget UPDATE".to_owned()
}

/// Draws `message` in large letters, in the standard FIGlet font. An empty
/// message is not drawn and needs no font: the result is nothing, and the
/// font is not read. For any other message the font is read, and the result
/// is what [`banner_with_font`] makes of the font and the message.
pub fn banner(message: &str) -> (art: Result<Option<String>, String>)
    ensures
        message@.len() == 0 ==> art == Ok::<Option<String>, String>(None),
{
    if message.is_empty() {
        return Ok(None);
    }
    banner_with_font(standard_font(), message)
}

/// Draws `message` in large letters, in the font that was read, if one was.
/// Where reading the font failed, the result is the reason of that failure,
/// unchanged. Where a font was read, the result is what the font draws:
/// nothing for an empty message, and nothing where the font has no shape for
/// any character of the message.
pub fn banner_with_font(font: Result<FIGfont, String>, message: &str) -> (art: Result<
    Option<String>,
    String,
>)
    ensures
        match font {
            Ok(_) => art is Ok && (message@.len() == 0 ==> art == Ok::<Option<String>, String>(
                None,
            )),
            Err(reason) => art == Err::<Option<String>, String>(reason),
        },
{
    match font {
        Ok(font) => Ok(draw(&font, message)),
        Err(reason) => Err(reason),
    }
}

} // verus!
