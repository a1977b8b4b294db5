//! What the program says of the console and to it: the check of the code
//! page, and the tags in front of its status lines.

use vstd::prelude::*;
use crate::update::UpdateOutcome;

verus! {

/// The code page in which a Windows console writes UTF-8.
pub const UTF8_CODE_PAGE: u32 = 65001;

/// Tells whether a console with this output code page writes UTF-8. With
/// any other code page the names of some packages come out garbled, and the
/// program says so before it begins.
pub fn is_utf8_code_page(code_page: u32) -> (utf8: bool)
    ensures
        utf8 == (code_page == UTF8_CODE_PAGE),
{
    code_page == UTF8_CODE_PAGE
}

/// The tag in front of the line that reports an outcome.
pub open spec fn tag_of(outcome: UpdateOutcome) -> Seq<char> {
    match outcome {
        UpdateOutcome::Updated => "[SUCCESS]"@,
        UpdateOutcome::Skipped => "[SKIPPED]"@,
        UpdateOutcome::Failed => "[ERROR]"@,
    }
}

/// The tag in front of the line that reports `outcome`.
pub fn outcome_tag(outcome: UpdateOutcome) -> (tag: &'static str)
    ensures
        tag@ == tag_of(outcome),
{
    match outcome {
        UpdateOutcome::Updated => "[SUCCESS]",
        UpdateOutcome::Skipped => "[SKIPPED]",
        UpdateOutcome::Failed => "[ERROR]",
    }
}

/// The tag in front of the line that announces an update command.
pub fn updating_tag() -> (tag: &'static str)
    ensures
        tag@ == "[UPDATING]"@,
{
    "[UPDATING]"
}

} // verus!
