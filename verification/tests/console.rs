use winget_update::console::{is_utf8_code_page, outcome_tag, updating_tag, UTF8_CODE_PAGE};
use figlet_rs::FIGfont;
use winget_update::logo::{banner, banner_with_font, logo_message};
use winget_update::update::UpdateOutcome;

#[test]
fn code_page_65001_is_utf8() {
    assert_eq!(UTF8_CODE_PAGE, 65001);
    assert!(is_utf8_code_page(65001));
    assert!(!is_utf8_code_page(437));
    assert!(!is_utf8_code_page(850));
    assert!(!is_utf8_code_page(0));
}

#[test]
fn each_outcome_has_its_tag() {
    assert_eq!(outcome_tag(UpdateOutcome::Updated), "[SUCCESS]");
    assert_eq!(outcome_tag(UpdateOutcome::Skipped), "[SKIPPED]");
    assert_eq!(outcome_tag(UpdateOutcome::Failed), "[ERROR]");
    assert_eq!(updating_tag(), "[UPDATING]");
}

#[test]
fn logo_says_winget_update() {
    assert_eq!(logo_message(), "winget UPDATE");
}

#[test]
fn banner_draws_the_logo_in_six_lines() {
    let art = banner(&logo_message()).expect("the standard font is read").expect("the logo is drawn");
    assert_ne!(art, logo_message());
    assert_eq!(art.lines().count(), 6);
    assert!(art.ends_with('\n'));
    let width = art.lines().next().map(|l| l.chars().count());
    assert!(art.lines().all(|l| Some(l.chars().count()) == width));
    assert!(art.contains("_"));
}

#[test]
fn banner_draws_the_letters_of_the_font() {
    let art = banner("F").expect("the standard font is read").expect("the letter is drawn");
    assert_eq!(art, "  _____ \n |  ___|\n | |_   \n |  _|  \n |_|    \n        \n");
}

#[test]
fn banner_of_nothing_is_nothing() {
    assert_eq!(banner(""), Ok(None));
}

#[test]
fn banner_of_unknown_characters_is_nothing() {
    assert_eq!(banner("\u{4e2d}\u{6587}"), Ok(None));
}

#[test]
fn banner_without_a_font_is_the_reason_why() {
    let reason = "the font is missing".to_string();
    assert_eq!(banner_with_font(Err(reason.clone()), "F"), Err(reason.clone()));
    assert_eq!(banner_with_font(Err(reason.clone()), ""), Err(reason));
}

#[test]
fn banner_with_the_standard_font_is_the_banner() {
    assert_eq!(banner_with_font(FIGfont::standard(), "F"), banner("F"));
    assert_eq!(banner_with_font(FIGfont::standard(), &logo_message()), banner(&logo_message()));
    assert!(matches!(banner_with_font(FIGfont::standard(), "F"), Ok(Some(_))));
}

#[test]
fn banner_with_a_font_draws_nothing_for_an_empty_message() {
    assert_eq!(banner_with_font(FIGfont::standard(), ""), Ok(None));
}
