use lib::locale::{from_platform, Lang, BRAZILIAN_PORTUGUESE, PORTUGUESE};

#[test]
fn both_portuguese_settings_are_portuguese() {
    assert_eq!(from_platform(BRAZILIAN_PORTUGUESE), Lang::Pt, "Brazil, ELangBrazilianPortuguese");
    assert_eq!(from_platform(PORTUGUESE), Lang::Pt, "Portugal, ELangPortuguese");
}

#[test]
fn all_eight_englishes_are_english() {
    for code in [1, 10, 129, 157, 158, 159, 160, 161] {
        assert_eq!(from_platform(code), Lang::En, "TLanguage {code}");
    }
}

#[test]
fn a_language_nobody_translated_into_reads_as_english() {
    assert_eq!(from_platform(4), Lang::En, "Spanish");
    assert_eq!(from_platform(999), Lang::En, "a value this platform does not define");
}

#[test]
fn a_shim_that_cannot_answer_is_not_a_language() {
    for code in [-18, -1, -13, -76, i32::MIN] {
        assert_eq!(from_platform(code), Lang::En, "error code {code}");
    }
}
