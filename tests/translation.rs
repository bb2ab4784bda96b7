use unpacking::translation::detect_language;

#[test]
fn lang_valid() {
    let result = detect_language("en-US,en;q=0.9,de;q=0.8,hr;q=0.7");
    assert_eq!(&result, "en");
}

#[test]
fn lang_non_default() {
    let result = detect_language("pt");
    assert_eq!(&result, "pt");

    let result = detect_language("pt-BR");
    assert_eq!(&result, "pt");
}

#[test]
fn lang_not_supported() {
    let result = detect_language("hr;q=0.7");
    assert_eq!(&result, "en");
}

#[test]
fn lang_invalid() {
    let result = detect_language("this is wrong");
    assert_eq!(&result, "en");
}

#[test]
fn lang_preference_order_wins() {
    assert_eq!(detect_language("de, pt-PT;q=0.9, en;q=0.8"), "pt");
    assert_eq!(detect_language(""), "en");
}

#[test]
fn lang_with_a_quality_that_is_not_a_number() {
    assert_eq!(detect_language("pt;q=NaN, en;q=0.5"), "en");
    assert_eq!(detect_language("pt;q=0.5, hr;q=nan"), "en");
}
