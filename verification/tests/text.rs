use sprite_reload::decimal::u64_to_decimal;
use sprite_reload::ui::InfoText;

#[test]
fn decimal_rendering_is_exact() {
    assert_eq!(u64_to_decimal(0), "0");
    assert_eq!(u64_to_decimal(7), "7");
    assert_eq!(u64_to_decimal(10), "10");
    assert_eq!(u64_to_decimal(42), "42");
    assert_eq!(u64_to_decimal(1000), "1000");
    assert_eq!(u64_to_decimal(u64::MAX), "18446744073709551615");
}

#[test]
fn info_text_starts_with_labels_and_empty_values() {
    let text = InfoText::new();
    let joined: String = text.sections.concat();
    assert_eq!(joined, "Entity: \nTexture: \nTexture Load Status: ");
}

#[test]
fn set_section_rewrites_only_its_section() {
    let mut text = InfoText::new();
    text.set_section(1, String::from("7"));
    assert_eq!(text.sections[0], "Entity: ");
    assert_eq!(text.sections[1], "7");
    assert_eq!(text.sections[3], "");
    assert_eq!(text.sections[5], "");
}
