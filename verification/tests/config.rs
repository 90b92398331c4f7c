use leveldbcat::config::{
    AppLanguage, adjusted_json_indent_spaces, language_for_locale, max_json_indent_spaces,
    min_json_indent_spaces, monospace_font_names, sanitized_json_indent_spaces,
};

#[test]
fn json_indent_bounds() {
    assert_eq!(min_json_indent_spaces(), 1);
    assert_eq!(max_json_indent_spaces(), 8);
}

#[test]
fn sanitizes_json_indent() {
    assert_eq!(sanitized_json_indent_spaces(0), 1);
    assert_eq!(sanitized_json_indent_spaces(2), 2);
    assert_eq!(sanitized_json_indent_spaces(200), 8);
}

#[test]
fn steps_json_indent_within_bounds() {
    assert_eq!(adjusted_json_indent_spaces(2, 1), 3);
    assert_eq!(adjusted_json_indent_spaces(1, -1), 1);
    assert_eq!(adjusted_json_indent_spaces(8, 1), 8);
    assert_eq!(adjusted_json_indent_spaces(255, 127), 8);
    assert_eq!(adjusted_json_indent_spaces(0, -128), 1);
}

#[test]
fn language_from_locale() {
    assert_eq!(language_for_locale(None), AppLanguage::English);
    assert_eq!(language_for_locale(Some("en-US")), AppLanguage::English);
    assert_eq!(language_for_locale(Some("ja_JP")), AppLanguage::Japanese);
    assert_eq!(language_for_locale(Some("JA")), AppLanguage::Japanese);
    assert_eq!(language_for_locale(Some("zh-CN")), AppLanguage::Chinese);
    assert_eq!(language_for_locale(Some("zh_TW")), AppLanguage::TraditionalChinese);
    assert_eq!(language_for_locale(Some("zh-Hant")), AppLanguage::TraditionalChinese);
    assert_eq!(language_for_locale(Some("zh-HK")), AppLanguage::TraditionalChinese);
    assert_eq!(language_for_locale(Some("zh-MO")), AppLanguage::TraditionalChinese);
    assert_eq!(language_for_locale(Some("zh-Hans-SG")), AppLanguage::Chinese);
    assert_eq!(language_for_locale(Some("fr-JA")), AppLanguage::English);
}

#[test]
fn orders_and_dedups_font_names() {
    let families = vec![
        "Noto Mono".to_string(),
        "courier".to_string(),
        "DejaVu Sans Mono".to_string(),
        "Courier".to_string(),
        "noto mono".to_string(),
        "Ábc".to_string(),
    ];
    assert_eq!(
        monospace_font_names(families),
        vec![
            "courier".to_string(),
            "DejaVu Sans Mono".to_string(),
            "Noto Mono".to_string(),
            "Ábc".to_string(),
        ]
    );
    assert_eq!(monospace_font_names(Vec::new()), Vec::<String>::new());
}

#[test]
fn indent_step_is_undone_by_opposite_step() {
    for current in 1..=8u8 {
        for delta in -7i8..=7 {
            let next = adjusted_json_indent_spaces(current, delta);
            if (1..=8).contains(&(current as i16 + delta as i16)) {
                assert_eq!(adjusted_json_indent_spaces(next, -delta), current);
            }
        }
    }
}

#[test]
fn font_names_are_unique_ignoring_case_and_cover_the_input() {
    let families = vec![
        "Mono B".to_string(),
        "mono a".to_string(),
        "MONO B".to_string(),
        "Mono A".to_string(),
        "Zed".to_string(),
    ];
    let names = monospace_font_names(families.clone());
    assert_eq!(names, vec!["mono a".to_string(), "Mono B".to_string(), "Zed".to_string()]);
    for pair in names.windows(2) {
        assert!(pair[0].to_ascii_lowercase() < pair[1].to_ascii_lowercase());
    }
    for name in &names {
        assert!(families.contains(name));
    }
    for family in &families {
        assert!(names.iter().any(|name| name.eq_ignore_ascii_case(family)));
    }
}
