use why_do_you_bot::utils::locale::{Locale, LocaleFileMeta};

fn files(list: &[(&str, &str)]) -> Vec<(String, String)> {
    list.iter()
        .map(|(n, c)| (String::from(*n), String::from(*c)))
        .collect()
}

#[test]
fn parse_and_get_localized_text() {
    let locale = Locale::parse(&files(&[
        (
            "en.base.locale",
            "\"hello\" = \"Hello!\";\n\"bye\" = \"Bye!\";",
        ),
        ("ru.locale", "\"hello\" = \"privet\";\n\"bye\" = \"poka\";"),
    ]))
    .expect("locales must parse");
    assert_eq!(locale.get("hello", "ru"), "privet");
    assert_eq!(locale.get("hello", "en"), "Hello!");
    assert_eq!(locale.get("bye", "RU"), "poka");
}

#[test]
fn unknown_language_falls_back_to_the_base_locale() {
    let locale = Locale::parse(&files(&[
        ("en.base.locale", "\"hello\" = \"Hello!\";"),
        ("ru.locale", "\"hello\" = \"privet\";"),
    ]))
    .unwrap();
    assert_eq!(locale.get("hello", "de"), "Hello!");
}

#[test]
fn unknown_key_falls_back_to_the_key() {
    let locale = Locale::parse(&files(&[(
        "en.base.locale",
        "\"hello\" = \"Hello!\";",
    )]))
    .unwrap();
    assert_eq!(locale.get("other_key", "en"), "other_key");
}

#[test]
fn a_key_missing_from_the_base_locale_is_refused() {
    let err = Locale::parse(&files(&[
        ("en.base.locale", "\"hello\" = \"Hello!\";"),
        (
            "ru.locale",
            "\"hello\" = \"privet\";\n\"extra\" = \"bonus\";",
        ),
    ]))
    .unwrap_err();
    assert_eq!(err.message.as_deref(), Some("Locales has errors."));
}

#[test]
fn files_with_other_names_are_skipped() {
    let locale = Locale::parse(&files(&[
        ("readme.txt", "\"hello\" = \"nope\";"),
        ("en.base.locale", "\"hello\" = \"Hello!\";"),
    ]))
    .unwrap();
    assert_eq!(locale.get("hello", "en"), "Hello!");
}

#[test]
fn rows_that_do_not_fit_the_grammar_are_ignored() {
    let locale = Locale::parse(&files(&[(
        "en.base.locale",
        "// a comment line\n\"good\" = \"value\";\nbroken line\n\"\" = \"empty key\";",
    )]))
    .unwrap();
    assert_eq!(locale.get("good", "en"), "value");
    assert_eq!(locale.get("", "en"), "");
}

#[test]
fn later_rows_overwrite_earlier_ones() {
    let locale = Locale::parse(&files(&[(
        "en.base.locale",
        "\"k\" = \"first\";\n\"k\" = \"second\";",
    )]))
    .unwrap();
    assert_eq!(locale.get("k", "en"), "second");
}

#[test]
fn values_may_span_lines() {
    let locale = Locale::parse(&files(&[(
        "en.base.locale",
        "\"k\" = \"line one\nline two\";",
    )]))
    .unwrap();
    assert_eq!(locale.get("k", "en"), "line one\nline two");
}

#[test]
fn meta_title_marks_the_base_locale() {
    let base = LocaleFileMeta::from("en.base.locale", "\"a\" = \"b\";").unwrap();
    assert_eq!(base.title(), "EN*");
    let plain = LocaleFileMeta::from("ru.locale", "\"a\" = \"b\";").unwrap();
    assert_eq!(plain.title(), "RU");
    assert!(LocaleFileMeta::from("nope.json", "").is_none());
    assert!(LocaleFileMeta::from("a.b.c.locale", "").is_none());
}
