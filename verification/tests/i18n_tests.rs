use engine::i18n::{
    get_locales, localize, set_fallback_locale, set_locales, Country, Language, Locale,
    Localizable, Localized, Settings,
};

#[test]
fn language_codes_parse_case_insensitively() {
    assert_eq!(Language::from_str("en"), Some(Language::En));
    assert_eq!(Language::from_str("En"), Some(Language::En));
    assert_eq!(Language::from_str("EN"), Some(Language::En));
    assert_eq!(Language::from_str("fr"), Some(Language::Fr));
    assert_eq!(Language::from_str("it"), Some(Language::It));
    assert_eq!(Language::from_str("de"), Some(Language::De));
    assert_eq!(Language::from_str("xx"), None);
    assert_eq!(Language::from_str("eng"), None);
    assert_eq!(Language::from_str(""), None);
}

#[test]
fn country_codes_parse_case_insensitively() {
    assert_eq!(Country::from_str("ch"), Some(Country::Ch));
    assert_eq!(Country::from_str("DE"), Some(Country::De));
    assert_eq!(Country::from_str("gb"), Some(Country::Gb));
    assert_eq!(Country::from_str("Us"), Some(Country::Us));
    assert_eq!(Country::from_str("zz"), None);
}

#[test]
fn locale_parses_language_alone() {
    assert_eq!(Locale::from_str("en"), Some(Locale(Language::En, None)));
    assert_eq!(Locale::from_str("qq"), None);
}

#[test]
fn locale_parses_hyphen_and_underscore_forms() {
    assert_eq!(
        Locale::from_str("en-GB"),
        Some(Locale(Language::En, Some(Country::Gb)))
    );
    assert_eq!(
        Locale::from_str("de_CH"),
        Some(Locale(Language::De, Some(Country::Ch)))
    );
    assert_eq!(
        Locale::from_str("fr-us"),
        Some(Locale(Language::Fr, Some(Country::Us)))
    );
}

#[test]
fn locale_rejects_half_parses() {
    // Both parts must parse once a separator is present.
    assert_eq!(Locale::from_str("en-XX"), None);
    assert_eq!(Locale::from_str("xx-GB"), None);
    assert_eq!(Locale::from_str("en-"), None);
    assert_eq!(Locale::from_str("-GB"), None);
}

#[test]
fn language_name_round_trips() {
    for l in [Language::En, Language::Fr, Language::It, Language::De] {
        let name = l.to_string();
        assert_eq!(Language::from_str(&name), Some(l));
    }
}

#[test]
fn settings_fallback_and_locale_list() {
    let mut settings = Settings::default();
    assert_eq!(settings.fallback_locale, Locale(Language::En, None));
    set_fallback_locale(&mut settings, Locale(Language::De, Some(Country::Ch)));
    set_locales(
        &mut settings,
        &[Locale(Language::Fr, None), Locale(Language::It, None)],
    );
    let locales = get_locales(&settings);
    // The configured list comes first, the fallback last.
    assert_eq!(
        locales,
        vec![
            Locale(Language::Fr, None),
            Locale(Language::It, None),
            Locale(Language::De, Some(Country::Ch)),
        ]
    );
}

#[test]
fn plain_text_localizes_to_itself() {
    let settings = Settings::default();
    let resolved = localize(String::from("hello"), &settings);
    assert_eq!(resolved.text().as_str(), "hello");
    let direct = Localized::from_string(String::from("salut"));
    assert_eq!(direct.text().as_str(), "salut");
    let with = String::from("ciao").localize_with(&[Locale(Language::It, None)]);
    assert_eq!(with.text().as_str(), "ciao");
}
