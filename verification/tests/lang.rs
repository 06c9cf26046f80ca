use aurora_core::lang::detect;

fn d(name: &str) -> Option<String> {
    detect(name, None, None)
}

#[test]
fn a_reported_language_wins_over_everything() {
    assert_eq!(
        detect("FR | TF1", None, Some("English")).as_deref(),
        Some("en")
    );
    assert_eq!(detect("TF1", None, Some("fra")).as_deref(), Some("fr"));
    assert_eq!(detect("TF1", None, Some("fr-FR")).as_deref(), Some("fr"));
}

#[test]
fn a_prefix_names_the_language() {
    assert_eq!(d("FR | TF1 HD").as_deref(), Some("fr"));
    assert_eq!(d("[DE] RTL").as_deref(), Some("de"));
    assert_eq!(d("US: CNN").as_deref(), Some("en"));
    assert_eq!(d("UK - Sky Sports").as_deref(), Some("en"));
    assert_eq!(d("AR| MBC 1").as_deref(), Some("ar"));
}

#[test]
fn a_bracketed_tag_anywhere_counts() {
    assert_eq!(d("Le Fabuleux Destin (FRENCH)").as_deref(), Some("fr"));
    assert_eq!(d("Parasite [KOREAN] 1080p").as_deref(), Some("ko"));
    assert_eq!(d("Das Boot | GERMAN |").as_deref(), Some("de"));
}

#[test]
fn a_script_settles_it_whatever_the_tags_say() {
    assert_eq!(d("قناة الجزيرة").as_deref(), Some("ar"));
    assert_eq!(d("Первый канал").as_deref(), Some("ru"));
    assert_eq!(d("ΕΡΤ1").as_deref(), Some("el"));
    assert_eq!(d("NHK 総合").as_deref(), Some("zh"));
    assert_eq!(d("KBS 한국방송").as_deref(), Some("ko"));
}

#[test]
fn a_group_answers_when_the_name_does_not() {
    assert_eq!(
        detect("MBC 1", Some("ARABIC | ENTERTAINMENT"), None).as_deref(),
        Some("ar")
    );
    assert_eq!(
        detect("Canal+", Some("VOD - Français"), None).as_deref(),
        Some("fr")
    );
    assert_eq!(detect("Rai 1", Some("Italia"), None).as_deref(), Some("it"));
}

#[test]
fn a_name_that_says_nothing_stays_unknown() {
    // The whole filter depends on this: guessing here empties a library.
    assert_eq!(d("CNN"), None);
    assert_eq!(d("Sky Sports Main Event"), None);
    assert_eq!(d("Discovery Channel HD"), None);
    assert_eq!(d("The Matrix (1999) 1080p"), None);
}

#[test]
fn quality_and_service_tags_in_prefix_position_are_not_languages() {
    // "VIP| CNN" and "4K - Sky" are extremely common, and neither names a language.
    assert_eq!(d("VIP| CNN"), None);
    assert_eq!(d("HD | Discovery"), None);
    assert_eq!(d("4K - Sky Atlantic"), None);
    assert_eq!(d("24/7 | The Office"), None);
    assert_eq!(d("PPV: Boxing Night"), None);
}

#[test]
fn an_english_word_inside_a_title_is_not_a_tag() {
    // The trap: these are English-language films with a language word in the title.
    assert_eq!(d("The German Doctor"), None);
    assert_eq!(d("The French Connection (1971)"), None);
    assert_eq!(d("Spanish Affair"), None);
    assert_eq!(d("Polish Wedding"), None);
}

#[test]
fn ambiguous_two_letter_codes_follow_playlist_convention() {
    // AR is Arabic in a playlist; Argentina writes itself out.
    assert_eq!(d("AR | Al Arabiya").as_deref(), Some("ar"));
    assert_eq!(d("ARG | TyC Sports").as_deref(), Some("es"));
    // UK is the United Kingdom, not Ukrainian.
    assert_eq!(d("UK| BBC One").as_deref(), Some("en"));
    assert_eq!(d("UKR | 1+1").as_deref(), Some("uk"));
}

#[test]
fn diacritics_and_case_do_not_matter() {
    assert_eq!(d("[ESPAÑOL] Antena 3").as_deref(), Some("es"));
    assert_eq!(d("(português) Globo").as_deref(), Some("pt"));
    assert_eq!(d("[TÜRKÇE] TRT 1").as_deref(), Some("tr"));
}

#[test]
fn an_empty_or_punctuation_name_is_not_a_crash() {
    assert_eq!(d(""), None);
    assert_eq!(d("---"), None);
    assert_eq!(detect("", Some(""), Some("")), None);
}

/// A slice of playlist shaped like the real thing, so a change to one token cannot
/// quietly move a dozen others.
#[test]
fn a_realistic_playlist_lands_where_it_should() {
    let cases: &[(&str, Option<&str>, Option<&str>)] = &[
        ("UK| BBC One HD", Some("UK | ENTERTAINMENT"), Some("en")),
        ("US| ESPN 1", Some("USA | SPORTS"), Some("en")),
        ("CA| TSN 1 FHD", Some("CANADA"), Some("en")),
        ("IE | RTE One", None, Some("en")),
        ("FR| TF1 4K", Some("FRANCE | TNT"), Some("fr")),
        ("DE| Sky Sport 1", Some("DEUTSCHLAND"), Some("de")),
        ("ES| Movistar LaLiga", Some("ESPANA"), Some("es")),
        ("IT| Rai 1 HD", Some("ITALIA"), Some("it")),
        ("PT| SIC Noticias", Some("PORTUGAL"), Some("pt")),
        ("NL| NPO 1", None, Some("nl")),
        ("PL| TVP 1", Some("POLSKA"), Some("pl")),
        ("RO| Digi Sport 1", None, Some("ro")),
        ("TR| beIN Sports 1", Some("TURKIYE"), Some("tr")),
        ("AR| MBC Masr", Some("ARABIC"), Some("ar")),
        ("قناة أبوظبي الرياضية", None, Some("ar")),
        ("RU| Матч ТВ", None, Some("ru")),
        ("IN| Star Plus", Some("INDIA | HINDI"), Some("hi")),
        ("PK| Geo News", None, Some("ur")),
        ("Netflix | The Crown S04", Some("VOD | SERIES"), None),
        ("Sky Cinema Premiere HD", Some("MOVIES"), None),
        ("24/7 | Friends", Some("24/7 CHANNELS"), None),
        ("VIP | PPV 01", Some("PPV EVENTS"), None),
        ("The Matrix (1999) 1080p", Some("VOD | ACTION"), None),
        (
            "Le Fabuleux Destin d Amelie Poulain (FRENCH) 1080p",
            None,
            Some("fr"),
        ),
    ];
    let mut wrong = Vec::new();
    for (name, group, want) in cases {
        let got = detect(name, *group, None);
        if got.as_deref() != *want {
            wrong.push(format!("{name:?} -> {got:?}, wanted {want:?}"));
        }
    }
    assert!(wrong.is_empty(), "{}", wrong.join("\n"));
}

#[test]
fn a_latin_name_with_one_foreign_character_stays_latin() {
    // One stray glyph should not outvote the rest of the name.
    assert_eq!(d("Canal+ Sport ★"), None);
    assert_eq!(detect("MBC مصر", None, None).as_deref(), Some("ar"));
}
