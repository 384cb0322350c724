use erdueltools::i18n::Lang;

const ALL: [Lang; 5] = [Lang::Zh, Lang::En, Lang::Ko, Lang::Ja, Lang::Fr];

#[test]
fn languages_have_codes() {
    let codes: Vec<&str> = ALL.iter().map(|lang| lang.code()).collect();
    assert_eq!(codes, vec!["zh", "en", "ko", "ja", "fr"]);
    for lang in ALL {
        assert_eq!(Lang::from_code(lang.code()), Some(lang));
    }
    assert_eq!(Lang::from_code("xx"), None);
}

#[test]
fn languages_come_in_turn() {
    let mut lang = Lang::Zh;
    for expected in [Lang::En, Lang::Ko, Lang::Ja, Lang::Fr, Lang::Zh] {
        lang = lang.next();
        assert_eq!(lang, expected);
    }
}
