use bit_music::i18n::{replace, Lang, Texts};

const ENGLISH: &str = r#"{ "menu.file": "File", "status.samples": "{ok}/{total} samples", "only.english": "Only here" }"#;
const SPANISH: &str = r#"{ "menu.file": "Archivo", "status.samples": "{ok}/{total} samples" }"#;

fn texts() -> Texts {
    Texts::from_json(ENGLISH, SPANISH).expect("the tables are valid JSON")
}

#[test]
fn the_language_switches_and_falls_back_to_english_then_to_the_key() {
    let mut texts = texts();
    texts.set_language(Lang::English);
    assert_eq!(texts.t("menu.file"), "File");
    texts.set_language(Lang::Spanish);
    assert_eq!(texts.t("menu.file"), "Archivo");
    assert_eq!(texts.tf("status.samples", &[("ok", "3"), ("total", "5")]), "3/5 samples");
    assert_eq!(texts.t("no.such.key"), "no.such.key");
    assert_eq!(texts.t("only.english"), "Only here");
    texts.set_language(Lang::English);
}

#[test]
fn settings_values_map_to_languages() {
    assert_eq!(Lang::from_setting("SPANISH"), Lang::Spanish);
    assert_eq!(Lang::from_setting("ENGLISH"), Lang::English);
    assert_eq!(Lang::from_setting("KLINGON"), Lang::English);
    assert_eq!(Lang::Spanish.setting_value(), "SPANISH");
}

#[test]
fn tables_that_are_not_json_objects_of_strings_are_refused() {
    assert!(Texts::from_json("{ nope", SPANISH).is_none());
    assert!(Texts::from_json(ENGLISH, r#"{ "a": 1 }"#).is_none());
    assert_eq!(texts().language(), Lang::English);
    assert_eq!(texts().lookup("menu.file").as_deref(), Some("File"));
    assert_eq!(texts().lookup("nope"), None);
}

#[test]
fn replacing_goes_left_to_right_without_rereading() {
    assert_eq!(replace("{a} and {a}", "{a}", "x"), "x and x");
    assert_eq!(replace("aaa", "aa", "b"), "ba");
    assert_eq!(replace("{a}", "{a}", "{a}{a}"), "{a}{a}");
    assert_eq!(replace("short", "longer pattern", "x"), "short");
}
