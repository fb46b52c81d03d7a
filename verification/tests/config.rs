use bit_music::config::{
    Config, ControlType, DataType, DividerLimits, DividerState, Schema, SettingDef, SettingType,
    SettingValue, WindowState, ARRANGEMENT_HEIGHT_PERCENT, LANG, MAX_LAST_OPENED, PATH,
    TABS_WIDTH_PERCENT, WINDOW_HEIGHT, WINDOW_MAXIMIZED, WINDOW_WIDTH, WINDOW_X,
};
use bit_music::config::DataType::{Boolean, Integer};
use bit_music::config::SettingType::{System, User};
use bit_music::i18n::Lang;
use bit_music::model::KeyValue;

fn def(
    key: &str,
    setting_type: SettingType,
    data_type: DataType,
    control_type: Option<ControlType>,
    min: Option<i64>,
    max: Option<i64>,
    choices: Vec<SettingValue>,
    default: Option<SettingValue>,
) -> SettingDef {
    SettingDef {
        key: key.to_string(),
        setting_type,
        title: key.to_string(),
        description: String::new(),
        data_type,
        control_type,
        min,
        max,
        choices,
        default,
    }
}

fn text(s: &str) -> SettingValue {
    SettingValue::Text(s.to_string())
}

/// The settings the player's schema defines, in key order, with the
/// choices, limits and defaults its tests rely on.
fn schema() -> Schema {
    let defs = vec![
        def(ARRANGEMENT_HEIGHT_PERCENT, System, Integer, None, Some(50), Some(75), vec![], Some(SettingValue::Int(50))),
        def(
            LANG,
            User,
            DataType::String,
            Some(ControlType::Combo),
            None,
            None,
            vec![text("ENGLISH"), text("SPANISH")],
            Some(text("ENGLISH")),
        ),
        def(
            MAX_LAST_OPENED,
            User,
            Integer,
            Some(ControlType::Combo),
            None,
            None,
            vec![SettingValue::Int(5), SettingValue::Int(10), SettingValue::Int(15), SettingValue::Int(20)],
            Some(SettingValue::Int(10)),
        ),
        def(
            PATH,
            User,
            DataType::String,
            Some(ControlType::Input),
            None,
            None,
            vec![],
            Some(text("C:\\LocalFiles\\proyectos\\personal\\bit-music\\demos\\songs\\")),
        ),
        def(TABS_WIDTH_PERCENT, System, Integer, None, Some(30), Some(50), vec![], Some(SettingValue::Int(30))),
        def(WINDOW_HEIGHT, System, Integer, None, Some(200), None, vec![], Some(SettingValue::Int(720))),
        def(WINDOW_MAXIMIZED, System, Boolean, None, None, None, vec![], Some(SettingValue::Bool(true))),
        def(WINDOW_WIDTH, System, Integer, None, Some(200), None, vec![], Some(SettingValue::Int(1100))),
        def("windowX", System, Integer, None, None, None, vec![], None),
        def("windowY", System, Integer, None, None, None, vec![], None),
    ];
    Schema::new(defs).unwrap()
}

fn defaults(schema: &Schema) -> Config {
    Config::default().with_defaults(schema)
}

#[test]
fn the_schema_is_coherent() {
    let schema = schema();
    assert!(!schema.definitions().is_empty());
    for d in schema.definitions() {
        if let (Some(min), Some(max)) = (d.min, d.max) {
            assert!(min <= max);
        }
        if let Some(default) = &d.default {
            assert_eq!(d.coerce(default).as_ref(), Some(default));
        }
        if d.setting_type == SettingType::User {
            assert!(d.control_type.is_some() && !d.title.is_empty() && d.default.is_some());
        }
        if let Some(control) = d.control_type {
            assert_eq!(control == ControlType::Combo, !d.choices.is_empty());
        }
    }
}

#[test]
fn a_key_defined_twice_is_not_a_schema() {
    let twice = vec![
        def("a", SettingType::User, DataType::Boolean, None, None, None, vec![], None),
        def("a", SettingType::System, DataType::Boolean, None, None, None, vec![], None),
    ];
    assert!(Schema::new(twice).is_none());
}

#[test]
fn the_user_settings_are_language_history_size_and_folder() {
    let schema = schema();
    let user: Vec<&str> = schema.user_definitions().iter().map(|d| d.key.as_str()).collect();
    assert_eq!(user, [LANG, MAX_LAST_OPENED, PATH]);
}

#[test]
fn the_new_user_settings_have_their_documented_choices_and_defaults() {
    let schema = schema();
    let config = defaults(&schema);
    assert_eq!(config.language(&schema), Lang::English);
    assert_eq!(config.max_last_opened(&schema), 10);
    assert_eq!(
        config.files_path(&schema).as_deref(),
        Some("C:\\LocalFiles\\proyectos\\personal\\bit-music\\demos\\songs\\")
    );
    let mut c = defaults(&schema);
    c.set(MAX_LAST_OPENED, SettingValue::Int(7));
    c.set(LANG, text("KLINGON"));
    let c = c.with_defaults(&schema);
    assert_eq!(c.max_last_opened(&schema), 10);
    assert_eq!(c.language(&schema), Lang::English);
    let mut c = defaults(&schema);
    c.set(MAX_LAST_OPENED, SettingValue::Int(15));
    c.set(LANG, text("SPANISH"));
    let c = c.with_defaults(&schema);
    assert_eq!((c.max_last_opened(&schema), c.language(&schema)), (15, Lang::Spanish));
}

#[test]
fn entries_without_a_default_are_not_added() {
    let schema = schema();
    let config = defaults(&schema);
    assert_eq!(config.value(WINDOW_X, &schema), None);
    assert_eq!(config.window(&schema).position, None);
    assert_eq!(config.max_last_opened(&schema), 10);
}

#[test]
fn values_are_typed_and_text_from_older_files_is_accepted() {
    let schema = schema();
    let config = Config {
        settings: vec![
            bit_music::config::Setting { key: MAX_LAST_OPENED.to_string(), value: text("15") },
            bit_music::config::Setting { key: WINDOW_MAXIMIZED.to_string(), value: text("false") },
        ],
        last_opened: vec![],
    };
    let config = config.with_defaults(&schema);
    assert_eq!(config.value(MAX_LAST_OPENED, &schema), Some(SettingValue::Int(15)));
    assert_eq!(config.value(WINDOW_MAXIMIZED, &schema), Some(SettingValue::Bool(false)));
}

#[test]
fn text_is_trimmed_before_it_is_read_as_a_number_or_a_truth_value() {
    let schema = schema();
    let config = Config {
        settings: vec![
            bit_music::config::Setting { key: MAX_LAST_OPENED.to_string(), value: text(" 20\n") },
            bit_music::config::Setting { key: WINDOW_MAXIMIZED.to_string(), value: text("\ttrue ") },
            bit_music::config::Setting { key: TABS_WIDTH_PERCENT.to_string(), value: text("+45") },
            bit_music::config::Setting { key: WINDOW_WIDTH.to_string(), value: text("1e3") },
            bit_music::config::Setting { key: WINDOW_HEIGHT.to_string(), value: text("99999999999999999999") },
        ],
        last_opened: vec![],
    };
    let config = config.with_defaults(&schema);
    assert_eq!(config.integer(MAX_LAST_OPENED, &schema), Some(20));
    assert_eq!(config.flag(WINDOW_MAXIMIZED, &schema), Some(true));
    assert_eq!(config.integer(TABS_WIDTH_PERCENT, &schema), Some(45));
    assert_eq!(config.integer(WINDOW_WIDTH, &schema), Some(1100));
    assert_eq!(config.integer(WINDOW_HEIGHT, &schema), Some(720));
}

#[test]
fn the_window_opens_maximized_by_default_and_round_trips() {
    let schema = schema();
    let mut config = defaults(&schema);
    let w = config.window(&schema);
    assert!(w.maximized);
    assert_eq!((w.width, w.height, w.position), (1100, 720, None));

    let restored = WindowState { maximized: false, position: Some((-20, 40)), width: 900, height: 600 };
    config.set_window(&restored);
    assert_eq!(config.window(&schema), restored);
    let again = Config { settings: config.settings.clone(), last_opened: vec![] };
    assert_eq!(again.with_defaults(&schema).window(&schema), restored);
    config.set(WINDOW_WIDTH, SettingValue::Int(10));
    assert_eq!(config.with_defaults(&schema).window(&schema).width, 1100);
}

#[test]
fn dividers_default_and_are_limited_by_their_schema_entries() {
    let schema = schema();
    let mut config = defaults(&schema);
    assert_eq!(
        config.dividers(&schema),
        DividerState { tabs_width_percent: 30, arrangement_height_percent: 50 }
    );
    let limits = DividerLimits::defaults(&schema);
    assert_eq!(limits.tabs_width, (30, 50));
    assert_eq!(limits.arrangement_height, (50, 75));

    let moved = DividerState { tabs_width_percent: 45, arrangement_height_percent: 62 };
    config.set_dividers(&moved);
    let again = Config { settings: config.settings.clone(), last_opened: vec![] };
    assert_eq!(again.with_defaults(&schema).dividers(&schema), moved);
    config.set(TABS_WIDTH_PERCENT, SettingValue::Int(60));
    config.set(ARRANGEMENT_HEIGHT_PERCENT, SettingValue::Int(20));
    assert_eq!(config.with_defaults(&schema).dividers(&schema), DividerState::defaults(&schema));
}

#[test]
fn invalid_settings_fall_back_to_their_default_and_unknown_ones_are_kept() {
    let schema = schema();
    let config = Config {
        settings: vec![
            bit_music::config::Setting { key: MAX_LAST_OPENED.to_string(), value: text("zero") },
            bit_music::config::Setting { key: "other".to_string(), value: text("x") },
        ],
        last_opened: vec![],
    };
    let config = config.with_defaults(&schema);
    assert_eq!(config.integer(MAX_LAST_OPENED, &schema), Some(10));
    assert_eq!(config.value("other", &schema), Some(text("x")));
}

#[test]
fn an_invalid_setting_without_a_default_is_dropped() {
    let schema = schema();
    let config = Config {
        settings: vec![bit_music::config::Setting { key: WINDOW_X.to_string(), value: text("left") }],
        last_opened: vec![],
    };
    let config = config.with_defaults(&schema);
    assert_eq!(config.value(WINDOW_X, &schema), None);
    assert!(config.settings.iter().all(|s| s.key != WINDOW_X));
}

#[test]
fn normalizing_twice_changes_nothing_more() {
    let schema = schema();
    let config = Config {
        settings: vec![
            bit_music::config::Setting { key: MAX_LAST_OPENED.to_string(), value: text("15") },
            bit_music::config::Setting { key: "other".to_string(), value: SettingValue::Other("[1,2]".to_string()) },
            bit_music::config::Setting { key: LANG.to_string(), value: SettingValue::Int(3) },
        ],
        last_opened: vec![],
    };
    let once = config.with_defaults(&schema);
    let copy = Config { settings: once.settings.clone(), last_opened: vec![] };
    let twice = copy.with_defaults(&schema);
    assert!(once.same_as(&twice));
    assert_eq!(once.settings, twice.settings);
}

#[test]
fn history_is_newest_first_up_to_the_limit_without_duplicates() {
    let schema = schema();
    let mut config = defaults(&schema);
    config.set(MAX_LAST_OPENED, SettingValue::Int(3));
    for p in ["a", "b", "c", "a", "d"] {
        config.record_opened(p, &schema);
    }
    let keys: Vec<&str> = config.last_opened.iter().map(|e| e.key.as_str()).collect();
    assert_eq!(keys, ["d", "a", "c"]);
    assert!(config.last_opened.iter().all(|e| e.key == e.value));
}

#[test]
fn settings_dialog_results_are_adopted_and_reset_all_restores_defaults() {
    let schema = schema();
    let mut config = defaults(&schema);
    for p in ["a", "b", "c"] {
        config.record_opened(p, &schema);
    }
    let mut edited = Config {
        settings: config.settings.clone(),
        last_opened: config
            .last_opened
            .iter()
            .map(|e| KeyValue { key: e.key.clone(), value: e.value.clone() })
            .collect(),
    };
    edited.set(MAX_LAST_OPENED, SettingValue::Int(2));
    config.adopt_user_settings(&edited, &schema);
    assert_eq!(config.max_last_opened(&schema), 2);
    assert_eq!(config.last_opened.len(), 2);

    edited.reset_user_settings(&schema);
    assert_eq!(edited.max_last_opened(&schema), 10);
    let mut moved = defaults(&schema);
    moved.set(TABS_WIDTH_PERCENT, SettingValue::Int(45));
    moved.reset_user_settings(&schema);
    assert_eq!(moved.integer(TABS_WIDTH_PERCENT, &schema), Some(45));
}

#[test]
fn a_blank_folder_is_no_folder() {
    let schema = schema();
    let mut config = defaults(&schema);
    config.set(PATH, text("  "));
    assert_eq!(config.files_path(&schema), None);
    config.set(PATH, text("/songs"));
    assert_eq!(config.files_path(&schema).as_deref(), Some("/songs"));
}

#[test]
fn setting_a_value_and_removing_it() {
    let schema = schema();
    let mut config = defaults(&schema);
    config.set("windowY", SettingValue::Int(5));
    assert_eq!(config.integer("windowY", &schema), Some(5));
    config.remove("windowY");
    assert_eq!(config.integer("windowY", &schema), None);
    let w = WindowState { maximized: true, position: None, width: 800, height: 500 };
    config.set_window(&w);
    assert_eq!(config.window(&schema), w);
}

#[test]
fn configs_compare_by_their_settings_and_history() {
    let schema = schema();
    let a = defaults(&schema);
    let mut b = defaults(&schema);
    assert!(a.same_as(&b));
    b.record_opened("x", &schema);
    assert!(!a.same_as(&b));
}
