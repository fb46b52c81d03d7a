use bit_music::selection::{parse_selection, ListTab, Selection};

#[test]
fn parses_selection_requests() {
    assert_eq!(
        parse_selection("pattern:saxA"),
        Some((Selection::Pattern("saxA".into()), ListTab::Patterns))
    );
    assert_eq!(
        parse_selection("sample:kick"),
        Some((Selection::Sample("kick".into()), ListTab::Samples))
    );
    assert_eq!(parse_selection("tab:patterns"), Some((Selection::Nothing, ListTab::Patterns)));
    assert_eq!(parse_selection("tab:nope"), None);
    assert_eq!(parse_selection("nonsense"), None);
    assert_eq!(parse_selection("track:a"), None);
}

#[test]
fn the_text_is_split_at_its_first_colon() {
    assert_eq!(
        parse_selection("sample:a:b"),
        Some((Selection::Sample("a:b".into()), ListTab::Samples))
    );
    assert_eq!(parse_selection("sample:"), Some((Selection::Sample(String::new()), ListTab::Samples)));
    assert_eq!(parse_selection("tab:metadata"), Some((Selection::Nothing, ListTab::Metadata)));
    assert_eq!(parse_selection("tab:samples"), Some((Selection::Nothing, ListTab::Samples)));
    assert_eq!(parse_selection(":sample"), None);
    assert_eq!(parse_selection(""), None);
}

#[test]
fn nothing_is_selected_and_the_metadata_tab_is_open_by_default() {
    assert_eq!(Selection::default(), Selection::Nothing);
    assert_eq!(ListTab::default(), ListTab::Metadata);
}

#[test]
fn each_tab_has_its_own_selection() {
    let mut view = bit_music::selection::ListSelection::new();
    assert!(view.selected_sample.is_none() && view.selected_pattern.is_none());
    view.select(Selection::Sample("kick".into()));
    assert_eq!(view.tab, ListTab::Samples);
    view.select(Selection::Pattern("saxA".into()));
    assert_eq!(view.tab, ListTab::Patterns);
    assert_eq!(view.selected_sample.as_deref(), Some("kick"));
    assert_eq!(view.selected_pattern.as_deref(), Some("saxA"));
    view.select(Selection::Nothing);
    assert!(view.selected_sample.is_none() && view.selected_pattern.is_none());
    assert_eq!(view.tab, ListTab::Patterns);
}
