use bit_music::error_log::ErrorLog;

#[test]
fn it_is_a_stack_newest_first() {
    let mut log = ErrorLog::default();
    assert!(log.is_empty() && log.latest().is_none());
    log.push("first".to_string());
    log.push("second".to_string());
    log.push("third".to_string());
    let texts: Vec<&str> = log.entries().iter().map(|e| e.text.as_str()).collect();
    assert_eq!(texts, ["third", "second", "first"]);
    assert_eq!(log.latest().unwrap().text, "third");
    assert_eq!(log.len(), 3);
}

#[test]
fn a_repeat_of_the_latest_is_not_added_but_an_older_one_can_come_back() {
    let mut log = ErrorLog::default();
    assert!(log.push("a".to_string()));
    assert!(!log.push("a".to_string()));
    assert!(log.push("b".to_string()));
    assert!(log.push("a".to_string()));
    assert_eq!(log.len(), 3);
}

#[test]
fn entries_are_removed_one_by_one_or_all_at_once() {
    let mut log = ErrorLog::default();
    log.push("a".to_string());
    log.push("b".to_string());
    log.push("c".to_string());
    let middle = log.entries()[1].id;
    log.remove(middle);
    let texts: Vec<&str> = log.entries().iter().map(|e| e.text.as_str()).collect();
    assert_eq!(texts, ["c", "a"]);
    log.push("d".to_string());
    assert!(log.entries().iter().all(|e| e.id != middle));
    log.clear();
    assert!(log.is_empty());
}

#[test]
fn ids_decrease_from_the_newest_entry() {
    let mut log = ErrorLog::default();
    for text in ["a", "b", "c", "d"] {
        log.push(text.to_string());
    }
    log.remove(log.entries()[2].id);
    let ids: Vec<u64> = log.entries().iter().map(|e| e.id).collect();
    assert_eq!(ids, [3, 2, 0]);
    log.clear();
    log.push("e".to_string());
    assert_eq!(log.entries()[0].id, 4);
}
