use bit_music::i18n::{Lang, Texts};
use bit_music::loading::{after_load_event, LoadEvent, LoadStep};

fn texts() -> Texts {
    Texts::from_json(
        r#"{ "status.could_not_open": "Could not open {file}: {message}", "error.loader_stopped": "the loader stopped" }"#,
        r#"{ "status.could_not_open": "No se pudo abrir {file}: {message}" }"#,
    )
    .unwrap()
}

#[test]
fn a_pending_load_keeps_waiting_and_a_loaded_one_is_shown() {
    let t = texts();
    assert_eq!(after_load_event(&t, "/s/a.bm1", LoadEvent::Pending), LoadStep::Waiting);
    assert_eq!(after_load_event(&t, "/s/a.bm1", LoadEvent::Loaded), LoadStep::Ready);
}

#[test]
fn a_failure_is_shown_and_logged_with_the_file_name() {
    let mut t = texts();
    let step = after_load_event(
        &t,
        "/s/a.bm1",
        LoadEvent::Failed { path: "/s/b.bm1".to_string(), message: "bad json".to_string() },
    );
    assert_eq!(
        step,
        LoadStep::Failed {
            path: "/s/b.bm1".to_string(),
            message: "bad json".to_string(),
            log: "Could not open b.bm1: bad json".to_string(),
        }
    );
    t.set_language(Lang::Spanish);
    let step = after_load_event(&t, "/s/a.bm1", LoadEvent::LoaderStopped);
    assert_eq!(
        step,
        LoadStep::Failed {
            path: "/s/a.bm1".to_string(),
            message: "the loader stopped".to_string(),
            log: "No se pudo abrir a.bm1: the loader stopped".to_string(),
        }
    );
}
