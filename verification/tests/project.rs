use bit_music::project::{choose_sample_path, resolve_sample_path};

#[test]
fn resolves_relative_path_against_base_dir() {
    let base = "/songs/demo";
    assert_eq!(
        resolve_sample_path(base, "kick.wav"),
        std::path::Path::new("/songs/demo/kick.wav").to_string_lossy()
    );
    assert_eq!(
        resolve_sample_path(base, "../samples/kick.wav"),
        std::path::Path::new("/songs/demo/../samples/kick.wav").to_string_lossy()
    );
}

#[test]
fn keeps_absolute_path_untouched() {
    let base = "/songs/demo";
    assert_eq!(resolve_sample_path(base, "/etc/samples/kick.wav"), "/etc/samples/kick.wav");
}

#[test]
fn an_absolute_file_is_taken_as_it_is_and_a_relative_one_is_joined() {
    assert_eq!(choose_sample_path("/a/b.wav", true, "/x/a/b.wav".to_string()), "/a/b.wav");
    assert_eq!(choose_sample_path("b.wav", false, "/x/b.wav".to_string()), "/x/b.wav");
}

#[test]
fn the_file_name_is_the_last_component_or_the_whole_path() {
    assert_eq!(bit_music::project::file_name("/songs/demo/song1.bm1"), "song1.bm1");
    assert_eq!(bit_music::project::file_name("song1.bm1"), "song1.bm1");
    assert_eq!(bit_music::project::file_name("/"), "/");
    assert_eq!(bit_music::project::name_or_path("/x/..", None), "/x/..");
    assert_eq!(bit_music::project::name_or_path("/x/a.bm1", Some("a.bm1".to_string())), "a.bm1");
}

fn demo() -> bit_music::model::Composition {
    bit_music::model::Composition {
        metadata: bit_music::model::Metadata {
            version: "1.0".to_string(),
            title: "demo".to_string(),
            bpm: 100,
            steps_per_beat: 4,
            others: vec![],
        },
        samples: vec![
            bit_music::model::Sample {
                id: "kick".to_string(),
                file: "./samples/kick.wav".to_string(),
                root_note: None,
                root_octave: None,
            },
            bit_music::model::Sample {
                id: "pad".to_string(),
                file: "/abs/pad.wav".to_string(),
                root_note: Some("A".to_string()),
                root_octave: Some(3),
            },
        ],
        patterns: vec![bit_music::model::Pattern {
            id: "kickA".to_string(),
            sample: "kick".to_string(),
            steps: vec![Some("C4".to_string()), None, None, None],
        }],
        arrangement: bit_music::model::Arrangement {
            tracks: vec![bit_music::model::Track { id: "t".to_string(), sequence: vec![Some("kickA".to_string())] }],
        },
    }
}

#[test]
fn load_keeps_the_declared_file_next_to_the_resolved_one() {
    let project = bit_music::project::load("/songs/demo/song1.bm1", Ok(demo())).unwrap();
    let kick = project.composition.samples.iter().find(|s| s.id == "kick").unwrap();
    let declared = project.declared_files.iter().find(|e| e.key == "kick").unwrap();
    assert_eq!(declared.value, "./samples/kick.wav");
    assert_ne!(kick.file, declared.value);
    assert!(kick.file.ends_with(declared.value.trim_start_matches("./")));
    assert_eq!(kick.file, std::path::Path::new("/songs/demo").join("./samples/kick.wav").to_string_lossy());
    assert_eq!(project.composition.samples[1].file, "/abs/pad.wav");
    assert_eq!(project.composition.samples[0].root_note.as_deref(), Some("C"));
    assert_eq!(project.composition.samples[0].root_octave, Some(4));
    assert_eq!(project.path, "/songs/demo/song1.bm1");
}

#[test]
fn load_reports_missing_file_as_io_error() {
    let err = bit_music::project::load(
        "/definitely/not/here.bm1",
        Err(bit_music::project::ProjectError::Io {
            path: "/definitely/not/here.bm1".to_string(),
            message: "No such file or directory".to_string(),
        }),
    )
    .unwrap_err();
    assert!(matches!(err, bit_music::project::ProjectError::Io { .. }));
}

#[test]
fn an_invalid_composition_is_a_format_error() {
    let mut bad = demo();
    bad.metadata.bpm = 0;
    let err = bit_music::project::load("/songs/x.bm1", Ok(bad)).unwrap_err();
    assert!(matches!(
        err,
        bit_music::project::ProjectError::Format(bit_music::composition::FormatError::Validation(
            bit_music::validate::ValidationError::InvalidBpm
        ))
    ));
}

#[test]
fn a_path_without_a_folder_resolves_against_the_current_one() {
    let project = bit_music::project::load("song1.bm1", Ok(demo())).unwrap();
    assert_eq!(project.composition.samples[0].file, std::path::Path::new("").join("./samples/kick.wav").to_string_lossy());
}

#[test]
fn an_export_is_named_after_its_composition() {
    assert_eq!(bit_music::project::export_file_name("/songs/song1.bm1"), "song1.wav");
    assert_eq!(bit_music::project::export_file_name("song"), "song.wav");
    assert_eq!(bit_music::project::export_file_name("/"), "export.wav");
}
