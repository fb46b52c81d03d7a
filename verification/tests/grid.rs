use bit_music::grid::{GridNote, PatternGrid};

fn steps(items: &[Option<&str>]) -> Vec<Option<String>> {
    items.iter().map(|s| s.map(str::to_string)).collect()
}

#[test]
fn rows_are_distinct_pitches_highest_first() {
    let g = PatternGrid::from_steps(&steps(&[Some("C4"), Some("E4"), None, Some("C4")]));
    assert_eq!(g.len_steps, 4);
    assert_eq!(g.rows, vec!["E4", "C4"]);
    assert_eq!(
        g.notes,
        vec![
            GridNote { step: 0, row: 1 },
            GridNote { step: 1, row: 0 },
            GridNote { step: 3, row: 1 },
        ]
    );
}

#[test]
fn enharmonic_spellings_share_a_row() {
    let g = PatternGrid::from_steps(&steps(&[Some("C4#"), Some("D4b")]));
    assert_eq!(g.rows.len(), 1);
    assert_eq!(g.rows[0], "C4#");
    assert_eq!(g.notes.len(), 2);
}

#[test]
fn octaves_order_above_letters() {
    let g = PatternGrid::from_steps(&steps(&[Some("B3"), Some("C5"), Some("A4")]));
    assert_eq!(g.rows, vec!["C5", "A4", "B3"]);
}

#[test]
fn a_silent_pattern_has_no_rows_or_notes() {
    let g = PatternGrid::from_steps(&steps(&[None, None, None, None]));
    assert!(g.rows.is_empty() && g.notes.is_empty());
    assert_eq!(g.len_steps, 4);
}

#[test]
fn the_chromatic_range_covers_whole_octaves_highest_first() {
    let g = PatternGrid::from_steps(&steps(&[Some("C4"), Some("G4"), Some("F4#")]));
    let labels: Vec<&str> = g.chromatic.iter().map(|r| r.label.as_str()).collect();
    assert_eq!(labels, ["B4", "A#4", "A4", "G#4", "G4", "F#4", "F4", "E4", "D#4", "D4", "C#4", "C4"]);
    let black: Vec<bool> = g.chromatic.iter().map(|r| r.black).collect();
    assert_eq!(black, [false, true, false, true, false, true, false, false, true, false, true, false]);
    let rows: Vec<(usize, &str)> =
        g.chromatic_notes.iter().map(|n| (n.step, g.chromatic[n.row].label.as_str())).collect();
    assert_eq!(rows, [(0, "C4"), (1, "G4"), (2, "F#4")]);
}

#[test]
fn several_octaves_are_all_included_and_flats_land_on_the_sharp_row() {
    let g = PatternGrid::from_steps(&steps(&[Some("D3b"), Some("E4")]));
    assert_eq!(g.chromatic.len(), 24);
    assert_eq!(g.chromatic.first().unwrap().label, "B4");
    assert_eq!(g.chromatic.last().unwrap().label, "C3");
    assert_eq!(g.chromatic[g.chromatic_notes[0].row].label, "C#3");
    assert_eq!(g.rows.len(), 2);
}

#[test]
fn a_silent_pattern_has_no_chromatic_rows() {
    let g = PatternGrid::from_steps(&steps(&[None, None]));
    assert!(g.chromatic.is_empty() && g.chromatic_notes.is_empty());
}

#[test]
fn invalid_steps_are_left_out_of_the_grid() {
    let g = PatternGrid::from_steps(&steps(&[Some("H4"), Some("A0"), Some("B8")]));
    assert_eq!(g.rows, vec!["B8", "A0"]);
    assert_eq!(g.notes, vec![GridNote { step: 1, row: 1 }, GridNote { step: 2, row: 0 }]);
    assert_eq!(g.chromatic.len(), 108);
    assert_eq!(g.chromatic[0].label, "B8");
    assert_eq!(g.chromatic[107].label, "C0");
}
