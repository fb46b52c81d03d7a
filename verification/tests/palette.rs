use bit_music::palette::{sample_color, Rgb};

#[test]
fn colors_are_distinct_and_cycle() {
    assert_ne!(sample_color(0), sample_color(1));
    assert_eq!(sample_color(0), sample_color(8));
}

#[test]
fn the_first_color_is_blue_and_the_last_red() {
    assert_eq!(sample_color(0), Rgb { r: 86, g: 156, b: 214 });
    assert_eq!(sample_color(7), Rgb { r: 200, g: 100, b: 100 });
    for i in 0..8 {
        for j in 0..8 {
            assert_eq!(i == j, sample_color(i) == sample_color(j));
        }
    }
}
