use bit_music::help::{wrap, Painter};

#[test]
fn wrap_keeps_short_text_on_one_line() {
    let lines = wrap("short text", "  ", 80);
    assert_eq!(lines, vec!["  short text".to_string()]);
}

#[test]
fn wrap_breaks_long_text_to_fit_width_with_indent() {
    let text = "one two three four five six seven eight nine ten";
    let indent = "    ";
    let width = 20;
    let lines = wrap(text, indent, width);
    assert!(lines.len() > 1, "expected multiple lines, got {lines:?}");
    for line in &lines {
        assert!(
            line.chars().count() <= width,
            "line exceeds width {width}: '{line}' ({} chars)",
            line.chars().count()
        );
        assert!(line.starts_with(indent));
    }
    let rejoined: String =
        lines.iter().map(|l| l.trim_start_matches(indent)).collect::<Vec<_>>().join(" ");
    assert_eq!(rejoined, text);
}

#[test]
fn wrap_never_panics_on_empty_text() {
    let lines = wrap("", "  ", 80);
    assert_eq!(lines, vec!["  ".to_string()]);
}

#[test]
fn wrap_gives_a_long_word_its_own_line_and_fits_the_width() {
    let lines = wrap("a incomprehensibilities b", "", 5);
    assert_eq!(lines, vec!["a", "incomprehensibilities", "b"]);
    // 12 columns minus an 8-wide indent leaves 4.
    let lines = wrap("aaaa bbbb cc", "        ", 12);
    assert_eq!(lines, vec!["        aaaa", "        bbbb", "        cc"]);
    let lines = wrap("aa bb", "", 4);
    assert_eq!(lines, vec!["aa", "bb"]);
    // Any whitespace separates words, and runs of it count once.
    let lines = wrap(" one\ttwo \n three ", ">", 80);
    assert_eq!(lines, vec![">one two three"]);
}

#[test]
fn painting_wraps_text_in_ansi_codes_only_when_enabled() {
    let on = Painter { enabled: true };
    let off = Painter { enabled: false };
    assert_eq!(on.title("bm"), "\x1b[1mbm\x1b[0m");
    assert_eq!(on.heading("USAGE:"), "\x1b[1;33mUSAGE:\x1b[0m");
    assert_eq!(on.command("play"), "\x1b[1;36mplay\x1b[0m");
    assert_eq!(on.flag("--wav"), "\x1b[32m--wav\x1b[0m");
    assert_eq!(off.heading("USAGE:"), "USAGE:");
    assert_eq!(off.paint("1", "x"), "x");
}

#[test]
fn the_help_lists_usage_commands_flags_and_examples() {
    let doc = bit_music::help::HelpDoc {
        name: "bm".to_string(),
        description: "bit-music player".to_string(),
        usage: "bm <command>".to_string(),
        commands: vec![bit_music::help::HelpCommand {
            name: "play".to_string(),
            usage: "bm play <file>".to_string(),
            description: "Plays a composition.".to_string(),
            flags: vec![bit_music::help::HelpFlag {
                name: "--non-stop".to_string(),
                description: "Loops until interrupted.".to_string(),
            }],
        }],
        examples: vec!["bm play song.bm1".to_string()],
    };
    let plain = bit_music::help::Painter { enabled: false };
    let lines = bit_music::help::render_lines(&plain, &doc, 80);
    assert_eq!(
        lines,
        vec![
            "bm - bit-music player",
            "",
            "USAGE:",
            "    bm <command>",
            "",
            "COMMANDS:",
            "    bm play <file>",
            "        Plays a composition.",
            "            --non-stop",
            "                Loops until interrupted.",
            "",
            "EXAMPLES:",
            "    bm play song.bm1",
        ]
    );
    let mut no_examples = doc;
    no_examples.examples.clear();
    let styled = bit_music::help::Painter { enabled: true };
    let lines = bit_music::help::render_lines(&styled, &no_examples, 80);
    assert_eq!(lines[0], "\x1b[1mbm\x1b[0m - bit-music player");
    assert_eq!(lines[2], "\x1b[1;33mUSAGE:\x1b[0m");
    assert_eq!(lines.len(), 11);
}

#[test]
fn the_width_falls_back_to_80_and_never_goes_below_40() {
    assert_eq!(bit_music::help::terminal_width(None), 80);
    assert_eq!(bit_music::help::terminal_width(Some(120)), 120);
    assert_eq!(bit_music::help::terminal_width(Some(20)), 40);
}
