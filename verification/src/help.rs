//! Text layout of the command-line help: word wrapping to the terminal's
//! width, and ANSI styling that can be switched off.

use vstd::prelude::*;
use vstd::string::*;

use crate::text::{chars_of, is_white_space, is_white_space_char, push_char};

verus! {

/// The words of `s`: its maximal runs of non-whitespace characters, in order.
pub open spec fn words(s: Seq<char>) -> Seq<Seq<char>>
    decreases s.len(),
{
    if s.len() == 0 {
        seq![]
    } else {
        let before = words(s.drop_last());
        let c = s.last();
        if is_white_space(c) {
            before
        } else if s.len() >= 2 && !is_white_space(s[s.len() - 2]) {
            before.update(before.len() - 1, before.last().push(c))
        } else {
            before.push(seq![c])
        }
    }
}

/// Greedy filling of lines of at most `avail` characters with the first `n`
/// words: the finished lines, and the line being filled. A word goes on the
/// current line, after a space, if it fits; otherwise the line is finished
/// and the word starts the next one (a word longer than `avail` gets a line
/// of its own).
pub open spec fn fill(ws: Seq<Seq<char>>, avail: nat, n: int) -> (Seq<Seq<char>>, Seq<char>)
    decreases n,
{
    if n <= 0 {
        (seq![], seq![])
    } else {
        let (lines, current) = fill(ws, avail, n - 1);
        let word = ws[n - 1];
        if current.len() > 0 && current.len() + 1 + word.len() > avail {
            (lines.push(current), word)
        } else if current.len() > 0 {
            (lines, current + seq![' '] + word)
        } else {
            (lines, word)
        }
    }
}

/// The width left for text once the indent is written (none when the
/// indent alone is wider than `width`).
pub open spec fn available(indent: Seq<char>, width: nat) -> nat {
    if width >= indent.len() {
        (width - indent.len()) as nat
    } else {
        0
    }
}

/// The lines `text` wraps to, without their indent.
pub open spec fn wrapped(text: Seq<char>, indent: Seq<char>, width: nat) -> Seq<Seq<char>> {
    let ws = words(text);
    let (lines, current) = fill(ws, available(indent, width), ws.len() as int);
    lines.push(current)
}

pub open spec fn words_view(v: Seq<Vec<char>>) -> Seq<Seq<char>> {
    v.map_values(|w: Vec<char>| w@)
}

/// The words of `text`.
fn split_words(text: &Vec<char>) -> (ws: Vec<Vec<char>>)
    ensures
        words_view(ws@) == words(text@),
{
    let n = text.len();
    let mut ws: Vec<Vec<char>> = Vec::new();
    let mut i: usize = 0;
    while i < n
        invariant
            n == text@.len(),
            i <= n,
            words_view(ws@) == words(text@.take(i as int)),
        decreases n - i,
    {
        let c = text[i];
        let ghost prefix = text@.take(i as int);
        assert(text@.take(i + 1).drop_last() =~= prefix);
        assert(text@.take(i + 1).last() == c);
        if is_white_space_char(c) {
        } else if i >= 1 && !is_white_space_char(text[i - 1]) {
            assert(text@.take(i + 1)[i - 1] == text@[i - 1]);
            proof {
                assert(prefix.last() == text@[i - 1]);
                lemma_words_last(prefix);
                assert(ws@.len() == words_view(ws@).len());
            }
            let ghost ws_before = ws@;
            let mut word = ws.pop().unwrap();
            word.push(c);
            ws.push(word);
            assert(words_view(ws@) =~= words(text@.take(i + 1))) by {
                assert(ws_before.last()@ == words(prefix).last());
            }
        } else {
            if i >= 1 {
                assert(text@.take(i + 1)[i - 1] == text@[i - 1]);
            }
            let mut word: Vec<char> = Vec::new();
            word.push(c);
            ws.push(word);
            assert(words_view(ws@) =~= words(text@.take(i + 1)));
        }
        i = i + 1;
    }
    assert(text@.take(n as int) =~= text@);
    ws
}

/// The words of a non-empty prefix of text end a non-empty word when the
/// prefix ends with a non-space.
proof fn lemma_words_last(s: Seq<char>)
    requires
        s.len() > 0,
        !is_white_space(s.last()),
    ensures
        words(s).len() > 0,
    decreases s.len(),
{
    if s.len() >= 2 && !is_white_space(s[s.len() - 2]) {
        lemma_words_last(s.drop_last());
    }
}

/// `indent` followed by the characters of `cs`.
fn line_text(indent: &str, cs: &Vec<char>) -> (r: String)
    ensures
        r@ == indent@ + cs@,
{
    let mut out = String::from_str(indent);
    let mut i: usize = 0;
    while i < cs.len()
        invariant
            i <= cs@.len(),
            out@ == indent@ + cs@.take(i as int),
        decreases cs.len() - i,
    {
        push_char(&mut out, cs[i]);
        assert(cs@.take(i + 1) =~= cs@.take(i as int).push(cs@[i as int]));
        i = i + 1;
    }
    assert(cs@.take(cs@.len() as int) =~= cs@);
    out
}

/// Greedily word-wraps `text` to fit within `width` columns, every line
/// (the first too) starting with `indent`. There is always at least one
/// line, so empty text still gives a bare indent.
pub fn wrap(text: &str, indent: &str, width: usize) -> (lines: Vec<String>)
    ensures
        lines@.len() == wrapped(text@, indent@, width as nat).len(),
        forall|i: int|
            0 <= i < lines@.len() ==> (#[trigger] lines@[i])@ == indent@ + wrapped(
                text@,
                indent@,
                width as nat,
            )[i],
{
    let chars = chars_of(text);
    let ws = split_words(&chars);
    let indent_len = indent.unicode_len();
    let avail = if width >= indent_len { width - indent_len } else { 0 };
    let ghost wv = words(text@);
    let n = ws.len();
    let mut lines: Vec<String> = Vec::new();
    let mut current: Vec<char> = Vec::new();
    let mut k: usize = 0;
    while k < n
        invariant
            words_view(ws@) == wv,
            n == wv.len(),
            avail == available(indent@, width as nat),
            k <= n,
            lines@.len() == fill(wv, avail as nat, k as int).0.len(),
            forall|i: int|
                0 <= i < lines@.len() ==> (#[trigger] lines@[i])@ == indent@ + fill(
                    wv,
                    avail as nat,
                    k as int,
                ).0[i],
            current@ == fill(wv, avail as nat, k as int).1,
        decreases n - k,
    {
        let word = &ws[k];
        assert(word@ == wv[k as int]);
        let ghost before = lines@;
        if current.len() > 0 && current.len() as u128 + 1 + word.len() as u128 > avail as u128 {
            lines.push(line_text(indent, &current));
            current = word.clone();
            assert(current@ == wv[k as int]);
        } else {
            if current.len() > 0 {
                current.push(' ');
            }
            let mut j: usize = 0;
            let ghost base = current@;
            while j < word.len()
                invariant
                    j <= word@.len(),
                    current@ == base + word@.take(j as int),
                decreases word.len() - j,
            {
                current.push(word[j]);
                assert(word@.take(j + 1) =~= word@.take(j as int).push(word@[j as int]));
                j = j + 1;
            }
            assert(word@.take(word@.len() as int) =~= word@);
            assert(current@ =~= fill(wv, avail as nat, k + 1).1);
        }
        k = k + 1;
    }
    lines.push(line_text(indent, &current));
    lines
}

/// Minimal ANSI styling, off when `enabled` is false (output that is not a
/// terminal, or `NO_COLOR`), so that plain text stays plain.
pub struct Painter {
    pub enabled: bool,
}

pub open spec fn painted(enabled: bool, code: Seq<char>, text: Seq<char>) -> Seq<char> {
    if enabled {
        seq!['\u{1b}', '['] + code + seq!['m'] + text + seq!['\u{1b}', '[', '0', 'm']
    } else {
        text
    }
}

impl Painter {
    /// `text` wrapped in the ANSI style `code` (or as is when disabled).
    pub fn paint(&self, code: &str, text: &str) -> (r: String)
        ensures
            r@ == painted(self.enabled, code@, text@),
    {
        if self.enabled {
            let mut out = String::new();
            push_char(&mut out, '\u{1b}');
            push_char(&mut out, '[');
            out.append(code);
            push_char(&mut out, 'm');
            out.append(text);
            push_char(&mut out, '\u{1b}');
            push_char(&mut out, '[');
            push_char(&mut out, '0');
            push_char(&mut out, 'm');
            assert(out@ =~= painted(self.enabled, code@, text@));
            out
        } else {
            String::from_str(text)
        }
    }

    /// Bold.
    pub fn title(&self, text: &str) -> (r: String)
        ensures
            r@ == painted(self.enabled, "1"@, text@),
    {
        self.paint("1", text)
    }

    /// Bold yellow.
    pub fn heading(&self, text: &str) -> (r: String)
        ensures
            r@ == painted(self.enabled, "1;33"@, text@),
    {
        self.paint("1;33", text)
    }

    /// Bold cyan.
    pub fn command(&self, text: &str) -> (r: String)
        ensures
            r@ == painted(self.enabled, "1;36"@, text@),
    {
        self.paint("1;36", text)
    }

    /// Green.
    pub fn flag(&self, text: &str) -> (r: String)
        ensures
            r@ == painted(self.enabled, "32"@, text@),
    {
        self.paint("32", text)
    }
}


// ----- laws of wrapping ---------------------------------------------------------

/// The pieces of `parts` joined by single spaces.
pub open spec fn joined(parts: Seq<Seq<char>>) -> Seq<char>
    decreases parts.len(),
{
    if parts.len() == 0 {
        seq![]
    } else if parts.len() == 1 {
        parts[0]
    } else {
        joined(parts.drop_last()) + seq![' '] + parts.last()
    }
}

/// Every word is non-empty and holds no whitespace.
proof fn lemma_words_are_words(s: Seq<char>)
    ensures
        forall|j: int| 0 <= j < words(s).len() ==> (#[trigger] words(s)[j]).len() > 0,
        forall|j: int, k: int| 0 <= j < words(s).len() && 0 <= k < words(s)[j].len() ==> !is_white_space(#[trigger] words(s)[j][k]),
    decreases s.len(),
{
    if s.len() > 0 {
        lemma_words_are_words(s.drop_last());
        let before = words(s.drop_last());
        let c = s.last();
        if !is_white_space(c) && s.len() >= 2 && !is_white_space(s[s.len() - 2]) {
            lemma_words_last(s.drop_last());
            let w = words(s);
            assert forall|j: int, k: int| 0 <= j < w.len() && 0 <= k < w[j].len() implies !is_white_space(#[trigger] w[j][k]) by {
                if j == w.len() - 1 && k == w[j].len() - 1 {
                } else if j == w.len() - 1 {
                    assert(w[j][k] == before.last()[k]);
                } else {
                    assert(w[j] == before[j]);
                }
            }
        }
    }
}

/// Filling keeps the words in order: the finished lines and the current
/// one, joined, are the words so far joined.
proof fn lemma_fill_keeps_words(ws: Seq<Seq<char>>, avail: nat, n: int)
    requires
        0 <= n <= ws.len(),
        forall|j: int| 0 <= j < ws.len() ==> (#[trigger] ws[j]).len() > 0,
    ensures
        joined(fill(ws, avail, n).0.push(fill(ws, avail, n).1)) == joined(ws.take(n)),
        n > 0 ==> fill(ws, avail, n).1.len() > 0,
    decreases n,
{
    if n > 0 {
        lemma_fill_keeps_words(ws, avail, n - 1);
        let (lines, current) = fill(ws, avail, n - 1);
        let word = ws[n - 1];
        assert(ws.take(n).drop_last() =~= ws.take(n - 1));
        assert(ws.take(n).last() == word);
        if n == 1 {
            assert(lines.len() == 0);
            assert(fill(ws, avail, n).0.push(fill(ws, avail, n).1) =~= seq![word]);
            assert(ws.take(n) =~= seq![word]);
        } else if current.len() + 1 + word.len() > avail {
            let next = lines.push(current).push(word);
            assert(next.drop_last() =~= lines.push(current));
        } else {
            let next = lines.push(current + seq![' '] + word);
            assert(next.drop_last() =~= lines);
            assert(lines.push(current).drop_last() =~= lines);
            if lines.len() == 0 {
                assert(joined(lines.push(current)) == current);
            } else {
                assert(joined(next) =~= joined(lines.push(current)) + seq![' '] + word);
            }
        }
    }
}

/// Wrapping loses no word and reorders none: the lines, joined by spaces,
/// are the words of the text joined by spaces.
pub proof fn lemma_wrap_keeps_words(text: Seq<char>, indent: Seq<char>, width: nat)
    ensures
        joined(wrapped(text, indent, width)) == joined(words(text)),
{
    let ws = words(text);
    lemma_words_are_words(text);
    lemma_fill_keeps_words(ws, available(indent, width), ws.len() as int);
    assert(ws.take(ws.len() as int) =~= ws);
}

/// Each line is either within the available width or a single word that
/// alone is wider.
proof fn lemma_fill_fits(ws: Seq<Seq<char>>, avail: nat, n: int)
    requires
        0 <= n <= ws.len(),
    ensures
        forall|i: int| 0 <= i < fill(ws, avail, n).0.len() ==> (#[trigger] fill(ws, avail, n).0[i]).len() <= avail
            || exists|j: int| 0 <= j < ws.len() && fill(ws, avail, n).0[i] == ws[j],
        fill(ws, avail, n).1.len() <= avail || exists|j: int| 0 <= j < ws.len() && fill(ws, avail, n).1 == ws[j],
    decreases n,
{
    if n > 0 {
        lemma_fill_fits(ws, avail, n - 1);
        let (lines, current) = fill(ws, avail, n - 1);
        let word = ws[n - 1];
        if current.len() > 0 && current.len() + 1 + word.len() > avail {
            let next = lines.push(current);
            assert forall|i: int| 0 <= i < next.len() implies (#[trigger] next[i]).len() <= avail
                || exists|j: int| 0 <= j < ws.len() && next[i] == ws[j] by {
                if i < lines.len() {
                    assert(next[i] == lines[i]);
                }
            }
        }
    }
}

/// Every line fits the width left after the indent, except a line made of
/// a single word that is wider on its own.
pub proof fn lemma_wrap_fits(text: Seq<char>, indent: Seq<char>, width: nat)
    ensures
        forall|i: int| 0 <= i < wrapped(text, indent, width).len() ==> (#[trigger] wrapped(text, indent, width)[i]).len()
            <= available(indent, width) || exists|j: int| 0 <= j < words(text).len() && wrapped(text, indent, width)[i] == words(text)[j],
{
    let ws = words(text);
    let avail = available(indent, width);
    lemma_fill_fits(ws, avail, ws.len() as int);
    let (lines, current) = fill(ws, avail, ws.len() as int);
    let out = lines.push(current);
    assert forall|i: int| 0 <= i < out.len() implies (#[trigger] out[i]).len() <= avail
        || exists|j: int| 0 <= j < ws.len() && out[i] == ws[j] by {
        if i < lines.len() {
            assert(out[i] == lines[i]);
        }
    }
}

// ----- the help document ----------------------------------------------------

/// The help text of the command line, as read from `bm.hlp`.
#[derive(Debug)]
pub struct HelpDoc {
    pub name: String,
    pub description: String,
    pub usage: String,
    pub commands: Vec<HelpCommand>,
    pub examples: Vec<String>,
}

#[derive(Debug)]
pub struct HelpCommand {
    /// For tools that read the file; only `usage` is shown.
    pub name: String,
    pub usage: String,
    pub description: String,
    pub flags: Vec<HelpFlag>,
}

#[derive(Debug)]
pub struct HelpFlag {
    pub name: String,
    pub description: String,
}

/// Width used when the terminal's cannot be told (output piped, no
/// terminal).
pub const DEFAULT_WIDTH: usize = 80;
/// Never wrap narrower than this, even on a tiny or misreported terminal.
pub const MIN_WIDTH: usize = 40;

/// The width to wrap to, given the terminal's width in columns when it is
/// known: that width, or 80, and never below 40.
pub fn terminal_width(columns: Option<u16>) -> (r: usize)
    ensures
        r == ({
            let w: int = match columns {
                Some(c) => c as int,
                None => 80,
            };
            if w < 40 {
                40
            } else {
                w
            }
        }),
{
    let w: usize = match columns {
        Some(c) => c as usize,
        None => DEFAULT_WIDTH,
    };
    if w < MIN_WIDTH {
        MIN_WIDTH
    } else {
        w
    }
}

/// `n` spaces.
pub open spec fn spaces(n: nat) -> Seq<char> {
    Seq::new(n, |i: int| ' ')
}

fn space_string(n: usize) -> (r: String)
    ensures
        r@ == spaces(n as nat),
{
    let mut out = String::new();
    let mut i: usize = 0;
    while i < n
        invariant
            i <= n,
            out@ == spaces(i as nat),
        decreases n - i,
    {
        push_char(&mut out, ' ');
        i = i + 1;
        assert(out@ =~= spaces(i as nat));
    }
    out
}

pub open spec fn lines_view(v: Seq<String>) -> Seq<Seq<char>> {
    v.map_values(|l: String| l@)
}

/// Each of `lines` after `indent`.
pub open spec fn indented(lines: Seq<Seq<char>>, indent: Seq<char>) -> Seq<Seq<char>> {
    lines.map_values(|l: Seq<char>| indent + l)
}

/// The lines of one flag: its name, then its description wrapped.
pub open spec fn flag_lines(painted_on: bool, f: HelpFlag, width: nat) -> Seq<Seq<char>> {
    seq![spaces(12) + painted(painted_on, "32"@, f.name@)] + indented(
        wrapped(f.description@, spaces(16), width),
        spaces(16),
    )
}

/// The lines of the first `n` flags.
pub open spec fn flags_lines(painted_on: bool, flags: Seq<HelpFlag>, width: nat, n: int) -> Seq<Seq<char>>
    decreases n,
{
    if n <= 0 {
        Seq::empty()
    } else {
        flags_lines(painted_on, flags, width, n - 1) + flag_lines(painted_on, flags[n - 1], width)
    }
}

/// The lines of one command: its usage, its description wrapped, its
/// flags, and a blank line.
pub open spec fn command_lines(painted_on: bool, c: HelpCommand, width: nat) -> Seq<Seq<char>> {
    seq![spaces(4) + painted(painted_on, "1;36"@, c.usage@)] + indented(
        wrapped(c.description@, spaces(8), width),
        spaces(8),
    ) + flags_lines(painted_on, c.flags@, width, c.flags@.len() as int) + seq![Seq::<char>::empty()]
}

/// The lines of the first `n` commands.
pub open spec fn commands_lines(painted_on: bool, cmds: Seq<HelpCommand>, width: nat, n: int) -> Seq<Seq<char>>
    decreases n,
{
    if n <= 0 {
        Seq::empty()
    } else {
        commands_lines(painted_on, cmds, width, n - 1) + command_lines(painted_on, cmds[n - 1], width)
    }
}

/// The lines of the examples section (none when there are no examples).
pub open spec fn examples_lines(painted_on: bool, examples: Seq<String>) -> Seq<Seq<char>> {
    if examples.len() == 0 {
        Seq::empty()
    } else {
        seq![painted(painted_on, "1;33"@, "EXAMPLES:"@)] + examples.map_values(|e: String| spaces(4) + e@)
    }
}

/// The whole help as lines: name and description, usage, each command
/// with its flags, and the examples if there are any.
pub open spec fn help_lines(painted_on: bool, doc: HelpDoc, width: nat) -> Seq<Seq<char>> {
    seq![
        painted(painted_on, "1"@, doc.name@) + " - "@ + doc.description@,
        Seq::<char>::empty(),
        painted(painted_on, "1;33"@, "USAGE:"@),
        spaces(4) + doc.usage@,
        Seq::<char>::empty(),
        painted(painted_on, "1;33"@, "COMMANDS:"@),
    ] + commands_lines(painted_on, doc.commands@, width, doc.commands@.len() as int) + examples_lines(
        painted_on,
        doc.examples@,
    )
}

proof fn lemma_lines_push(v: Seq<String>, x: String)
    ensures
        lines_view(v.push(x)) == lines_view(v).push(x@),
{
    assert(lines_view(v.push(x)) =~= lines_view(v).push(x@));
}

/// `indent` followed by `text`.
fn after(indent: &String, text: &str) -> (r: String)
    ensures
        r@ == indent@ + text@,
{
    let mut out = indent.clone();
    out.append(text);
    out
}

/// Appends the wrapped lines of `text` to `out`.
fn push_wrapped(out: &mut Vec<String>, text: &str, indent: &String, width: usize)
    ensures
        lines_view(final(out)@) == lines_view(old(out)@) + indented(wrapped(text@, indent@, width as nat), indent@),
{
    let lines = wrap(text, indent.as_str(), width);
    let ghost start = lines_view(out@);
    let mut i: usize = 0;
    while i < lines.len()
        invariant
            i <= lines@.len(),
            lines@.len() == wrapped(text@, indent@, width as nat).len(),
            forall|k: int| 0 <= k < lines@.len() ==> (#[trigger] lines@[k])@ == indent@ + wrapped(text@, indent@, width as nat)[k],
            lines_view(out@) == start + indented(wrapped(text@, indent@, width as nat), indent@).take(i as int),
        decreases lines.len() - i,
    {
        let ghost prev = out@;
        let line = lines[i].clone();
        out.push(line);
        proof {
            lemma_lines_push(prev, line);
            let ind = indented(wrapped(text@, indent@, width as nat), indent@);
            assert(ind.take(i + 1) =~= ind.take(i as int).push(ind[i as int]));
        }
        i = i + 1;
        assert(lines_view(out@) =~= start + indented(wrapped(text@, indent@, width as nat), indent@).take(i as int));
    }
    assert(indented(wrapped(text@, indent@, width as nat), indent@).take(i as int) =~= indented(wrapped(text@, indent@, width as nat), indent@));
}

/// The help as lines, styled by `p` and wrapped to `width` columns.
pub fn render_lines(p: &Painter, doc: &HelpDoc, width: usize) -> (r: Vec<String>)
    ensures
        lines_view(r@) == help_lines(p.enabled, *doc, width as nat),
{
    proof {
        reveal_strlit(" - ");
        reveal_strlit("USAGE:");
        reveal_strlit("COMMANDS:");
        reveal_strlit("EXAMPLES:");
        reveal_strlit("1");
        reveal_strlit("1;33");
        reveal_strlit("1;36");
        reveal_strlit("32");
    }
    let four = space_string(4);
    let eight = space_string(8);
    let twelve = space_string(12);
    let sixteen = space_string(16);
    let mut out: Vec<String> = Vec::new();
    let mut first = p.title(doc.name.as_str());
    first.append(" - ");
    first.append(doc.description.as_str());
    out.push(first);
    out.push(String::new());
    out.push(p.heading("USAGE:"));
    out.push(after(&four, doc.usage.as_str()));
    out.push(String::new());
    out.push(p.heading("COMMANDS:"));
    let ghost head = lines_view(out@);
    assert(head =~= seq![
        painted(p.enabled, "1"@, doc.name@) + " - "@ + doc.description@,
        Seq::<char>::empty(),
        painted(p.enabled, "1;33"@, "USAGE:"@),
        spaces(4) + doc.usage@,
        Seq::<char>::empty(),
        painted(p.enabled, "1;33"@, "COMMANDS:"@),
    ]);
    let ghost w = width as nat;
    let mut c: usize = 0;
    while c < doc.commands.len()
        invariant
            c <= doc.commands@.len(),
            w == width as nat,
            four@ == spaces(4),
            eight@ == spaces(8),
            twelve@ == spaces(12),
            sixteen@ == spaces(16),
            lines_view(out@) == head + commands_lines(p.enabled, doc.commands@, w, c as int),
        decreases doc.commands.len() - c,
    {
        let cmd = &doc.commands[c];
        let ghost before = lines_view(out@);
        let ghost prev = out@;
        let usage_line = after(&four, p.command(cmd.usage.as_str()).as_str());
        out.push(usage_line);
        proof {
            lemma_lines_push(prev, usage_line);
        }
        push_wrapped(&mut out, cmd.description.as_str(), &eight, width);
        let ghost mid = lines_view(out@);
        assert(flags_lines(p.enabled, cmd.flags@, w, 0) =~= Seq::<Seq<char>>::empty());
        assert(mid =~= mid + flags_lines(p.enabled, cmd.flags@, w, 0));
        let mut f: usize = 0;
        while f < cmd.flags.len()
            invariant
                f <= cmd.flags@.len(),
                w == width as nat,
                twelve@ == spaces(12),
                sixteen@ == spaces(16),
                lines_view(out@) == mid + flags_lines(p.enabled, cmd.flags@, w, f as int),
            decreases cmd.flags.len() - f,
        {
            let flag = &cmd.flags[f];
            let ghost prev = out@;
            let painted_name = p.flag(flag.name.as_str());
            let name_line = after(&twelve, painted_name.as_str());
            out.push(name_line);
            proof {
                lemma_lines_push(prev, name_line);
            }
            push_wrapped(&mut out, flag.description.as_str(), &sixteen, width);
            proof {
                let fl = flag_lines(p.enabled, cmd.flags@[f as int], w);
                assert(lines_view(out@) =~= mid + flags_lines(p.enabled, cmd.flags@, w, f as int) + fl);
            }
            f = f + 1;
            assert(lines_view(out@) =~= mid + flags_lines(p.enabled, cmd.flags@, w, f as int));
        }
        let ghost prev2 = out@;
        let blank = String::new();
        out.push(blank);
        proof {
            lemma_lines_push(prev2, blank);
            let cl = command_lines(p.enabled, doc.commands@[c as int], w);
            assert(lines_view(out@) =~= before + cl);
        }
        c = c + 1;
        assert(lines_view(out@) =~= head + commands_lines(p.enabled, doc.commands@, w, c as int));
    }
    let ghost body = lines_view(out@);
    if doc.examples.len() > 0 {
        out.push(p.heading("EXAMPLES:"));
        let mut e: usize = 0;
        while e < doc.examples.len()
            invariant
                e <= doc.examples@.len(),
                doc.examples@.len() > 0,
                four@ == spaces(4),
                lines_view(out@) == body + seq![painted(p.enabled, "1;33"@, "EXAMPLES:"@)]
                    + doc.examples@.take(e as int).map_values(|x: String| spaces(4) + x@),
            decreases doc.examples.len() - e,
        {
            let ghost prev = out@;
            let line = after(&four, doc.examples[e].as_str());
            out.push(line);
            proof {
                lemma_lines_push(prev, line);
                let ex = doc.examples@;
                assert(ex.take(e + 1) =~= ex.take(e as int).push(ex[e as int]));
                assert(ex.take(e + 1).map_values(|x: String| spaces(4) + x@) =~= ex.take(e as int).map_values(|x: String| spaces(4) + x@).push(spaces(4) + ex[e as int]@));
            }
            e = e + 1;
            assert(lines_view(out@) =~= body + seq![painted(p.enabled, "1;33"@, "EXAMPLES:"@)]
                + doc.examples@.take(e as int).map_values(|x: String| spaces(4) + x@));
        }
        assert(doc.examples@.take(e as int) =~= doc.examples@);
    }
    assert(lines_view(out@) =~= help_lines(p.enabled, *doc, w));
    out
}


/// Every line fits within `width` columns, indent included, whenever the
/// indent does and every word fits the width left after it.
pub proof fn lemma_wrap_fits_width(text: Seq<char>, indent: Seq<char>, width: nat)
    requires
        indent.len() <= width,
        forall|j: int| 0 <= j < words(text).len() ==> (#[trigger] words(text)[j]).len() <= available(indent, width),
    ensures
        wrapped(text, indent, width).len() >= 1,
        forall|i: int| 0 <= i < wrapped(text, indent, width).len() ==> (indent + #[trigger] wrapped(text, indent, width)[i]).len() <= width,
{
    lemma_wrap_fits(text, indent, width);
    let w = wrapped(text, indent, width);
    assert forall|i: int| 0 <= i < w.len() implies (indent + #[trigger] w[i]).len() <= width by {
        if w[i].len() > available(indent, width) {
            let j = choose|j: int| 0 <= j < words(text).len() && w[i] == words(text)[j];
            assert(words(text)[j].len() <= available(indent, width));
        }
    }
}


/// `line` begins with the word `w`: `w`, then the end of the line or a
/// space.
pub open spec fn starts_with_word(line: Seq<char>, w: Seq<char>) -> bool {
    &&& w.len() <= line.len()
    &&& line.take(w.len() as int) == w
    &&& (line.len() == w.len() || line[w.len() as int] == ' ')
}

/// The line after `prev` begins with a word of `ws` that would not have
/// fit after `prev` (a space and the word make `prev` wider than `avail`).
pub open spec fn broken_before(prev: Seq<char>, next: Seq<char>, ws: Seq<Seq<char>>, avail: nat) -> bool {
    exists|k: int| 0 <= k < ws.len() && #[trigger] starts_with_word(next, ws[k]) && prev.len() + 1 + ws[k].len() > avail
}

proof fn lemma_starts_extended(c: Seq<char>, w: Seq<char>, word: Seq<char>)
    requires
        starts_with_word(c, w),
    ensures
        starts_with_word(c + seq![' '] + word, w),
{
    let d = c + seq![' '] + word;
    assert(d.take(w.len() as int) =~= c.take(w.len() as int));
    if c.len() == w.len() {
        assert(d[w.len() as int] == ' ');
    } else {
        assert(d[w.len() as int] == c[w.len() as int]);
    }
}

proof fn lemma_fill_greedy(ws: Seq<Seq<char>>, avail: nat, n: int)
    requires
        0 <= n <= ws.len(),
        forall|j: int| 0 <= j < ws.len() ==> (#[trigger] ws[j]).len() > 0,
    ensures
        ({
            let (lines, current) = fill(ws, avail, n);
            let all = lines.push(current);
            &&& forall|i: int| 0 <= i < lines.len() ==> #[trigger] broken_before(all[i], all[i + 1], ws, avail)
            &&& n > 0 ==> exists|k: int| 0 <= k < ws.len() && #[trigger] starts_with_word(current, ws[k])
        }),
    decreases n,
{
    if n > 0 {
        lemma_fill_greedy(ws, avail, n - 1);
        lemma_fill_keeps_words(ws, avail, n - 1);
        let (lines, current) = fill(ws, avail, n - 1);
        let all = lines.push(current);
        let word = ws[n - 1];
        let (lines2, current2) = fill(ws, avail, n);
        let all2 = lines2.push(current2);
        if current.len() > 0 && current.len() + 1 + word.len() > avail {
            assert(starts_with_word(word, ws[n - 1])) by {
                assert(word.take(word.len() as int) =~= word);
            }
            assert forall|i: int| 0 <= i < lines2.len() implies #[trigger] broken_before(all2[i], all2[i + 1], ws, avail) by {
                if i < lines.len() {
                    assert(all2[i] == all[i] && all2[i + 1] == all[i + 1]);
                    assert(broken_before(all[i], all[i + 1], ws, avail));
                } else {
                    assert(all2[i] == current && all2[i + 1] == word);
                    assert(starts_with_word(all2[i + 1], ws[n - 1]));
                }
            }
        } else if current.len() > 0 {
            let k0 = choose|k: int| 0 <= k < ws.len() && #[trigger] starts_with_word(current, ws[k]);
            lemma_starts_extended(current, ws[k0], word);
            assert(starts_with_word(current2, ws[k0]));
            assert forall|i: int| 0 <= i < lines2.len() implies #[trigger] broken_before(all2[i], all2[i + 1], ws, avail) by {
                assert(broken_before(all[i], all[i + 1], ws, avail));
                if i + 1 < lines.len() {
                    assert(all2[i] == all[i] && all2[i + 1] == all[i + 1]);
                } else {
                    assert(all2[i] == all[i]);
                    assert(all[i + 1] == current && all2[i + 1] == current2);
                    let k = choose|k: int| 0 <= k < ws.len() && #[trigger] starts_with_word(all[i + 1], ws[k])
                        && all[i].len() + 1 + ws[k].len() > avail;
                    lemma_starts_extended(current, ws[k], word);
                    assert(starts_with_word(all2[i + 1], ws[k]));
                }
            }
        } else {
            assert(n - 1 == 0);
            assert(lines.len() == 0);
            assert(starts_with_word(word, ws[n - 1])) by {
                assert(word.take(word.len() as int) =~= word);
            }
        }
    }
}

/// Wrapping is greedy: each line after the first begins with a word that
/// would not have fit at the end of the line before it.
pub proof fn lemma_wrap_is_greedy(text: Seq<char>, indent: Seq<char>, width: nat)
    ensures
        forall|i: int|
            0 <= i < wrapped(text, indent, width).len() - 1 ==> #[trigger] broken_before(
                wrapped(text, indent, width)[i],
                wrapped(text, indent, width)[i + 1],
                words(text),
                available(indent, width),
            ),
{
    let ws = words(text);
    lemma_words_are_words(text);
    lemma_fill_greedy(ws, available(indent, width), ws.len() as int);
}

} // verus!
