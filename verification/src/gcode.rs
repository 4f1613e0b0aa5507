//! Reading the G-code that a drawing is converted to.
//!
//! Of each line only what moves the pen matters: a line whose first word
//! is `G0` or `G1` moves to the coordinates given by its words starting
//! with `X` and `Y`; a line holding the word `M4` lifts the pen, and one
//! holding `M5` lowers it. Lines starting with `;` are comments.
use vstd::prelude::*;

verus! {

/// Whether `c` has the Unicode White_Space property.
pub open spec fn is_white_space(c: char) -> bool {
    let u = c as u32;
    ||| 0x09 <= u <= 0x0D
    ||| u == 0x20
    ||| u == 0x85
    ||| u == 0xA0
    ||| u == 0x1680
    ||| 0x2000 <= u <= 0x200A
    ||| u == 0x2028
    ||| u == 0x2029
    ||| u == 0x202F
    ||| u == 0x205F
    ||| u == 0x3000
}

/// Whether `c` is white space, as `char::is_whitespace` decides it.
pub fn white_space(c: char) -> (b: bool)
    ensures
        b == is_white_space(c),
{
    let u = c as u32;
    (0x09 <= u && u <= 0x0D) || u == 0x20 || u == 0x85 || u == 0xA0 || u == 0x1680 || (0x2000 <= u
        && u <= 0x200A) || u == 0x2028 || u == 0x2029 || u == 0x202F || u == 0x205F || u == 0x3000
}

/// The number of leading characters of `s` that are not white space.
pub open spec fn word_len(s: Seq<char>) -> nat
    decreases s.len(),
{
    if s.len() == 0 || is_white_space(s[0]) {
        0
    } else {
        1 + word_len(s.drop_first())
    }
}

/// The words of `s`: its maximal runs of characters that are not white
/// space, in order.
pub open spec fn words(s: Seq<char>) -> Seq<Seq<char>>
    decreases s.len(),
{
    if s.len() == 0 {
        Seq::empty()
    } else if is_white_space(s[0]) {
        words(s.drop_first())
    } else {
        let w = word_len(s);
        if 0 < w <= s.len() {
            seq![s.take(w as int)] + words(s.skip(w as int))
        } else {
            Seq::empty()
        }
    }
}

/// A run of characters that are not white space, ended by white space or
/// by the end of `s`, is a whole word.
proof fn lemma_word_run(s: Seq<char>, w: int)
    requires
        0 < w <= s.len(),
        forall|i: int| 0 <= i < w ==> !is_white_space(#[trigger] s[i]),
        w < s.len() ==> is_white_space(s[w]),
    ensures
        word_len(s) == w,
    decreases w,
{
    assert(!is_white_space(s[0]));
    if w > 1 {
        let t = s.drop_first();
        assert forall|i: int| 0 <= i < w - 1 implies !is_white_space(#[trigger] t[i]) by {
            assert(t[i] == s[i + 1]);
        }
        if w - 1 < t.len() {
            assert(t[w - 1] == s[w]);
        }
        lemma_word_run(t, w - 1);
        assert(word_len(s) == 1 + word_len(t));
    } else {
        let t = s.drop_first();
        if t.len() > 0 {
            assert(t[0] == s[1]);
            assert(is_white_space(t[0]));
        }
        assert(word_len(t) == 0);
        assert(word_len(s) == 1 + word_len(t));
    }
}

/// The positions of the words of `chars[a..b]`: each word as its start and
/// end position in `chars`.
fn word_spans(chars: &Vec<char>, a: usize, b: usize) -> (spans: Vec<(usize, usize)>)
    requires
        a <= b <= chars@.len(),
    ensures
        forall|k: int|
            0 <= k < spans@.len() ==> a <= (#[trigger] spans@[k]).0 < spans@[k].1 <= b,
        spans@.map_values(|p: (usize, usize)| chars@.subrange(p.0 as int, p.1 as int)) == words(
            chars@.subrange(a as int, b as int),
        ),
{
    let mut spans: Vec<(usize, usize)> = Vec::new();
    let mut p = a;
    while p < b
        invariant
            a <= p <= b <= chars@.len(),
            forall|k: int| 0 <= k < spans@.len() ==> a <= (#[trigger] spans@[k]).0 < spans@[k].1 <= p,
            spans@.map_values(|q: (usize, usize)| chars@.subrange(q.0 as int, q.1 as int)) + words(
                chars@.subrange(p as int, b as int),
            ) == words(chars@.subrange(a as int, b as int)),
        decreases b - p,
    {
        let ghost rest = chars@.subrange(p as int, b as int);
        let ghost before = spans@.map_values(|q: (usize, usize)| chars@.subrange(q.0 as int, q.1 as int));
        if white_space(chars[p]) {
            assert(rest.drop_first() =~= chars@.subrange(p as int + 1, b as int));
            p = p + 1;
        } else {
            let mut q = p + 1;
            while q < b && !white_space(chars[q])
                invariant
                    p < q <= b <= chars@.len(),
                    forall|i: int| p <= i < q ==> !is_white_space(#[trigger] chars@[i]),
                decreases b - q,
            {
                q = q + 1;
            }
            proof {
                let w = q - p;
                assert forall|i: int| 0 <= i < w implies !is_white_space(#[trigger] rest[i]) by {
                    assert(rest[i] == chars@[p + i]);
                }
                if w < rest.len() {
                    assert(rest[w] == chars@[q as int]);
                }
                lemma_word_run(rest, w as int);
                assert(rest.take(w as int) =~= chars@.subrange(p as int, q as int));
                assert(rest.skip(w as int) =~= chars@.subrange(q as int, b as int));
                assert(words(rest) == seq![rest.take(w as int)] + words(rest.skip(w as int)));
            }
            spans.push((p, q));
            proof {
                let after = spans@.map_values(|r: (usize, usize)| chars@.subrange(r.0 as int, r.1 as int));
                assert(after =~= before.push(chars@.subrange(p as int, q as int)));
            }
            p = q;
        }
    }
    proof {
        assert(chars@.subrange(b as int, b as int) =~= Seq::<char>::empty());
        assert(words(chars@.subrange(b as int, b as int)) =~= Seq::<Seq<char>>::empty());
        let fin = spans@.map_values(|q: (usize, usize)| chars@.subrange(q.0 as int, q.1 as int));
        assert(fin + Seq::<Seq<char>>::empty() =~= fin);
    }
    spans
}


/// The board-relevant instruction of one G-code line.
pub enum GcodeCommand {
    /// Move to the coordinates written after the last `X` word and the last
    /// `Y` word of the line, when it has such words.
    Move { x: Option<String>, y: Option<String> },
    /// Lift the pen.
    PenUp,
    /// Lower the pen.
    PenDown,
}

/// An instruction seen as plain characters.
pub enum GcodeCommandView {
    Move { x: Option<Seq<char>>, y: Option<Seq<char>> },
    PenUp,
    PenDown,
}

/// An optional string seen as characters.
pub open spec fn opt_chars(o: Option<String>) -> Option<Seq<char>> {
    match o {
        Some(s) => Some(s@),
        None => None,
    }
}

impl View for GcodeCommand {
    type V = GcodeCommandView;

    open spec fn view(&self) -> GcodeCommandView {
        match self {
            GcodeCommand::Move { x, y } => GcodeCommandView::Move { x: opt_chars(*x), y: opt_chars(*y) },
            GcodeCommand::PenUp => GcodeCommandView::PenUp,
            GcodeCommand::PenDown => GcodeCommandView::PenDown,
        }
    }
}

/// The instructions of a list, seen as plain values.
pub open spec fn commands_view(v: Seq<GcodeCommand>) -> Seq<GcodeCommandView> {
    v.map_values(|c: GcodeCommand| c@)
}

/// The number of leading characters of `s` before its first line feed.
pub open spec fn line_len(s: Seq<char>) -> nat
    decreases s.len(),
{
    if s.len() == 0 || s[0] == '\n' {
        0
    } else {
        1 + line_len(s.drop_first())
    }
}

/// The lines of `s`: the text between line feeds, where a line feed at the
/// very end does not open another line.
pub open spec fn lines(s: Seq<char>) -> Seq<Seq<char>>
    decreases s.len(),
{
    if s.len() == 0 {
        Seq::empty()
    } else {
        let n = line_len(s);
        if n < s.len() {
            seq![s.take(n as int)] + lines(s.skip(n as int + 1))
        } else {
            seq![s]
        }
    }
}

/// What follows the leading `c` of the last word in `ws` that starts with
/// `c`.
pub open spec fn after_last_with_prefix(ws: Seq<Seq<char>>, c: char) -> Option<Seq<char>>
    decreases ws.len(),
{
    if ws.len() == 0 {
        None
    } else if ws.last().len() > 0 && ws.last()[0] == c {
        Some(ws.last().drop_first())
    } else {
        after_last_with_prefix(ws.drop_last(), c)
    }
}

/// The instructions of one line.
pub open spec fn line_commands(line: Seq<char>) -> Seq<GcodeCommandView> {
    let ws = words(line);
    if (line.len() > 0 && line[0] == ';') || ws.len() == 0 {
        Seq::empty()
    } else {
        let moves = if ws[0] == seq!['G', '0'] || ws[0] == seq!['G', '1'] {
            seq![
                GcodeCommandView::Move {
                    x: after_last_with_prefix(ws.drop_first(), 'X'),
                    y: after_last_with_prefix(ws.drop_first(), 'Y'),
                },
            ]
        } else {
            Seq::empty()
        };
        let up = if ws.contains(seq!['M', '4']) {
            seq![GcodeCommandView::PenUp]
        } else {
            Seq::empty()
        };
        let down = if ws.contains(seq!['M', '5']) {
            seq![GcodeCommandView::PenDown]
        } else {
            Seq::empty()
        };
        moves + up + down
    }
}

/// The instructions of a whole G-code text, line after line.
pub open spec fn gcode_commands(text: Seq<char>) -> Seq<GcodeCommandView> {
    lines(text).map_values(|l: Seq<char>| line_commands(l)).flatten()
}

fn chars_of(s: &str) -> (v: Vec<char>)
    ensures
        v@ == s@,
{
    let mut v: Vec<char> = Vec::new();
    for c in it: s.chars()
        invariant
            v@.len() == it.index(),
            forall|i: int| 0 <= i < v@.len() ==> v@[i] == it.seq()[i],
            it.seq() == s@,
    {
        v.push(c);
    }
    assert(v@ =~= s@);
    v
}


/// Whether the word at `span` is the two characters `c1`, `c2`.
fn word_is(chars: &Vec<char>, span: (usize, usize), c1: char, c2: char) -> (b: bool)
    requires
        span.0 <= span.1 <= chars@.len(),
    ensures
        b == (chars@.subrange(span.0 as int, span.1 as int) == seq![c1, c2]),
{
    let ghost w = chars@.subrange(span.0 as int, span.1 as int);
    if span.1 - span.0 == 2 && chars[span.0] == c1 && chars[span.0 + 1] == c2 {
        assert(w =~= seq![c1, c2]);
        true
    } else {
        proof {
            if w == seq![c1, c2] {
                assert(seq![c1, c2].len() == 2);
                assert(seq![c1, c2][0] == c1 && seq![c1, c2][1] == c2);
                assert(w[0] == chars@[span.0 as int]);
                assert(w[1] == chars@[span.0 + 1]);
            }
        }
        false
    }
}

/// Whether some word of `spans` is the two characters `c1`, `c2`.
fn any_word_is(chars: &Vec<char>, spans: &Vec<(usize, usize)>, c1: char, c2: char) -> (b: bool)
    requires
        forall|k: int| 0 <= k < spans@.len() ==> (#[trigger] spans@[k]).0 <= spans@[k].1 <= chars@.len(),
    ensures
        b == spans@.map_values(|p: (usize, usize)| chars@.subrange(p.0 as int, p.1 as int)).contains(
            seq![c1, c2],
        ),
{
    let ghost ws = spans@.map_values(|p: (usize, usize)| chars@.subrange(p.0 as int, p.1 as int));
    let mut k: usize = 0;
    while k < spans.len()
        invariant
            k <= spans@.len(),
            forall|k: int| 0 <= k < spans@.len() ==> (#[trigger] spans@[k]).0 <= spans@[k].1 <= chars@.len(),
            ws == spans@.map_values(|p: (usize, usize)| chars@.subrange(p.0 as int, p.1 as int)),
            forall|j: int| 0 <= j < k ==> ws[j] != seq![c1, c2],
        decreases spans@.len() - k,
    {
        if word_is(chars, spans[k], c1, c2) {
            assert(ws[k as int] == seq![c1, c2]);
            return true;
        }
        k = k + 1;
    }
    false
}

/// The text after the leading `c` of the last word among `spans[from..]`
/// that starts with `c`, as a position range in `chars`.
fn after_last(chars: &Vec<char>, spans: &Vec<(usize, usize)>, from: usize, c: char) -> (r: Option<(usize, usize)>)
    requires
        from <= spans@.len(),
        forall|k: int| 0 <= k < spans@.len() ==> (#[trigger] spans@[k]).0 < spans@[k].1 <= chars@.len(),
    ensures
        match r {
            Some(p) => p.0 <= p.1 <= chars@.len() && after_last_with_prefix(
                spans@.map_values(|p: (usize, usize)| chars@.subrange(p.0 as int, p.1 as int)).subrange(
                    from as int,
                    spans@.len() as int,
                ),
                c,
            ) == Some(chars@.subrange(p.0 as int, p.1 as int)),
            None => after_last_with_prefix(
                spans@.map_values(|p: (usize, usize)| chars@.subrange(p.0 as int, p.1 as int)).subrange(
                    from as int,
                    spans@.len() as int,
                ),
                c,
            ) is None,
        },
{
    let ghost ws = spans@.map_values(|p: (usize, usize)| chars@.subrange(p.0 as int, p.1 as int));
    let mut found: Option<(usize, usize)> = None;
    let mut k: usize = from;
    assert(ws.subrange(from as int, from as int) =~= Seq::<Seq<char>>::empty());
    while k < spans.len()
        invariant
            from <= k <= spans@.len(),
            forall|k: int| 0 <= k < spans@.len() ==> (#[trigger] spans@[k]).0 < spans@[k].1 <= chars@.len(),
            ws == spans@.map_values(|p: (usize, usize)| chars@.subrange(p.0 as int, p.1 as int)),
            match found {
                Some(p) => p.0 <= p.1 <= chars@.len() && after_last_with_prefix(ws.subrange(from as int, k as int), c)
                    == Some(chars@.subrange(p.0 as int, p.1 as int)),
                None => after_last_with_prefix(ws.subrange(from as int, k as int), c) is None,
            },
        decreases spans@.len() - k,
    {
        let span = spans[k];
        let ghost prefix = ws.subrange(from as int, k as int + 1);
        assert(prefix.drop_last() =~= ws.subrange(from as int, k as int));
        assert(prefix.last() == chars@.subrange(span.0 as int, span.1 as int));
        if chars[span.0] == c {
            assert(prefix.last().drop_first() =~= chars@.subrange(span.0 + 1, span.1 as int));
            found = Some((span.0 + 1, span.1));
        }
        k = k + 1;
    }
    found
}

/// The instructions of the line `chars[a..b]` of `text`.
fn line_commands_of(text: &str, chars: &Vec<char>, a: usize, b: usize) -> (cmds: Vec<GcodeCommand>)
    requires
        chars@ == text@,
        a <= b <= chars@.len(),
    ensures
        commands_view(cmds@) == line_commands(chars@.subrange(a as int, b as int)),
{
    let ghost line = chars@.subrange(a as int, b as int);
    let mut cmds: Vec<GcodeCommand> = Vec::new();
    if b > a && chars[a] == ';' {
        assert(line[0] == ';');
        assert(commands_view(cmds@) =~= Seq::<GcodeCommandView>::empty());
        return cmds;
    }
    let spans = word_spans(chars, a, b);
    let ghost ws = spans@.map_values(|p: (usize, usize)| chars@.subrange(p.0 as int, p.1 as int));
    assert(ws == words(line));
    if spans.len() == 0 {
        assert(commands_view(cmds@) =~= Seq::<GcodeCommandView>::empty());
        return cmds;
    }
    let ghost moves: Seq<GcodeCommandView> = Seq::empty();
    if word_is(chars, spans[0], 'G', '0') || word_is(chars, spans[0], 'G', '1') {
        let xr = after_last(chars, &spans, 1, 'X');
        let yr = after_last(chars, &spans, 1, 'Y');
        assert(ws.subrange(1, ws.len() as int) =~= ws.drop_first());
        let x = match xr {
            Some(p) => Some(String::from_str(text.substring_char(p.0, p.1))),
            None => None,
        };
        let y = match yr {
            Some(p) => Some(String::from_str(text.substring_char(p.0, p.1))),
            None => None,
        };
        cmds.push(GcodeCommand::Move { x, y });
        proof {
            moves = seq![
                GcodeCommandView::Move {
                    x: after_last_with_prefix(ws.drop_first(), 'X'),
                    y: after_last_with_prefix(ws.drop_first(), 'Y'),
                },
            ];
            assert(commands_view(cmds@) =~= moves);
        }
    } else {
        assert(commands_view(cmds@) =~= moves);
    }
    let ghost before_up = commands_view(cmds@);
    if any_word_is(chars, &spans, 'M', '4') {
        cmds.push(GcodeCommand::PenUp);
        assert(commands_view(cmds@) =~= before_up.push(GcodeCommandView::PenUp));
    }
    let ghost before_down = commands_view(cmds@);
    if any_word_is(chars, &spans, 'M', '5') {
        cmds.push(GcodeCommand::PenDown);
        assert(commands_view(cmds@) =~= before_down.push(GcodeCommandView::PenDown));
    }
    proof {
        let up = if ws.contains(seq!['M', '4']) {
            seq![GcodeCommandView::PenUp]
        } else {
            Seq::empty()
        };
        let down = if ws.contains(seq!['M', '5']) {
            seq![GcodeCommandView::PenDown]
        } else {
            Seq::empty()
        };
        assert(commands_view(cmds@) =~= moves + up + down);
    }
    cmds
}


proof fn lemma_line_run(s: Seq<char>, w: int)
    requires
        0 <= w <= s.len(),
        forall|i: int| 0 <= i < w ==> #[trigger] s[i] != '\n',
        w < s.len() ==> s[w] == '\n',
    ensures
        line_len(s) == w,
    decreases w,
{
    if w > 0 {
        let t = s.drop_first();
        assert(s[0] != '\n');
        assert forall|i: int| 0 <= i < w - 1 implies #[trigger] t[i] != '\n' by {
            assert(t[i] == s[i + 1]);
        }
        if w - 1 < t.len() {
            assert(t[w - 1] == s[w]);
        }
        lemma_line_run(t, w - 1);
        assert(line_len(s) == 1 + line_len(t));
    }
}

/// The instructions of a G-code text: for each line, in order, a move for a
/// `G0` or `G1` line, then `PenUp` for an `M4` in it, then `PenDown` for an
/// `M5` in it.
pub fn parse_gcode(gcode: &str) -> (cmds: Vec<GcodeCommand>)
    ensures
        commands_view(cmds@) == gcode_commands(gcode@),
{
    let chars = chars_of(gcode);
    let n = chars.len();
    let mut cmds: Vec<GcodeCommand> = Vec::new();
    let mut pos: usize = 0;
    assert(chars@.skip(0) =~= chars@);
    while pos < n
        invariant
            n == chars@.len(),
            chars@ == gcode@,
            pos <= n,
            commands_view(cmds@) + gcode_commands(chars@.skip(pos as int)) == gcode_commands(chars@),
        decreases n - pos,
    {
        let mut q = pos;
        while q < n && chars[q] != '\n'
            invariant
                pos <= q <= n,
                n == chars@.len(),
                forall|i: int| pos <= i < q ==> #[trigger] chars@[i] != '\n',
            decreases n - q,
        {
            q = q + 1;
        }
        let ghost rest = chars@.skip(pos as int);
        let ghost before = commands_view(cmds@);
        let mut line = line_commands_of(gcode, &chars, pos, q);
        proof {
            let w = q - pos;
            assert forall|i: int| 0 <= i < w implies #[trigger] rest[i] != '\n' by {
                assert(rest[i] == chars@[pos + i]);
            }
            if w < rest.len() {
                assert(rest[w as int] == chars@[q as int]);
            }
            lemma_line_run(rest, w as int);
            assert(rest.take(w as int) =~= chars@.subrange(pos as int, q as int));
        }
        let ghost this_line = commands_view(line@);
        cmds.append(&mut line);
        proof {
            assert(commands_view(cmds@) =~= before + this_line);
        }
        if q < n {
            proof {
                let w = (q - pos) as int;
                assert(rest.skip(w + 1) =~= chars@.skip(q as int + 1));
                assert(lines(rest) == seq![rest.take(w)] + lines(rest.skip(w + 1)));
                let f = |l: Seq<char>| line_commands(l);
                let ms = lines(rest).map_values(f);
                assert(ms =~= seq![line_commands(rest.take(w))] + lines(rest.skip(w + 1)).map_values(f));
                assert(ms.drop_first() =~= lines(rest.skip(w + 1)).map_values(f));
                assert(ms.flatten() == ms.first() + ms.drop_first().flatten());
                assert(ms.first() == this_line);
                assert(gcode_commands(rest) == ms.flatten());
                assert(gcode_commands(chars@.skip(q as int + 1)) == lines(rest.skip(w + 1)).map_values(f).flatten());
                assert(gcode_commands(rest) == this_line + gcode_commands(chars@.skip(q as int + 1)));
            }
            pos = q + 1;
        } else {
            proof {
                assert(rest.len() > 0);
                assert(lines(rest) == seq![rest]);
                assert(rest =~= chars@.subrange(pos as int, q as int));
                let f = |l: Seq<char>| line_commands(l);
                let ms = lines(rest).map_values(f);
                assert(ms =~= seq![line_commands(rest)]);
                assert(ms.drop_first() =~= Seq::<Seq<GcodeCommandView>>::empty());
                assert(ms.drop_first().flatten() =~= Seq::<GcodeCommandView>::empty());
                assert(ms.flatten() == ms.first() + ms.drop_first().flatten());
                assert(line_commands(rest) == this_line);
                assert(gcode_commands(rest) == ms.flatten());
                assert(gcode_commands(rest) =~= this_line);
                assert(chars@.skip(n as int) =~= Seq::<char>::empty());
                assert(gcode_commands(chars@.skip(n as int)) =~= Seq::<GcodeCommandView>::empty());
            }
            pos = n;
        }
    }
    proof {
        assert(chars@.skip(n as int) =~= Seq::<char>::empty());
        assert(gcode_commands(chars@.skip(n as int)) =~= Seq::<GcodeCommandView>::empty());
        assert(commands_view(cmds@) + Seq::<GcodeCommandView>::empty() =~= commands_view(cmds@));
    }
    cmds
}

/// Each line is read alone: the instructions of a line followed by a line
/// feed and more text are those of the line, then those of the rest.
pub proof fn law_lines_are_read_alone(line: Seq<char>, rest: Seq<char>)
    requires
        !line.contains('\n'),
    ensures
        gcode_commands(line + seq!['\n'] + rest) == line_commands(line) + gcode_commands(rest),
{
    let s = line + seq!['\n'] + rest;
    let w = line.len() as int;
    assert forall|i: int| 0 <= i < w implies #[trigger] s[i] != '\n' by {
        assert(s[i] == line[i]);
    }
    assert(s[w] == '\n');
    lemma_line_run(s, w);
    assert(s.take(w) =~= line);
    assert(s.skip(w + 1) =~= rest);
    assert(lines(s) == seq![line] + lines(rest));
    let f = |l: Seq<char>| line_commands(l);
    let ms = lines(s).map_values(f);
    assert(ms =~= seq![line_commands(line)] + lines(rest).map_values(f));
    assert(ms.drop_first() =~= lines(rest).map_values(f));
    assert(ms.flatten() == ms.first() + ms.drop_first().flatten());
}

} // verus!
