use vstd::prelude::*;
use vstd::std_specs::iter::IteratorSpec;

verus! {

/// Horizontal advance of one glyph or space, in pixels.
pub const GLYPH_ADVANCE: i64 = 4;

/// Vertical advance of one line, in pixels.
pub const LINE_ADVANCE: i64 = 5;

/// Character codes below this select a text color.
pub const COLOR_CODES: u32 = 6;

/// Color a text starts in.
pub const START_COLOR: u8 = 1;

/// One glyph to draw: its pen position relative to where the text starts,
/// its cell in the font sheet and its color.
#[derive(PartialEq, Eq, Structural, Clone, Copy, Debug)]
pub struct Glyph {
    pub x: i64,
    pub y: i64,
    pub index: u8,
    pub color: u8,
}

/// State of the pen while a text is laid out.
pub struct Pen {
    pub x: int,
    pub y: int,
    pub line_start: bool,
    pub color: int,
    pub glyphs: Seq<Glyph>,
}

/// Low byte of a character's code, as a cast to `u8` gives it.
pub open spec fn low_byte(c: char) -> int {
    (c as u32 as int) % 256
}

/// Font cell of a character; nothing for a character the font lacks.
pub open spec fn glyph_of(c: char) -> Option<u8> {
    if c == ':' {
        Some(36u8)
    } else if c == '.' {
        Some(37u8)
    } else if c == '-' {
        Some(38u8)
    } else if c == '%' {
        Some(39u8)
    } else if c == '+' {
        Some(40u8)
    } else if c == '/' {
        Some(41u8)
    } else if c == 'H' {
        Some(42u8)
    } else if c == '(' {
        Some(43u8)
    } else if c == ')' {
        Some(44u8)
    } else if c == '!' {
        Some(45u8)
    } else if c == '?' {
        Some(46u8)
    } else if 97 <= low_byte(c) <= 122 {
        Some((low_byte(c) - 97) as u8)
    } else if 48 <= low_byte(c) <= 57 {
        Some((low_byte(c) - 48 + 26) as u8)
    } else {
        None
    }
}

/// The pen after one character: a newline starts a line, a space advances
/// except at the start of a line, a color code switches color, and a
/// character of the font is drawn and advances.
pub open spec fn pen_step(p: Pen, c: char) -> Pen {
    if c == '\n' {
        Pen { x: 0, y: p.y + LINE_ADVANCE, line_start: true, ..p }
    } else if c == ' ' {
        if p.line_start {
            p
        } else {
            Pen { x: p.x + GLYPH_ADVANCE, ..p }
        }
    } else {
        let color = if low_byte(c) < COLOR_CODES {
            low_byte(c)
        } else {
            p.color
        };
        match glyph_of(c) {
            Some(i) => Pen {
                x: p.x + GLYPH_ADVANCE,
                y: p.y,
                line_start: false,
                color,
                glyphs: p.glyphs.push(Glyph { x: p.x as i64, y: p.y as i64, index: i, color: color as u8 }),
            },
            None => Pen { color, ..p },
        }
    }
}

/// The pen after laying out the characters `s`.
pub open spec fn layout(s: Seq<char>) -> Pen
    decreases s.len(),
{
    if s.len() == 0 {
        Pen { x: 0, y: 0, line_start: true, color: START_COLOR as int, glyphs: Seq::empty() }
    } else {
        pen_step(layout(s.drop_last()), s.last())
    }
}

pub fn glyph_index(c: char) -> (r: Option<u8>)
    ensures
        r == glyph_of(c),
{
    let code: u32 = (c as u32) % 256;
    if c == ':' {
        Some(36)
    } else if c == '.' {
        Some(37)
    } else if c == '-' {
        Some(38)
    } else if c == '%' {
        Some(39)
    } else if c == '+' {
        Some(40)
    } else if c == '/' {
        Some(41)
    } else if c == 'H' {
        Some(42)
    } else if c == '(' {
        Some(43)
    } else if c == ')' {
        Some(44)
    } else if c == '!' {
        Some(45)
    } else if c == '?' {
        Some(46)
    } else if 97 <= code && code <= 122 {
        Some((code - 97) as u8)
    } else if 48 <= code && code <= 57 {
        Some((code - 48 + 26) as u8)
    } else {
        None
    }
}

/// Lays a text out in the font: the glyphs to draw, in order, and how far
/// the pen moved across and down.
pub fn layout_text(text: &str) -> (r: (Vec<Glyph>, i64, i64))
    requires
        text@.len() < 0x1000_0000_0000_0000,
    ensures
        r.0@ == layout(text@).glyphs,
        r.1 == layout(text@).x,
        r.2 == layout(text@).y,
{
    broadcast use vstd::string::axiom_spec_iter, vstd::string::next_postcondition;
    let mut glyphs: Vec<Glyph> = Vec::new();
    let mut x: i64 = 0;
    let mut y: i64 = 0;
    let mut line_start = true;
    let mut color: u8 = START_COLOR;
    let mut it = text.chars();
    let ghost mut done: Seq<char> = Seq::empty();
    loop
        invariant
            text@.len() < 0x1000_0000_0000_0000,
            done + it.remaining() == text@,
            it.obeys_prophetic_iter_laws(),
            it.decrease() is Some,
            ({
                let p = layout(done);
                &&& p.x == x && p.y == y && p.line_start == line_start && p.color == color
                &&& p.glyphs == glyphs@
            }),
            0 <= x <= 4 * done.len(),
            0 <= y <= 5 * done.len(),
        ensures
            layout(text@).glyphs == glyphs@,
            layout(text@).x == x,
            layout(text@).y == y,
        decreases it.decrease()->0,
    {
        let ghost before = done;
        match it.next() {
            None => {
                assert(done =~= text@);
                break;
            },
            Some(c) => {
                proof {
                    done = done.push(c);
                    assert(done.drop_last() =~= before);
                }
                if c == '\n' {
                    line_start = true;
                    y = y + LINE_ADVANCE;
                    x = 0;
                } else if c == ' ' {
                    if !line_start {
                        x = x + GLYPH_ADVANCE;
                    }
                } else {
                    let code: u32 = (c as u32) % 256;
                    if code < COLOR_CODES {
                        color = code as u8;
                    }
                    match glyph_index(c) {
                        Some(i) => {
                            line_start = false;
                            glyphs.push(Glyph { x, y, index: i, color });
                            x = x + GLYPH_ADVANCE;
                        },
                        None => {},
                    }
                }
            },
        }
    }
    (glyphs, x, y)
}

/// Whether `c` is white space in Unicode's sense, as `char::is_whitespace`
/// and `str::trim` take it.
pub open spec fn is_white(c: char) -> bool {
    let u = c as u32;
    (0x9 <= u <= 0xd) || u == 0x20 || u == 0x85 || u == 0xa0 || u == 0x1680 || (0x2000 <= u
        <= 0x200a) || u == 0x2028 || u == 0x2029 || u == 0x202f || u == 0x205f || u == 0x3000
}

/// Bytes that `c` takes in UTF-8.
pub open spec fn utf8_len(c: char) -> int {
    let u = c as u32;
    if u < 0x80 {
        1
    } else if u < 0x800 {
        2
    } else if u < 0x10000 {
        3
    } else {
        4
    }
}

/// State of the measure of a text bubble, character by character: the widest
/// finished line, the number of finished lines, and for the line under way
/// whether it has any character, whether it has one that is not white, the
/// bytes from its first to its last such character, and the white bytes
/// after that last one.
pub struct Measure {
    pub widest: int,
    pub lines: int,
    pub open: bool,
    pub seen: bool,
    pub core: int,
    pub pending: int,
}

pub open spec fn measure_step(m: Measure, c: char) -> Measure {
    if c == '\n' {
        Measure {
            widest: if m.core > m.widest {
                m.core
            } else {
                m.widest
            },
            lines: m.lines + 1,
            open: false,
            seen: false,
            core: 0,
            pending: 0,
        }
    } else if is_white(c) {
        Measure { open: true, pending: if m.seen {
            m.pending + utf8_len(c)
        } else {
            0
        }, ..m }
    } else {
        Measure {
            open: true,
            seen: true,
            core: if m.seen {
                m.core + m.pending + utf8_len(c)
            } else {
                utf8_len(c)
            },
            pending: 0,
            ..m
        }
    }
}

pub open spec fn measure(s: Seq<char>) -> Measure
    decreases s.len(),
{
    if s.len() == 0 {
        Measure { widest: 0, lines: 0, open: false, seen: false, core: 0, pending: 0 }
    } else {
        measure_step(measure(s.drop_last()), s.last())
    }
}

/// Size of a text bubble in characters: the byte length of the longest line
/// once trimmed, and the number of lines, lines split at `\n` with a final
/// line ending optional.
pub open spec fn bubble_of(s: Seq<char>) -> (int, int) {
    let m = measure(s);
    if m.open {
        (if m.core > m.widest {
            m.core
        } else {
            m.widest
        }, m.lines + 1)
    } else {
        (m.widest, m.lines)
    }
}

fn utf8_len_of(c: char) -> (r: u64)
    ensures
        r == utf8_len(c),
{
    let u = c as u32;
    if u < 0x80 {
        1
    } else if u < 0x800 {
        2
    } else if u < 0x10000 {
        3
    } else {
        4
    }
}

fn is_white_char(c: char) -> (r: bool)
    ensures
        r == is_white(c),
{
    let u = c as u32;
    (0x9 <= u && u <= 0xd) || u == 0x20 || u == 0x85 || u == 0xa0 || u == 0x1680 || (0x2000 <= u
        && u <= 0x200a) || u == 0x2028 || u == 0x2029 || u == 0x202f || u == 0x205f || u == 0x3000
}

/// Width and height, in characters, of the bubble that shows `text`.
pub fn bubble_size(text: &str) -> (r: (u64, u64))
    requires
        text@.len() < 0x1000_0000_0000_0000,
    ensures
        r.0 == bubble_of(text@).0,
        r.1 == bubble_of(text@).1,
{
    broadcast use vstd::string::axiom_spec_iter, vstd::string::next_postcondition;
    let mut widest: u64 = 0;
    let mut lines: u64 = 0;
    let mut open = false;
    let mut seen = false;
    let mut core: u64 = 0;
    let mut pending: u64 = 0;
    let mut it = text.chars();
    let ghost mut done: Seq<char> = Seq::empty();
    loop
        invariant
            text@.len() < 0x1000_0000_0000_0000,
            done + it.remaining() == text@,
            it.obeys_prophetic_iter_laws(),
            it.decrease() is Some,
            ({
                let m = measure(done);
                &&& m.widest == widest && m.lines == lines && m.open == open && m.seen == seen
                &&& m.core == core && m.pending == pending
            }),
            done.len() <= text@.len(),
            widest <= 4 * done.len(),
            lines <= done.len(),
            core + pending <= 4 * done.len(),
        ensures
            lines < 0x1000_0000_0000_0000,
            bubble_of(text@).0 == (if open && core > widest {
                core
            } else {
                widest
            }),
            bubble_of(text@).1 == (if open {
                lines + 1
            } else {
                lines as int
            }),
        decreases it.decrease()->0,
    {
        let ghost before = done;
        let ghost rest = it.remaining();
        match it.next() {
            None => {
                assert(done =~= text@);
                break;
            },
            Some(c) => {
                proof {
                    assert(rest.len() > 0);
                    assert(before.len() + rest.len() == text@.len()) by {
                        assert((before + rest).len() == text@.len());
                    }
                    done = done.push(c);
                    assert(done.drop_last() =~= before);
                }
                if c == '\n' {
                    if core > widest {
                        widest = core;
                    }
                    lines = lines + 1;
                    open = false;
                    seen = false;
                    core = 0;
                    pending = 0;
                } else if is_white_char(c) {
                    open = true;
                    if seen {
                        pending = pending + utf8_len_of(c);
                    } else {
                        pending = 0;
                    }
                } else {
                    open = true;
                    if seen {
                        core = core + pending + utf8_len_of(c);
                    } else {
                        core = utf8_len_of(c);
                    }
                    seen = true;
                    pending = 0;
                }
            },
        }
    }
    if open {
        (if core > widest {
            core
        } else {
            widest
        }, lines + 1)
    } else {
        (widest, lines)
    }
}

} // verus!
