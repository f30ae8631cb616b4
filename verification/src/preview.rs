//! A picture of a job, drawn from its G-code: the OrcaSlicer CLI renders no thumbnail on 2.4.2,
//! so every extruding move is drawn as seen from above the bed's front-left corner.
//!
//! Positions are exact, in units of 10^-18 mm.

use vstd::prelude::*;

use crate::decimal;
use crate::text;

verus! {

/// Side of the square PNG, in pixels.
pub const SIZE: usize = 256;

/// Drawn at this multiple of `SIZE` and averaged down, which smooths the edges.
pub const SUPERSAMPLE: usize = 2;

/// A millimetre.
pub const MM: i128 = 1_000_000_000_000_000_000;

/// Positions further out than this count as this far out.
pub const FAR: i128 = 50_000_000_000_000_000_000_000_000_000_000_000_000;

#[derive(Debug, Clone, Copy, PartialEq, Eq, Structural)]
pub struct Color {
    pub r: u8,
    pub g: u8,
    pub b: u8,
}

pub open spec fn gray() -> Color {
    Color { r: 0x9a, g: 0xa0, b: 0xa6 }
}

/// What is drawn in when a file names no colour.
pub fn fallback_color() -> (r: Color)
    ensures
        r == gray(),
{
    Color { r: 0x9a, g: 0xa0, b: 0xa6 }
}

#[derive(Debug, Clone, Copy, PartialEq, Eq, Structural)]
pub struct Point {
    pub x: i128,
    pub y: i128,
    pub z: i128,
}

/// An extruding move.
#[derive(Debug, Clone, Copy, PartialEq, Eq, Structural)]
pub struct Line {
    pub from: Point,
    pub to: Point,
    pub tool: u8,
    pub wall: bool,
}

// ---------------------------------------------------------------------------------------------
// Numbers
// ---------------------------------------------------------------------------------------------

/// A plain decimal such as `-12.345`, in units of 10^-18. More digits than eighteen is not
/// G-code a slicer writes.
pub open spec fn number(s: Seq<char>) -> Option<int> {
    let negative = s.len() > 0 && s[0] == '-';
    let body = if negative {
        s.skip(1)
    } else {
        s
    };
    let point = text::find(body, '.', 0);
    let whole = body.take(point);
    let fraction = if point < body.len() {
        body.skip(point + 1)
    } else {
        seq![]
    };
    let digits = whole + fraction;
    if text::all_digits(digits) && 1 <= digits.len() <= 18 {
        let size = text::digits_value(digits) * decimal::pow10((18 - fraction.len()) as nat);
        Some(
            if negative {
                -(size as int)
            } else {
                size as int
            },
        )
    } else {
        None
    }
}

fn power_of_ten(n: usize) -> (r: i128)
    requires
        n <= 18,
    ensures
        r == decimal::pow10(n as nat),
        1 <= r <= 1_000_000_000_000_000_000,
{
    let mut power: i128 = 1;
    let mut i: usize = 0;
    proof {
        decimal::lemma_pow10_values();
    }
    while i < n
        invariant
            i <= n <= 18,
            power == decimal::pow10(i as nat),
            1 <= power <= 1_000_000_000_000_000_000,
        decreases n - i,
    {
        i += 1;
        proof {
            decimal::lemma_pow10_grows(i as nat, 18);
            decimal::lemma_pow10_values();
        }
        power = power * 10;
    }
    power
}

fn slice_is_digits(s: &[char]) -> (r: bool)
    ensures
        r == text::all_digits(s@),
{
    let mut i: usize = 0;
    while i < s.len()
        invariant
            i <= s@.len(),
            forall|k: int| 0 <= k < i ==> text::is_digit(#[trigger] s@[k]),
        decreases s.len() - i,
    {
        if !text::char_is_digit(s[i]) {
            assert(!text::is_digit(s@[i as int]));
            return false;
        }
        i += 1;
    }
    true
}

/// G-code numbers are plain decimals such as `-12.345`.
pub fn parse_number(s: &[char]) -> (r: Option<i128>)
    ensures
        match r {
            Some(n) => number(s@) == Some(n as int) && -MM * MM <= n <= MM * MM,
            None => number(s@) is None,
        },
{
    let negative = s.len() > 0 && s[0] == '-';
    let body = if negative {
        vstd::slice::slice_subrange(s, 1, s.len())
    } else {
        s
    };
    assert(negative ==> body@ =~= s@.skip(1));
    let point = text::find_char(body, '.', 0);
    let ghost fraction = if point < body@.len() {
        body@.skip(point + 1)
    } else {
        seq![]
    };
    let mut digits: Vec<char> = Vec::new();
    digits.extend_from_slice(vstd::slice::slice_subrange(body, 0, point));
    let mut places: usize = 0;
    if point < body.len() {
        digits.extend_from_slice(vstd::slice::slice_subrange(body, point + 1, body.len()));
        places = body.len() - point - 1;
    }
    assert(digits@ =~= body@.take(point as int) + fraction);
    if digits.len() < 1 || digits.len() > 18 || !slice_is_digits(digits.as_slice()) {
        return None;
    }
    let mantissa: u64 = decimal::small_value(digits.as_slice());
    proof {
        decimal::lemma_digits_below(digits@);
        decimal::lemma_pow10_grows(digits@.len(), 18);
        decimal::lemma_pow10_values();
    }
    let power: i128 = power_of_ten(18 - places);
    assert(0 <= mantissa * power <= MM * MM) by (nonlinear_arith)
        requires
            0 <= mantissa <= 1_000_000_000_000_000_000,
            1 <= power <= 1_000_000_000_000_000_000,
            MM == 1_000_000_000_000_000_000,
    ;
    let size: i128 = mantissa as i128 * power;
    if negative {
        Some(-size)
    } else {
        Some(size)
    }
}

// ---------------------------------------------------------------------------------------------
// Colours
// ---------------------------------------------------------------------------------------------

/// The value of two hexadecimal digits, or of one behind a plus sign.
pub open spec fn channel(hex: Seq<char>, i: int) -> Option<int> {
    if i + 2 > hex.len() || !text::is_hex_digit(hex[i + 1]) {
        None
    } else if text::is_hex_digit(hex[i]) {
        Some(16 * text::hex_value(hex[i]) + text::hex_value(hex[i + 1]))
    } else if hex[i] == '+' {
        Some(text::hex_value(hex[i + 1]))
    } else {
        None
    }
}

pub open spec fn color_named(raw: Seq<char>) -> Color {
    let hex = text::skip_leading(text::trim(raw), '#');
    match (channel(hex, 0), channel(hex, 2), channel(hex, 4)) {
        (Some(r), Some(g), Some(b)) => Color { r: r as u8, g: g as u8, b: b as u8 },
        _ => gray(),
    }
}

fn find_channel(hex: &[char], i: usize) -> (r: Option<u8>)
    requires
        i <= 4,
    ensures
        match r {
            Some(value) => channel(hex@, i as int) == Some(value as int),
            None => channel(hex@, i as int) is None,
        },
{
    if hex.len() < i + 2 || !text::char_is_hex(hex[i + 1]) {
        None
    } else if text::char_is_hex(hex[i]) {
        Some(16 * text::char_hex_value(hex[i]) + text::char_hex_value(hex[i + 1]))
    } else if hex[i] == '+' {
        Some(text::char_hex_value(hex[i + 1]))
    } else {
        None
    }
}

pub fn parse_color(raw: &[char]) -> (r: Color)
    ensures
        r == color_named(raw@),
{
    let hex = text::without_leading(text::trimmed(raw), '#');
    match (find_channel(hex, 0), find_channel(hex, 2), find_channel(hex, 4)) {
        (Some(r), Some(g), Some(b)) => Color { r, g, b },
        _ => fallback_color(),
    }
}

/// Bytes as text, with a replacement character for what is not UTF-8.
pub uninterp spec fn lossy(bytes: Seq<u8>) -> Seq<char>;

/// `String::from_utf8_lossy`: UTF-8 is read as what it says; what is not UTF-8 is replaced.
#[verifier::external_body]
pub(crate) fn read_lossy(bytes: &[u8]) -> (r: String)
    ensures
        r@ == lossy(bytes@),
        vstd::utf8::valid_utf8(bytes@) ==> r@ == vstd::utf8::decode_utf8(bytes@),
{
    String::from_utf8_lossy(bytes).into_owned()
}

pub open spec fn colors_listed(list: Seq<char>) -> Seq<Color>
    decreases list.len(),
    via colors_listed_decreases
{
    match text::split_once(list, ';') {
        Some((first, rest)) => seq![color_named(first)] + colors_listed(rest),
        None => seq![color_named(list)],
    }
}

#[via_fn]
proof fn colors_listed_decreases(list: Seq<char>) {
    text::lemma_find(list, ';', 0);
}

fn read_colors(list: &[char]) -> (r: Vec<Color>)
    ensures
        r@ == colors_listed(list@),
{
    let mut colors: Vec<Color> = Vec::new();
    let mut rest = list;
    assert(colors@ + colors_listed(rest@) =~= colors_listed(list@));
    loop
        invariant_except_break
            colors@ + colors_listed(rest@) == colors_listed(list@),
        ensures
            colors@ == colors_listed(list@),
        decreases rest@.len(),
    {
        proof {
            text::lemma_find(rest@, ';', 0);
        }
        match text::split_at_char(rest, ';') {
            Some((first, more)) => {
                let ghost before = colors@;
                let color = parse_color(first);
                colors.push(color);
                assert(before + (seq![color] + colors_listed(more@)) =~= colors@ + colors_listed(
                    more@,
                ));
                rest = more;
            },
            None => {
                let ghost before = colors@;
                colors.push(parse_color(rest));
                assert(colors@ =~= before + colors_listed(rest@));
                break ;
            },
        }
    }
    colors
}

// ---------------------------------------------------------------------------------------------
// Moves
// ---------------------------------------------------------------------------------------------

/// Where the machine is, and how it reads what comes.
#[derive(Debug, Clone, Copy, PartialEq, Eq, Structural)]
pub struct Walker {
    pub at: Point,
    pub extruder: i128,
    pub relative: bool,
    pub relative_e: bool,
    /// Start and end G-code (`;TYPE:Custom`, which holds the purge line) and supports, which
    /// would hide the model.
    pub hidden: bool,
    pub wall: bool,
    pub tool: u8,
}

/// What a file draws, so far.
pub ghost struct Drawing {
    pub walker: Walker,
    pub lines: Seq<Line>,
    pub colors: Seq<Color>,
}

/// Bytes as the characters with their numbers.
pub open spec fn latin(bytes: Seq<u8>) -> Seq<char> {
    bytes.map_values(|b: u8| b as char)
}

pub open spec fn is_blank(c: char) -> bool {
    c == ' ' || c == '\t' || c == '\n' || c == '\x0C' || c == '\r'
}

/// The first position from `i` on that holds a blank.
pub open spec fn word_end(s: Seq<char>, i: int) -> int
    decreases s.len() - i,
{
    if 0 <= i < s.len() && !is_blank(s[i]) {
        word_end(s, i + 1)
    } else {
        i
    }
}

/// The words from position `i` on, between blanks.
pub open spec fn words_from(s: Seq<char>, i: int) -> Seq<Seq<char>>
    decreases s.len() - i,
    via words_from_decreases
{
    if i < 0 || i >= s.len() {
        seq![]
    } else if is_blank(s[i]) {
        words_from(s, i + 1)
    } else {
        seq![s.subrange(i, word_end(s, i))] + words_from(s, word_end(s, i))
    }
}

proof fn lemma_word_end(s: Seq<char>, i: int)
    requires
        0 <= i <= s.len(),
    ensures
        i <= word_end(s, i) <= s.len(),
        i < s.len() && !is_blank(s[i]) ==> i < word_end(s, i),
    decreases s.len() - i,
{
    if i < s.len() && !is_blank(s[i]) {
        lemma_word_end(s, i + 1);
    }
}

#[via_fn]
proof fn words_from_decreases(s: Seq<char>, i: int) {
    if 0 <= i < s.len() && !is_blank(s[i]) {
        lemma_word_end(s, i);
    }
}

/// The axes that some words set, and to what.
pub open spec fn settings(words: Seq<Seq<char>>) -> Seq<(char, int)>
    decreases words.len(),
{
    if words.len() == 0 {
        seq![]
    } else {
        let before = settings(words.drop_last());
        let word = words.last();
        if word.len() == 0 {
            before
        } else {
            match number(word.skip(1)) {
                Some(value) => before.push((word[0], value)),
                None => before,
            }
        }
    }
}

pub open spec fn clamped(n: int) -> i128 {
    if n > FAR {
        FAR
    } else if n < -FAR {
        (-FAR) as i128
    } else {
        n as i128
    }
}

/// `G92`: the axes are from now on called what they are set to.
pub open spec fn renamed(walker: Walker, values: Seq<(char, int)>) -> Walker
    decreases values.len(),
{
    if values.len() == 0 {
        walker
    } else {
        let before = renamed(walker, values.drop_last());
        let (axis, value) = values.last();
        if axis == 'X' {
            Walker { at: Point { x: clamped(value), ..before.at }, ..before }
        } else if axis == 'Y' {
            Walker { at: Point { y: clamped(value), ..before.at }, ..before }
        } else if axis == 'Z' {
            Walker { at: Point { z: clamped(value), ..before.at }, ..before }
        } else if axis == 'E' {
            Walker { extruder: clamped(value), ..before }
        } else {
            before
        }
    }
}

/// Where a move goes, where the extruder is after it, and how far it went.
pub ghost struct Target {
    pub to: Point,
    pub extruder: i128,
    pub extruded: i128,
}

pub open spec fn target(walker: Walker, values: Seq<(char, int)>) -> Target
    decreases values.len(),
{
    if values.len() == 0 {
        Target { to: walker.at, extruder: walker.extruder, extruded: 0 }
    } else {
        let before = target(walker, values.drop_last());
        let (axis, value) = values.last();
        if axis == 'X' {
            let x = clamped(
                if walker.relative {
                    walker.at.x + value
                } else {
                    value
                },
            );
            Target { to: Point { x, ..before.to }, ..before }
        } else if axis == 'Y' {
            let y = clamped(
                if walker.relative {
                    walker.at.y + value
                } else {
                    value
                },
            );
            Target { to: Point { y, ..before.to }, ..before }
        } else if axis == 'Z' {
            let z = clamped(
                if walker.relative {
                    walker.at.z + value
                } else {
                    value
                },
            );
            Target { to: Point { z, ..before.to }, ..before }
        } else if axis == 'E' {
            let extruded = clamped(
                if walker.relative_e {
                    value
                } else {
                    value - before.extruder
                },
            );
            Target { extruder: clamped(before.extruder + extruded), extruded, ..before }
        } else {
            before
        }
    }
}

/// A tool number without its fraction, as far as a byte can hold it.
pub open spec fn tool_index(value: int) -> u8 {
    let index = value / (MM as int);
    if value < 0 {
        0
    } else if index > 255 {
        255
    } else {
        index as u8
    }
}

pub open spec fn is_move(command: Seq<char>) -> bool {
    command == "G0"@ || command == "G1"@ || command == "G2"@ || command == "G3"@
}

/// What a command does. Arcs (G2/G3) are drawn as their chord.
pub open spec fn commanded(drawing: Drawing, words: Seq<Seq<char>>) -> Drawing {
    let walker = drawing.walker;
    if words.len() == 0 {
        drawing
    } else {
        let command = words[0];
        let values = settings(words.skip(1));
        if command == "G90"@ {
            Drawing { walker: Walker { relative: false, ..walker }, ..drawing }
        } else if command == "G91"@ {
            Drawing { walker: Walker { relative: true, ..walker }, ..drawing }
        } else if command == "M82"@ {
            Drawing { walker: Walker { relative_e: false, ..walker }, ..drawing }
        } else if command == "M83"@ {
            Drawing { walker: Walker { relative_e: true, ..walker }, ..drawing }
        } else if command == "G92"@ {
            Drawing { walker: renamed(walker, values), ..drawing }
        } else if is_move(command) {
            let target = target(walker, values);
            let moved = target.to.x != walker.at.x || target.to.y != walker.at.y;
            Drawing {
                walker: Walker { at: target.to, extruder: target.extruder, ..walker },
                lines: if command != "G0"@ && target.extruded > 0 && moved && !walker.hidden {
                    drawing.lines.push(
                        Line {
                            from: walker.at,
                            to: target.to,
                            tool: walker.tool,
                            wall: walker.wall,
                        },
                    )
                } else {
                    drawing.lines
                },
                ..drawing
            }
        } else if command.len() > 0 && command[0] == 'T' {
            match number(command.skip(1)) {
                Some(value) => Drawing {
                    walker: Walker { tool: tool_index(value), ..walker },
                    ..drawing
                },
                None => drawing,
            }
        } else {
            drawing
        }
    }
}

/// Without the blanks at the start.
pub open spec fn skip_blanks(s: Seq<u8>) -> Seq<u8>
    decreases s.len(),
{
    if s.len() > 0 && is_blank(s[0] as char) {
        skip_blanks(s.skip(1))
    } else {
        s
    }
}

/// Without the blanks at the end.
pub open spec fn drop_blanks(s: Seq<u8>) -> Seq<u8>
    decreases s.len(),
{
    if s.len() > 0 && is_blank(s.last() as char) {
        drop_blanks(s.drop_last())
    } else {
        s
    }
}

/// What a line does.
pub open spec fn stepped(drawing: Drawing, raw: Seq<u8>) -> Drawing {
    let bytes = drop_blanks(skip_blanks(raw));
    let line = latin(bytes);
    if text::starts_with(line, ";TYPE:"@) {
        let kind = line.skip(6);
        Drawing {
            walker: Walker {
                hidden: kind == "Custom"@ || text::starts_with(kind, "Support"@),
                wall: text::find_part(kind, "wall"@, 0) != -1,
                ..drawing.walker
            },
            ..drawing
        }
    } else if text::starts_with(line, "; filament_colour = "@) {
        Drawing { colors: colors_listed(lossy(bytes.skip(20))), ..drawing }
    } else {
        commanded(drawing, words_from(line.take(text::find(line, ';', 0)), 0))
    }
}

/// Where the line that starts at `i` ends, before its line break.
pub open spec fn line_end(file: Seq<u8>, i: int) -> int
    decreases file.len() - i,
{
    if 0 <= i < file.len() && file[i] != 10 {
        line_end(file, i + 1)
    } else {
        i
    }
}

proof fn lemma_line_end(file: Seq<u8>, i: int)
    requires
        0 <= i <= file.len(),
    ensures
        i <= line_end(file, i) <= file.len(),
    decreases file.len() - i,
{
    if i < file.len() && file[i] != 10 {
        lemma_line_end(file, i + 1);
    }
}

/// The drawing after the lines from position `i` on.
pub open spec fn drawn_from(drawing: Drawing, file: Seq<u8>, i: int) -> Drawing
    decreases file.len() - i + 1,
    via drawn_from_decreases
{
    if i < 0 || i >= file.len() {
        drawing
    } else {
        let end = line_end(file, i);
        drawn_from(stepped(drawing, file.subrange(i, end)), file, end + 1)
    }
}

#[via_fn]
proof fn drawn_from_decreases(drawing: Drawing, file: Seq<u8>, i: int) {
    if 0 <= i < file.len() {
        lemma_line_end(file, i);
    }
}

pub open spec fn blank_walker() -> Walker {
    Walker {
        at: Point { x: 0, y: 0, z: 0 },
        extruder: 0,
        relative: false,
        relative_e: false,
        hidden: false,
        wall: false,
        tool: 0,
    }
}

pub open spec fn blank_drawing() -> Drawing {
    Drawing { walker: blank_walker(), lines: seq![], colors: seq![] }
}

/// What a file draws.
pub open spec fn drawn(file: Seq<u8>) -> Drawing {
    drawn_from(blank_drawing(), file, 0)
}

fn char_is_blank(c: char) -> (r: bool)
    ensures
        r == is_blank(c),
{
    c == ' ' || c == '\t' || c == '\n' || c == '\x0C' || c == '\r'
}

fn trim_blanks(raw: &[u8]) -> (r: &[u8])
    ensures
        r@ == drop_blanks(skip_blanks(raw@)),
{
    let mut start: usize = 0;
    assert(raw@.skip(0) =~= raw@);
    while start < raw.len() && char_is_blank(raw[start] as char)
        invariant
            start <= raw@.len(),
            skip_blanks(raw@) == skip_blanks(raw@.skip(start as int)),
        decreases raw.len() - start,
    {
        assert(raw@.skip(start as int).skip(1) =~= raw@.skip(start + 1));
        start += 1;
    }
    let ghost kept = raw@.skip(start as int);
    assert(skip_blanks(raw@) == kept);
    let mut end: usize = raw.len();
    assert(raw@.subrange(start as int, end as int) =~= kept);
    while end > start && char_is_blank(raw[end - 1] as char)
        invariant
            start <= end <= raw@.len(),
            drop_blanks(kept) == drop_blanks(raw@.subrange(start as int, end as int)),
        decreases end,
    {
        let ghost part = raw@.subrange(start as int, end as int);
        assert(part.last() == raw@[end - 1]);
        assert(part.drop_last() =~= raw@.subrange(start as int, end - 1));
        end -= 1;
    }
    let r = vstd::slice::slice_subrange(raw, start, end);
    assert(r@ =~= raw@.subrange(start as int, end as int));
    proof {
        if end > start {
            assert(r@.last() == raw@[end - 1]);
        }
    }
    r
}

fn latin_chars(bytes: &[u8]) -> (r: Vec<char>)
    ensures
        r@ == latin(bytes@),
{
    let mut out: Vec<char> = Vec::new();
    let mut i: usize = 0;
    while i < bytes.len()
        invariant
            i <= bytes@.len(),
            out@ == latin(bytes@.take(i as int)),
        decreases bytes.len() - i,
    {
        out.push(bytes[i] as char);
        i += 1;
        assert(out@ =~= latin(bytes@.take(i as int)));
    }
    assert(bytes@.take(i as int) =~= bytes@);
    out
}

/// Words as they are in a line.
pub open spec fn word_views(words: Seq<&[char]>) -> Seq<Seq<char>> {
    words.map_values(|word: &[char]| word@)
}

pub(crate) fn split_words(s: &[char]) -> (r: Vec<&[char]>)
    ensures
        word_views(r@) == words_from(s@, 0),
{
    let mut words: Vec<&[char]> = Vec::new();
    let mut i: usize = 0;
    assert(word_views(words@) + words_from(s@, 0) =~= words_from(s@, 0));
    while i < s.len()
        invariant
            i <= s@.len(),
            word_views(words@) + words_from(s@, i as int) == words_from(s@, 0),
        decreases s.len() - i,
    {
        if char_is_blank(s[i]) {
            i += 1;
        } else {
            let mut end: usize = i;
            proof {
                lemma_word_end(s@, i as int);
            }
            while end < s.len() && !char_is_blank(s[end])
                invariant
                    i <= end <= s@.len(),
                    word_end(s@, i as int) == word_end(s@, end as int),
                decreases s.len() - end,
            {
                end += 1;
            }
            let word = vstd::slice::slice_subrange(s, i, end);
            let ghost before = words@;
            words.push(word);
            assert(word_views(words@) =~= word_views(before).push(word@));
            assert(word_views(before) + (seq![word@] + words_from(s@, end as int)) =~= word_views(
                words@,
            ) + words_from(s@, end as int));
            i = end;
        }
    }
    assert(word_views(words@) + words_from(s@, i as int) =~= word_views(words@));
    words
}

pub open spec fn setting_views(values: Seq<(char, i128)>) -> Seq<(char, int)> {
    values.map_values(|value: (char, i128)| (value.0, value.1 as int))
}

pub open spec fn small(values: Seq<(char, i128)>) -> bool {
    forall|i: int| 0 <= i < values.len() ==> -MM * MM <= (#[trigger] values[i]).1 <= MM * MM
}

fn read_settings(words: &Vec<&[char]>) -> (r: Vec<(char, i128)>)
    requires
        words@.len() >= 1,
    ensures
        setting_views(r@) == settings(word_views(words@).skip(1)),
        small(r@),
{
    let ghost rest = word_views(words@).skip(1);
    let mut values: Vec<(char, i128)> = Vec::new();
    let mut i: usize = 1;
    assert(setting_views(values@) =~= settings(rest.take(0)));
    while i < words.len()
        invariant
            1 <= i <= words@.len(),
            rest == word_views(words@).skip(1),
            setting_views(values@) == settings(rest.take(i - 1)),
            small(values@),
        decreases words.len() - i,
    {
        let word = words[i];
        assert(rest.take(i as int).drop_last() =~= rest.take(i - 1));
        assert(rest.take(i as int).last() == word@);
        if word.len() > 0 {
            let tail = vstd::slice::slice_subrange(word, 1, word.len());
            assert(tail@ =~= word@.skip(1));
            if let Some(value) = parse_number(tail) {
                let ghost before = values@;
                values.push((word[0], value));
                assert(setting_views(values@) =~= setting_views(before).push(
                    (word@[0], value as int),
                ));
            }
        }
        i += 1;
    }
    assert(rest.take(i - 1) =~= rest);
    values
}

fn clamp(n: i128) -> (r: i128)
    ensures
        r == clamped(n as int),
        -FAR <= r <= FAR,
{
    if n > FAR {
        FAR
    } else if n < -FAR {
        -FAR
    } else {
        n
    }
}

impl Walker {
    /// Positions stay within what is drawn.
    pub open spec fn in_range(self) -> bool {
        &&& -FAR <= self.at.x <= FAR
        &&& -FAR <= self.at.y <= FAR
        &&& -FAR <= self.at.z <= FAR
        &&& -FAR <= self.extruder <= FAR
    }

    fn rename(&mut self, values: &Vec<(char, i128)>)
        requires
            old(self).in_range(),
        ensures
            *final(self) == renamed(*old(self), setting_views(values@)),
            final(self).in_range(),
    {
        let ghost all = setting_views(values@);
        let mut walker = *self;
        let ghost first = walker;
        let mut i: usize = 0;
        assert(all.take(0) =~= seq![]);
        while i < values.len()
            invariant
                i <= values@.len(),
                all == setting_views(values@),
                walker == renamed(first, all.take(i as int)),
                walker.in_range(),
            decreases values.len() - i,
        {
            assert(all.take(i + 1).drop_last() =~= all.take(i as int));
            let (axis, value) = values[i];
            if axis == 'X' {
                walker.at.x = clamp(value);
            } else if axis == 'Y' {
                walker.at.y = clamp(value);
            } else if axis == 'Z' {
                walker.at.z = clamp(value);
            } else if axis == 'E' {
                walker.extruder = clamp(value);
            }
            i += 1;
        }
        assert(all.take(i as int) =~= all);
        *self = walker;
    }

    /// Goes where the values say. Returns how far the extruder went.
    fn go(&mut self, values: &Vec<(char, i128)>) -> (r: i128)
        requires
            old(self).in_range(),
            small(values@),
        ensures
            ({
                let target = target(*old(self), setting_views(values@));
                &&& r == target.extruded
                &&& *final(self) == (Walker {
                    at: target.to,
                    extruder: target.extruder,
                    ..*old(self)
                })
            }),
            final(self).in_range(),
    {
        let ghost all = setting_views(values@);
        let walker = *self;
        let mut to = walker.at;
        let mut extruder: i128 = walker.extruder;
        let mut extruded: i128 = 0;
        let mut i: usize = 0;
        assert(all.take(0) =~= seq![]);
        assert(MM * MM < FAR) by (nonlinear_arith)
            requires
                MM == 1_000_000_000_000_000_000,
                FAR == 50_000_000_000_000_000_000_000_000_000_000_000_000,
        ;
        while i < values.len()
            invariant
                i <= values@.len(),
                MM * MM < FAR,
                all == setting_views(values@),
                small(values@),
                walker.in_range(),
                (Target { to, extruder, extruded }) == target(walker, all.take(i as int)),
                -FAR <= to.x <= FAR,
                -FAR <= to.y <= FAR,
                -FAR <= to.z <= FAR,
                -FAR <= extruder <= FAR,
            decreases values.len() - i,
        {
            assert(all.take(i + 1).drop_last() =~= all.take(i as int));
            let (axis, value) = values[i];
            assert(values@[i as int].1 == value);
            if axis == 'X' {
                to.x = clamp(
                    if walker.relative {
                        walker.at.x + value
                    } else {
                        value
                    },
                );
            } else if axis == 'Y' {
                to.y = clamp(
                    if walker.relative {
                        walker.at.y + value
                    } else {
                        value
                    },
                );
            } else if axis == 'Z' {
                to.z = clamp(
                    if walker.relative {
                        walker.at.z + value
                    } else {
                        value
                    },
                );
            } else if axis == 'E' {
                extruded = clamp(
                    if walker.relative_e {
                        value
                    } else {
                        value - extruder
                    },
                );
                extruder = clamp(extruder + extruded);
            }
            i += 1;
        }
        assert(all.take(i as int) =~= all);
        self.at = to;
        self.extruder = extruder;
        extruded
    }
}

/// What a file draws, so far.
#[derive(Debug, PartialEq, Eq)]
pub struct Walk {
    pub walker: Walker,
    pub lines: Vec<Line>,
    /// The file's filament colours by tool.
    pub colors: Vec<Color>,
}

impl Walk {
    pub open spec fn drawing(self) -> Drawing {
        Drawing { walker: self.walker, lines: self.lines@, colors: self.colors@ }
    }

    fn command(&mut self, words: &Vec<&[char]>)
        requires
            old(self).walker.in_range(),
        ensures
            final(self).walker.in_range(),
            final(self).drawing() == commanded(old(self).drawing(), word_views(words@)),
    {
        if words.len() == 0 {
            return ;
        }
        let command = words[0];
        assert(word_views(words@)[0] == command@);
        if is_word(command, "G90") {
            self.walker.relative = false;
        } else if is_word(command, "G91") {
            self.walker.relative = true;
        } else if is_word(command, "M82") {
            self.walker.relative_e = false;
        } else if is_word(command, "M83") {
            self.walker.relative_e = true;
        } else if is_word(command, "G92") {
            let values = read_settings(words);
            self.walker.rename(&values);
        } else {
            let hop = is_word(command, "G0");
            if hop || is_word(command, "G1") || is_word(command, "G2") || is_word(command, "G3") {
                let values = read_settings(words);
                let before = self.walker;
                let extruded = self.walker.go(&values);
                let at = self.walker.at;
                let moved = at.x != before.at.x || at.y != before.at.y;
                if !hop && extruded > 0 && moved && !before.hidden {
                    self.lines.push(
                        Line { from: before.at, to: at, tool: before.tool, wall: before.wall },
                    );
                }
            } else if command.len() > 0 && command[0] == 'T' {
                let tail = vstd::slice::slice_subrange(command, 1, command.len());
                assert(tail@ =~= command@.skip(1));
                if let Some(value) = parse_number(tail) {
                    let index: i128 = if value < 0 {
                        0
                    } else {
                        value / MM
                    };
                    self.walker.tool = if index > 255 {
                        255
                    } else {
                        index as u8
                    };
                }
            }
        }
    }

    /// Takes one line of G-code.
    pub fn step(&mut self, raw: &[u8])
        requires
            old(self).walker.in_range(),
        ensures
            final(self).walker.in_range(),
            final(self).drawing() == stepped(old(self).drawing(), raw@),
    {
        let bytes = trim_blanks(raw);
        let line = latin_chars(bytes);
        proof {
            reveal_strlit(";TYPE:");
            reveal_strlit("; filament_colour = ");
        }
        let kind_prefix = text::chars(";TYPE:");
        if text::has_prefix(line.as_slice(), kind_prefix.as_slice()) {
            let kind = vstd::slice::slice_subrange(line.as_slice(), 6, line.len());
            assert(kind@ =~= line@.skip(6));
            let support = text::chars("Support");
            let wall = text::chars("wall");
            self.walker.hidden = is_word(kind, "Custom") || text::has_prefix(
                kind,
                support.as_slice(),
            );
            self.walker.wall = text::find_slice(kind, wall.as_slice(), 0).is_some();
            return ;
        }
        let color_prefix = text::chars("; filament_colour = ");
        if text::has_prefix(line.as_slice(), color_prefix.as_slice()) {
            let rest = vstd::slice::slice_subrange(bytes, 20, bytes.len());
            assert(rest@ =~= bytes@.skip(20));
            let list = read_lossy(rest);
            let chars = text::chars(list.as_str());
            self.colors = read_colors(chars.as_slice());
            return ;
        }
        let end = text::find_char(line.as_slice(), ';', 0);
        let code = vstd::slice::slice_subrange(line.as_slice(), 0, end);
        assert(code@ =~= line@.take(end as int));
        let words = split_words(code);
        self.command(&words);
    }
}

fn is_word(word: &[char], other: &str) -> (r: bool)
    ensures
        r == (word@ == other@),
{
    let chars = text::chars(other);
    text::slices_equal(word, chars.as_slice())
}

/// Every extruding move of the model itself: not the start and end G-code, nor supports. With
/// them the file's filament colours by tool.
pub fn walk(file: &[u8]) -> (r: Walk)
    ensures
        r.drawing() == drawn(file@),
{
    let mut walk = Walk {
        walker: Walker {
            at: Point { x: 0, y: 0, z: 0 },
            extruder: 0,
            relative: false,
            relative_e: false,
            hidden: false,
            wall: false,
            tool: 0,
        },
        lines: Vec::new(),
        colors: Vec::new(),
    };
    let mut i: usize = 0;
    assert(walk.drawing().lines =~= seq![]);
    assert(walk.drawing().colors =~= seq![]);
    while i < file.len()
        invariant
            i <= file@.len(),
            walk.walker.in_range(),
            drawn(file@) == drawn_from(walk.drawing(), file@, i as int),
        decreases file.len() - i,
    {
        let mut end: usize = i;
        proof {
            lemma_line_end(file@, i as int);
        }
        while end < file.len() && file[end] != 10
            invariant
                i <= end <= file@.len(),
                line_end(file@, i as int) == line_end(file@, end as int),
            decreases file.len() - end,
        {
            end += 1;
        }
        let line = vstd::slice::slice_subrange(file, i, end);
        walk.step(line);
        if end == file.len() {
            assert(drawn_from(walk.drawing(), file@, end + 1) == walk.drawing());
            return walk;
        }
        i = end + 1;
    }
    walk
}

/// Every line that is drawn goes somewhere: no drawn move ends above where it started.
pub proof fn drawn_moves_go_somewhere(drawing: Drawing, raw: Seq<u8>, i: int)
    requires
        0 <= i < stepped(drawing, raw).lines.len(),
        forall|k: int|
            0 <= k < drawing.lines.len() ==> (#[trigger] drawing.lines[k]).from.x
                != drawing.lines[k].to.x || drawing.lines[k].from.y != drawing.lines[k].to.y,
    ensures
        stepped(drawing, raw).lines[i].from.x != stepped(drawing, raw).lines[i].to.x || stepped(
            drawing,
            raw,
        ).lines[i].from.y != stepped(drawing, raw).lines[i].to.y,
{
    if i < drawing.lines.len() {
        assert(stepped(drawing, raw).lines[i] == drawing.lines[i]);
    }
}

/// While supports, or the start and end G-code, are printed, nothing is drawn.
pub proof fn hidden_parts_draw_nothing(drawing: Drawing, raw: Seq<u8>)
    requires
        drawing.walker.hidden,
    ensures
        stepped(drawing, raw).lines == drawing.lines,
{
}

// ---------------------------------------------------------------------------------------------
// The picture
// ---------------------------------------------------------------------------------------------

/// Side of what is drawn on, in samples.
pub const SIDE: usize = 512;

/// One of the four samples of the pixel with the given number.
pub open spec fn sample_of(pixel: int, k: int) -> int {
    (pixel / SIZE as int * 2 + k / 2) * SIDE + pixel % SIZE as int * 2 + k % 2
}

/// How many of the samples of a pixel were drawn on.
pub open spec fn covered_samples(covered: Seq<bool>, pixel: int, n: int) -> int
    decreases n,
{
    if n <= 0 {
        0
    } else {
        covered_samples(covered, pixel, n - 1) + if covered[sample_of(pixel, n - 1)] {
            1int
        } else {
            0
        }
    }
}

pub open spec fn channel_of(color: Color, c: int) -> int {
    if c == 0 {
        color.r as int
    } else if c == 1 {
        color.g as int
    } else {
        color.b as int
    }
}

/// The sum of a channel over the samples of a pixel that were drawn on.
pub open spec fn channel_sum(covered: Seq<bool>, color: Seq<Color>, pixel: int, c: int, n: int) -> int
    decreases n,
{
    if n <= 0 {
        0
    } else {
        let at = sample_of(pixel, n - 1);
        channel_sum(covered, color, pixel, c, n - 1) + if covered[at] {
            channel_of(color[at], c)
        } else {
            0
        }
    }
}

/// A channel of a pixel: the average over what was drawn on, and for the last one how much of
/// the pixel that is.
pub open spec fn averaged(covered: Seq<bool>, color: Seq<Color>, pixel: int, c: int) -> u8 {
    let n = covered_samples(covered, pixel, 4);
    if c == 3 {
        (n * 255 / 4) as u8
    } else {
        (channel_sum(covered, color, pixel, c, 4) / if n < 1 {
            1
        } else {
            n
        }) as u8
    }
}

/// The picture's bytes: red, green, blue and opacity of every pixel, row by row.
pub open spec fn pixels(covered: Seq<bool>, color: Seq<Color>) -> Seq<u8> {
    Seq::new((SIZE * SIZE * 4) as nat, |i: int| averaged(covered, color, i / 4, i % 4))
}

struct Sum {
    r: u32,
    g: u32,
    b: u32,
    covered: u32,
}

fn sum_pixel(covered: &Vec<bool>, color: &Vec<Color>, y: usize, x: usize) -> (r: Sum)
    requires
        y < SIZE,
        x < SIZE,
        covered@.len() == SIDE * SIDE,
        color@.len() == SIDE * SIDE,
    ensures
        ({
            let pixel = y * SIZE + x;
            &&& r.covered == covered_samples(covered@, pixel, 4)
            &&& r.r == channel_sum(covered@, color@, pixel, 0, 4)
            &&& r.g == channel_sum(covered@, color@, pixel, 1, 4)
            &&& r.b == channel_sum(covered@, color@, pixel, 2, 4)
            &&& r.covered <= 4
            &&& r.r <= 255 * r.covered
            &&& r.g <= 255 * r.covered
            &&& r.b <= 255 * r.covered
        }),
{
    let ghost pixel = y * SIZE + x;
    let mut sum = Sum { r: 0, g: 0, b: 0, covered: 0 };
    let mut k: usize = 0;
    assert(pixel / SIZE as int == y && pixel % SIZE as int == x);
    while k < 4
        invariant
            k <= 4,
            y < SIZE,
            x < SIZE,
            covered@.len() == SIDE * SIDE,
            color@.len() == SIDE * SIDE,
            pixel == y * SIZE + x,
            pixel / SIZE as int == y && pixel % SIZE as int == x,
            sum.covered == covered_samples(covered@, pixel, k as int),
            sum.r == channel_sum(covered@, color@, pixel, 0, k as int),
            sum.g == channel_sum(covered@, color@, pixel, 1, k as int),
            sum.b == channel_sum(covered@, color@, pixel, 2, k as int),
            sum.covered <= k,
            sum.r <= 255 * sum.covered,
            sum.g <= 255 * sum.covered,
            sum.b <= 255 * sum.covered,
        decreases 4 - k,
    {
        let at: usize = (y * 2 + k / 2) * SIDE + x * 2 + k % 2;
        assert(at == sample_of(pixel, k as int));
        if covered[at] {
            sum.covered = sum.covered + 1;
            sum.r = sum.r + color[at].r as u32;
            sum.g = sum.g + color[at].g as u32;
            sum.b = sum.b + color[at].b as u32;
        }
        k += 1;
    }
    sum
}

/// Averages the samples that were drawn on down to pixels, which smooths the edges.
pub fn smooth(covered: &Vec<bool>, color: &Vec<Color>) -> (r: Vec<u8>)
    requires
        covered@.len() == SIDE * SIDE,
        color@.len() == SIDE * SIDE,
    ensures
        r@ == pixels(covered@, color@),
{
    let mut rgba: Vec<u8> = Vec::new();
    let mut y: usize = 0;
    while y < SIZE
        invariant
            y <= SIZE,
            covered@.len() == SIDE * SIDE,
            color@.len() == SIDE * SIDE,
            rgba@.len() == y * SIZE * 4,
            forall|i: int|
                0 <= i < rgba@.len() ==> #[trigger] rgba@[i] == averaged(
                    covered@,
                    color@,
                    i / 4,
                    i % 4,
                ),
        decreases SIZE - y,
    {
        let mut x: usize = 0;
        while x < SIZE
            invariant
                y < SIZE,
                x <= SIZE,
                covered@.len() == SIDE * SIDE,
                color@.len() == SIDE * SIDE,
                rgba@.len() == (y * SIZE + x) * 4,
                forall|i: int|
                    0 <= i < rgba@.len() ==> #[trigger] rgba@[i] == averaged(
                        covered@,
                        color@,
                        i / 4,
                        i % 4,
                    ),
            decreases SIZE - x,
        {
            let sum = sum_pixel(covered, color, y, x);
            let ghost pixel = y * SIZE + x;
            let n: u32 = if sum.covered < 1 {
                1
            } else {
                sum.covered
            };
            assert(sum.r / n <= 255 && sum.g / n <= 255 && sum.b / n <= 255) by (nonlinear_arith)
                requires
                    n >= 1,
                    sum.r <= 255 * n,
                    sum.g <= 255 * n,
                    sum.b <= 255 * n,
            ;
            let ghost before = rgba@;
            rgba.push((sum.r / n) as u8);
            rgba.push((sum.g / n) as u8);
            rgba.push((sum.b / n) as u8);
            rgba.push((sum.covered * 255 / 4) as u8);
            assert forall|i: int| 0 <= i < rgba@.len() implies #[trigger] rgba@[i] == averaged(
                covered@,
                color@,
                i / 4,
                i % 4,
            ) by {
                if i < before.len() {
                    assert(rgba@[i] == before[i]);
                } else {
                    assert(i / 4 == pixel);
                }
            }
            x += 1;
        }
        y += 1;
    }
    assert(rgba@ =~= pixels(covered@, color@));
    rgba
}

/// The bytes of a PNG with 8-bit RGBA pixels; nothing when the encoder fails.
pub uninterp spec fn png_of(rgba: Seq<u8>, width: u32, height: u32) -> Option<Seq<u8>>;

/// `png::Encoder` with 8-bit RGBA pixels: the file, or the encoder's words. There have to be as
/// many pixels as the width and the height say.
#[verifier::external_body]
fn encode_png(rgba: &[u8], width: u32, height: u32) -> (r: Result<Vec<u8>, String>)
    requires
        width > 0,
        height > 0,
        rgba@.len() == 4 * width * height,
    ensures
        match r {
            Ok(file) => png_of(rgba@, width, height) == Some(file@),
            Err(_) => png_of(rgba@, width, height) is None,
        },
{
    let mut file = Vec::new();
    let mut encoder = png::Encoder::new(&mut file, width, height);
    encoder.set_color(png::ColorType::Rgba);
    encoder.set_depth(png::BitDepth::Eight);
    let written = encoder.write_header().and_then(|mut writer| {
        writer.write_image_data(rgba)?;
        writer.finish()
    });
    written.map(|()| file).map_err(|err| err.to_string())
}

/// The picture of what was drawn, as a PNG.
pub fn picture(covered: &Vec<bool>, color: &Vec<Color>) -> (r: Result<Vec<u8>, String>)
    requires
        covered@.len() == SIDE * SIDE,
        color@.len() == SIDE * SIDE,
    ensures
        match r {
            Ok(file) => png_of(pixels(covered@, color@), SIZE as u32, SIZE as u32) == Some(file@),
            Err(_) => png_of(pixels(covered@, color@), SIZE as u32, SIZE as u32) is None,
        },
{
    let rgba = smooth(covered, color);
    encode_png(rgba.as_slice(), SIZE as u32, SIZE as u32)
}

/// A move draws a line from where the tool stands to where it goes, where it lays filament on the
/// way; one by `G0`, one that lays none, one that stays where it is and one that is hidden draw
/// nothing. Nothing but a move draws.
pub proof fn moves_that_lay_filament_are_drawn(drawing: Drawing, words: Seq<Seq<char>>)
    ensures
        ({
            let after = commanded(drawing, words);
            let walker = drawing.walker;
            let goal = target(walker, settings(words.skip(1)));
            let lays = words.len() > 0 && (words[0] == "G1"@ || words[0] == "G2"@ || words[0]
                == "G3"@) && goal.extruded > 0 && (goal.to.x != walker.at.x || goal.to.y
                != walker.at.y) && !walker.hidden;
            &&& !lays ==> after.lines == drawing.lines
            &&& lays ==> {
                &&& after.lines.len() == drawing.lines.len() + 1
                &&& after.lines.drop_last() == drawing.lines
                &&& after.lines.last().from == walker.at
                &&& after.lines.last().to == goal.to
                &&& after.lines.last().tool == walker.tool
                &&& after.lines.last().wall == walker.wall
            }
            &&& words.len() > 0 && (words[0] == "G0"@ || words[0] == "G1"@ || words[0] == "G2"@
                || words[0] == "G3"@) ==> after.walker.at == goal.to
            &&& after.colors == drawing.colors
        }),
{
    reveal_strlit("G90");
    reveal_strlit("G91");
    reveal_strlit("M82");
    reveal_strlit("M83");
    reveal_strlit("G92");
    reveal_strlit("G0");
    reveal_strlit("G1");
    reveal_strlit("G2");
    reveal_strlit("G3");
    let after = commanded(drawing, words);
    if after.lines != drawing.lines {
        assert(after.lines.drop_last() =~= drawing.lines);
    }
}

/// A coordinate counts from nothing, or from where the tool stands where moves are relative; the
/// others stay. The last of several for one axis counts.
pub proof fn coordinates_count_from_where_they_should(
    walker: Walker,
    values: Seq<(char, int)>,
    value: int,
)
    requires
        -FAR <= walker.at.x + value <= FAR,
        -FAR <= walker.at.y + value <= FAR,
        -FAR <= walker.at.z + value <= FAR,
        -FAR <= value <= FAR,
    ensures
        ({
            let before = target(walker, values).to;
            let x = target(walker, values.push(('X', value))).to;
            let y = target(walker, values.push(('Y', value))).to;
            let z = target(walker, values.push(('Z', value))).to;
            &&& walker.relative ==> x.x == walker.at.x + value && y.y == walker.at.y + value && z.z
                == walker.at.z + value
            &&& !walker.relative ==> x.x == value && y.y == value && z.z == value
            &&& x.y == before.y && x.z == before.z
            &&& y.x == before.x && y.z == before.z
            &&& z.x == before.x && z.y == before.y
        }),
        target(walker, seq![]).to == walker.at,
        target(walker, seq![]).extruded == 0,
{
    assert(values.push(('X', value)).drop_last() =~= values);
    assert(values.push(('Y', value)).drop_last() =~= values);
    assert(values.push(('Z', value)).drop_last() =~= values);
}

/// Filament is laid by what the extruder moves: all of it where extrusion is relative, or else
/// what it is more than before.
pub proof fn filament_is_laid_by_what_the_extruder_moves(walker: Walker, value: int)
    requires
        -FAR <= value <= FAR,
        -FAR <= walker.extruder <= FAR,
        -FAR <= value - walker.extruder <= FAR,
        -FAR <= value + walker.extruder <= FAR,
    ensures
        ({
            let after = target(walker, seq![('E', value)]);
            &&& walker.relative_e ==> after.extruded == value && after.extruder == walker.extruder
                + value
            &&& !walker.relative_e ==> after.extruded == value - walker.extruder && after.extruder
                == value
            &&& after.to == walker.at
        }),
{
    let values = seq![('E', value)];
    assert(values.drop_last() =~= Seq::<(char, int)>::empty());
    assert(target(walker, values.drop_last()).extruder == walker.extruder);
    assert(values.last() == ('E', value));
}

/// The mode of moving, and of extruding, is what was last said.
pub proof fn modes_stay_until_changed(drawing: Drawing, words: Seq<Seq<char>>)
    requires
        words.len() > 0,
    ensures
        ({
            let after = commanded(drawing, words).walker;
            let before = drawing.walker;
            &&& words[0] == "G90"@ ==> !after.relative
            &&& words[0] == "G91"@ ==> after.relative
            &&& words[0] == "M82"@ ==> !after.relative_e
            &&& words[0] == "M83"@ ==> after.relative_e
            &&& words[0] != "G90"@ && words[0] != "G91"@ ==> after.relative == before.relative
            &&& words[0] != "M82"@ && words[0] != "M83"@ ==> after.relative_e == before.relative_e
            &&& after.hidden == before.hidden && after.wall == before.wall
        }),
{
    reveal_strlit("G90");
    reveal_strlit("G91");
    reveal_strlit("M82");
    reveal_strlit("M83");
    reveal_strlit("G92");
    if words[0] == "G92"@ {
        lemma_renamed_modes(drawing.walker, settings(words.skip(1)));
    }
    assert("G90"@[1] == '9' && "G91"@[2] == '1' && "M82"@[2] == '2' && "M83"@[2] == '3');
    assert("G90"@[2] == '0' && "G92"@[2] == '2' && "M82"@[0] == 'M' && "G92"@[0] == 'G');
}

proof fn lemma_renamed_modes(walker: Walker, values: Seq<(char, int)>)
    ensures
        ({
            let after = renamed(walker, values);
            &&& after.relative == walker.relative && after.relative_e == walker.relative_e
            &&& after.hidden == walker.hidden && after.wall == walker.wall
        }),
    decreases values.len(),
{
    if values.len() > 0 {
        lemma_renamed_modes(walker, values.drop_last());
    }
}

/// A pixel is as opaque as a share of its four samples is covered, and has their mean color.
pub proof fn pixels_are_the_mean_of_their_samples(covered: Seq<bool>, color: Seq<Color>, pixel: int)
    requires
        covered.len() == color.len(),
        forall|k: int| 0 <= k < 4 ==> 0 <= #[trigger] sample_of(pixel, k) < color.len(),
    ensures
        ({
            let a = sample_of(pixel, 0);
            let b = sample_of(pixel, 1);
            let c = sample_of(pixel, 2);
            let d = sample_of(pixel, 3);
            let all = covered[a] && covered[b] && covered[c] && covered[d];
            let none = !covered[a] && !covered[b] && !covered[c] && !covered[d];
            &&& all ==> averaged(covered, color, pixel, 3) == 255
            &&& none ==> averaged(covered, color, pixel, 3) == 0
            &&& all ==> averaged(covered, color, pixel, 0) == (color[a].r + color[b].r + color[c].r
                + color[d].r) / 4
            &&& all ==> averaged(covered, color, pixel, 1) == (color[a].g + color[b].g + color[c].g
                + color[d].g) / 4
            &&& all ==> averaged(covered, color, pixel, 2) == (color[a].b + color[b].b + color[c].b
                + color[d].b) / 4
            &&& covered[a] && !covered[b] && !covered[c] && !covered[d] ==> averaged(
                covered,
                color,
                pixel,
                0,
            ) == color[a].r && averaged(covered, color, pixel, 3) == 63
        }),
{
    reveal_with_fuel(channel_sum, 5);
    reveal_with_fuel(covered_samples, 5);
    let a = sample_of(pixel, 0);
    let b = sample_of(pixel, 1);
    let c = sample_of(pixel, 2);
    let d = sample_of(pixel, 3);
    assert(0 <= a < color.len() && 0 <= b < color.len() && 0 <= c < color.len() && 0 <= d
        < color.len());
    if covered[a] && covered[b] && covered[c] && covered[d] {
        assert(covered_samples(covered, pixel, 4) == 4);
        assert(channel_sum(covered, color, pixel, 0, 4) == color[a].r + color[b].r + color[c].r
            + color[d].r);
        assert(channel_sum(covered, color, pixel, 1, 4) == color[a].g + color[b].g + color[c].g
            + color[d].g);
        assert(channel_sum(covered, color, pixel, 2, 4) == color[a].b + color[b].b + color[c].b
            + color[d].b);
    } else if !covered[b] && !covered[c] && !covered[d] {
        assert(covered_samples(covered, pixel, 4) == if covered[a] {
            1int
        } else {
            0
        });
        if covered[a] {
            assert(channel_sum(covered, color, pixel, 0, 4) == color[a].r);
        }
    }
}

} // verus!
