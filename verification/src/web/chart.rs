//! Stacked bar charts drawn as inline SVG. The geometry is computed here, so the template only
//! places elements.
//!
//! Coordinates are exact fractions of a tenth of a unit until they are written down. Values are
//! whole numbers of a small unit, and labels are asked for in thousandths of that unit.

use vstd::prelude::*;

use crate::num;
use crate::text;

verus! {

/// Labelling more bars than this makes the labels collide.
pub const MAX_LABELS: usize = 12;

/// For whatever is folded together once the slots run out.
pub const OTHER_SLOT: &'static str = "series-other";

/// How many categorical colour classes there are.
pub const SLOT_COUNT: usize = 8;

pub open spec fn slot_name(index: int) -> Seq<char> {
    "series-"@ + text::decimal((index + 1) as nat)
}

/// Categorical colour classes, defined in `app.css`. Their order was checked for colour-blind
/// separation of neighbours, so series take them in this order.
pub fn slot(index: usize) -> (r: Option<&'static str>)
    ensures
        match r {
            Some(name) => index < SLOT_COUNT && name@ == slot_name(index as int),
            None => index >= SLOT_COUNT,
        },
{
    proof {
        reveal_strlit("series-");
        reveal_strlit("series-1");
        reveal_strlit("series-2");
        reveal_strlit("series-3");
        reveal_strlit("series-4");
        reveal_strlit("series-5");
        reveal_strlit("series-6");
        reveal_strlit("series-7");
        reveal_strlit("series-8");
    }
    let name = match index {
        0 => "series-1",
        1 => "series-2",
        2 => "series-3",
        3 => "series-4",
        4 => "series-5",
        5 => "series-6",
        6 => "series-7",
        7 => "series-8",
        _ => {
            return None;
        },
    };
    assert(name@ =~= slot_name(index as int));
    Some(name)
}

#[derive(Debug, PartialEq, Eq)]
pub struct Series {
    pub name: String,
    pub slot: &'static str,
}

#[derive(Debug, PartialEq, Eq)]
pub struct BarInput {
    /// Under the bar, when there is room for it.
    pub short_label: String,
    /// In tooltips and the table view.
    pub label: String,
    /// One per series, in series order.
    pub values: Vec<i128>,
}

#[derive(Debug, PartialEq, Eq)]
pub struct BarChart {
    pub view_box: String,
    pub description: String,
    pub grid: Vec<GridLine>,
    pub bars: Vec<Bar>,
    pub plot_left: String,
    pub plot_right: String,
    pub tick_x: String,
    pub label_y: String,
    /// Empty for a single series, which the heading names.
    pub legend: Vec<LegendItem>,
    pub table_head: Vec<String>,
    pub table_rows: Vec<Vec<String>>,
}

#[derive(Debug, PartialEq, Eq)]
pub struct GridLine {
    pub y: String,
    pub text_y: String,
    pub label: String,
}

#[derive(Debug, PartialEq, Eq)]
pub struct Bar {
    pub center: String,
    pub label: Option<String>,
    pub segments: Vec<Segment>,
}

#[derive(Debug, PartialEq, Eq)]
pub struct Segment {
    pub path: String,
    pub slot: &'static str,
    pub title: String,
}

#[derive(Debug, PartialEq, Eq)]
pub struct LegendItem {
    pub name: String,
    pub slot: &'static str,
}

// ---------------------------------------------------------------------------------------------
// Ticks
// ---------------------------------------------------------------------------------------------

/// The greatest power of ten, starting from `m`, that a quarter of `max` reaches.
pub open spec fn magnitude(max: int, m: int) -> int
    decreases max - m,
{
    if m >= 1 && 40 * m <= max {
        magnitude(max, 10 * m)
    } else {
        m
    }
}

/// A round step: 1, 2, 2.5 or 5 times a power of ten, or the next power.
pub open spec fn tick_step(max: int) -> int {
    let m = magnitude(max, 100);
    if 4 * m >= max {
        m
    } else if 8 * m >= max {
        2 * m
    } else if 10 * m >= max {
        5 * m / 2
    } else if 20 * m >= max {
        5 * m
    } else {
        10 * m
    }
}

/// How many steps reach `max`.
pub open spec fn tick_count(max: int) -> int {
    (max + tick_step(max) - 1) / tick_step(max)
}

proof fn lemma_magnitude(max: int, m: int)
    requires
        m >= 100,
        m % 100 == 0,
        4 * m <= max,
    ensures
        magnitude(max, m) >= 100,
        magnitude(max, m) % 100 == 0,
        4 * magnitude(max, m) <= max < 40 * magnitude(max, m),
    decreases max - m,
{
    if 40 * m <= max {
        lemma_magnitude(max, 10 * m);
    }
}

/// Steps are round and reach the maximum, and there are at most five of them.
pub proof fn ticks_reach_the_maximum(max: int)
    requires
        max >= 1000,
    ensures
        tick_step(max) >= 1,
        4 * tick_step(max) >= max,
        tick_step(max) <= max,
        max <= tick_step(max) * tick_count(max) < max + tick_step(max),
        1 <= tick_count(max) <= 4,
{
    lemma_magnitude(max, 100);
    let step = tick_step(max);
    let count = tick_count(max);
    assert(4 * step >= max && step <= max && step >= 1);
    assert(max <= step * count < max + step && 1 <= count <= 4) by (nonlinear_arith)
        requires
            step >= 1,
            4 * step >= max,
            1 <= max,
            count == (max + step - 1) / step,
    ;
}

/// A round step (1, 2, 2.5 or 5 times a power of ten) and how many of them reach `max`, aiming
/// for about four gridlines.
pub fn ticks(max: i128) -> (r: (i128, u32))
    requires
        1000 <= max,
        10 * max <= i128::MAX,
    ensures
        r.0 == tick_step(max as int),
        r.1 == tick_count(max as int),
{
    let mut m: i128 = 100;
    while 40 * m <= max
        invariant
            100 <= m,
            m % 100 == 0,
            4 * m <= max,
            10 * max <= i128::MAX,
            magnitude(max as int, 100) == magnitude(max as int, m as int),
        decreases max - m,
    {
        m = 10 * m;
    }
    proof {
        ticks_reach_the_maximum(max as int);
    }
    let step: i128 = if 4 * m >= max {
        m
    } else if 8 * m >= max {
        2 * m
    } else if 10 * m >= max {
        5 * m / 2
    } else if 20 * m >= max {
        5 * m
    } else {
        10 * m
    };
    (step, ((max + step - 1) / step) as u32)
}

// ---------------------------------------------------------------------------------------------
// Coordinates
// ---------------------------------------------------------------------------------------------

/// Tenths, written without a trailing zero.
pub open spec fn tenths_text(tenths: nat) -> Seq<char> {
    if tenths % 10 == 0 {
        text::decimal(tenths / 10)
    } else {
        text::decimal(tenths / 10) + seq!['.', text::digit_char((tenths % 10) as int)]
    }
}

/// SVG coordinates to a tenth of a unit, without trailing zeros. The value is `n / d` tenths.
pub open spec fn coord_text(n: int, d: int) -> Seq<char> {
    tenths_text(num::rounded(n, d) as nat)
}

pub open spec fn is_coord(n: int, d: int) -> bool {
    &&& 0 < d
    &&& 24_001 * d <= i128::MAX
    &&& 0 <= n <= 12_000 * d
}

proof fn lemma_coord_bound(n: int, d: int)
    requires
        is_coord(n, d),
    ensures
        0 <= num::rounded(n, d) <= 12_000,
{
    assert(0 <= (2 * n + d) / (2 * d) <= 12_000) by (nonlinear_arith)
        requires
            0 < d,
            0 <= n <= 12_000 * d,
    ;
}

fn coord(n: i128, d: i128) -> (r: String)
    requires
        is_coord(n as int, d as int),
    ensures
        r@ == coord_text(n as int, d as int),
{
    proof {
        lemma_coord_bound(n as int, d as int);
    }
    let tenths: u64 = num::round_div(n, d) as u64;
    let mut out = String::new();
    text::push_decimal(&mut out, tenths / 10);
    if tenths % 10 != 0 {
        out.push('.');
        out.push(text::char_of_digit((tenths % 10) as u8));
    }
    assert(out@ =~= coord_text(n as int, d as int));
    out
}

// ---------------------------------------------------------------------------------------------
// Geometry
// ---------------------------------------------------------------------------------------------

/// Twelve by `n` bars: the width of one, in tenths times `n`.
pub open spec fn bar_width(n: int) -> int {
    if n <= 25 {
        240 * n
    } else {
        6188
    }
}

/// Where the bar with the given number starts, in tenths times `n`.
pub open spec fn bar_left(n: int, index: int) -> int {
    640 * n + 8840 * index + (8840 - bar_width(n)) / 2
}

/// How high above the lower edge a value is, in tenths times `top`, where `top` is the value of
/// the highest gridline.
pub open spec fn height_at(top: int, value: int) -> int {
    2300 * top - 2180 * value
}

/// A path that is square at the baseline and at the top.
pub open spec fn square_path(n: int, index: int, top: int, upper: int, lower: int) -> Seq<char> {
    let left = coord_text(bar_left(n, index), n);
    let right = coord_text(bar_left(n, index) + bar_width(n), n);
    let bottom = coord_text(lower, top);
    "M"@ + left + " "@ + coord_text(upper, top) + "H"@ + right + "V"@ + bottom + "H"@ + left + "Z"@
}

/// What limits how round the top of a bar is.
#[derive(Debug, Clone, Copy, PartialEq, Eq, Structural)]
pub enum Rounding {
    /// Four units.
    Full,
    /// The height of the segment.
    Height,
    /// Half the width of the bar.
    HalfWidth,
}

/// The smallest of four units, the height and half the width.
pub open spec fn rounding(n: int, top: int, height: int) -> Rounding {
    if 40 * top <= height && 80 * n <= bar_width(n) {
        Rounding::Full
    } else if height * 2 * n <= bar_width(n) * top {
        Rounding::Height
    } else {
        Rounding::HalfWidth
    }
}

/// Where the round corners meet the sides: below the top, right of the left side and left of
/// the right side.
pub open spec fn corner_y(n: int, top: int, upper: int, lower: int) -> Seq<char> {
    match rounding(n, top, lower - upper) {
        Rounding::Full => coord_text(upper + 40 * top, top),
        Rounding::Height => coord_text(lower, top),
        Rounding::HalfWidth => coord_text(2 * n * upper + bar_width(n) * top, 2 * n * top),
    }
}

pub open spec fn corner_left(n: int, index: int, top: int, height: int) -> Seq<char> {
    let x = bar_left(n, index);
    match rounding(n, top, height) {
        Rounding::Full => coord_text(x + 40 * n, n),
        Rounding::Height => coord_text(x * top + height * n, n * top),
        Rounding::HalfWidth => coord_text(2 * x + bar_width(n), 2 * n),
    }
}

pub open spec fn corner_right(n: int, index: int, top: int, height: int) -> Seq<char> {
    let x = bar_left(n, index) + bar_width(n);
    match rounding(n, top, height) {
        Rounding::Full => coord_text(x - 40 * n, n),
        Rounding::Height => coord_text(x * top - height * n, n * top),
        Rounding::HalfWidth => coord_text(2 * x - bar_width(n), 2 * n),
    }
}

/// A path that is square at the baseline and rounded at the top.
pub open spec fn round_path(n: int, index: int, top: int, upper: int, lower: int) -> Seq<char> {
    let left = coord_text(bar_left(n, index), n);
    let right = coord_text(bar_left(n, index) + bar_width(n), n);
    let bottom = coord_text(lower, top);
    let edge = coord_text(upper, top);
    let y_r = corner_y(n, top, upper, lower);
    let x_r = corner_left(n, index, top, lower - upper);
    let x_wr = corner_right(n, index, top, lower - upper);
    "M"@ + left + " "@ + bottom + "V"@ + y_r + "Q"@ + left + " "@ + edge + " "@ + x_r + " "@ + edge
        + "H"@ + x_wr + "Q"@ + right + " "@ + edge + " "@ + right + " "@ + y_r + "V"@ + bottom + "Z"@
}

/// The plot holds so many bars, and its highest gridline is at `top`; its coordinates can be
/// computed.
pub open spec fn is_plot(n: int, top: int) -> bool {
    1 <= n && 1 <= top && 48_002 * (n * top) <= i128::MAX
}

proof fn lemma_plot_top(n: int, top: int)
    requires
        is_plot(n, top),
    ensures
        48_002 * top <= i128::MAX,
        48_002 * n <= i128::MAX,
{
    assert(top <= n * top && n <= n * top) by (nonlinear_arith)
        requires
            1 <= n,
            1 <= top,
    ;
}

#[verifier::rlimit(60)]
fn bar_path(n: i128, index: i128, top: i128, upper: i128, lower: i128, round: bool) -> (r: String)
    requires
        is_plot(n as int, top as int),
        0 <= index < n,
        0 <= upper < lower <= 2300 * top,
    ensures
        r@ == if round {
            round_path(n as int, index as int, top as int, upper as int, lower as int)
        } else {
            square_path(n as int, index as int, top as int, upper as int, lower as int)
        },
{
    let width: i128 = if n <= 25 {
        240 * n
    } else {
        6188
    };
    proof {
        lemma_plot_top(n as int, top as int);
    }
    let x: i128 = 640 * n + 8840 * index + (8840 - width) / 2;
    assert(x == bar_left(n as int, index as int));
    let left = coord(x, n);
    let right = coord(x + width, n);
    let bottom = coord(lower, top);
    let edge = coord(upper, top);
    let mut out = String::new();
    out.append("M");
    out.append(left.as_str());
    out.append(" ");
    if !round {
        out.append(edge.as_str());
        out.append("H");
        out.append(right.as_str());
        out.append("V");
        out.append(bottom.as_str());
        out.append("H");
        out.append(left.as_str());
        out.append("Z");
        assert(out@ =~= square_path(
            n as int,
            index as int,
            top as int,
            upper as int,
            lower as int,
        ));
        return out;
    }
    let (y_r, x_r, x_wr) = corners(n, index, top, upper, lower);
    out.append(bottom.as_str());
    out.append("V");
    out.append(y_r.as_str());
    out.append("Q");
    out.append(left.as_str());
    out.append(" ");
    out.append(edge.as_str());
    out.append(" ");
    out.append(x_r.as_str());
    out.append(" ");
    out.append(edge.as_str());
    out.append("H");
    out.append(x_wr.as_str());
    out.append("Q");
    out.append(right.as_str());
    out.append(" ");
    out.append(edge.as_str());
    out.append(" ");
    out.append(right.as_str());
    out.append(" ");
    out.append(y_r.as_str());
    out.append("V");
    out.append(bottom.as_str());
    out.append("Z");
    assert(out@ =~= round_path(n as int, index as int, top as int, upper as int, lower as int));
    out
}

fn corners(n: i128, index: i128, top: i128, upper: i128, lower: i128) -> (r: (String, String, String))
    requires
        is_plot(n as int, top as int),
        0 <= index < n,
        0 <= upper < lower <= 2300 * top,
    ensures
        r.0@ == corner_y(n as int, top as int, upper as int, lower as int),
        r.1@ == corner_left(n as int, index as int, top as int, lower - upper),
        r.2@ == corner_right(n as int, index as int, top as int, lower - upper),
{
    let width: i128 = if n <= 25 {
        240 * n
    } else {
        6188
    };
    proof {
        lemma_plot_top(n as int, top as int);
    }
    let x: i128 = 640 * n + 8840 * index + (8840 - width) / 2;
    let height: i128 = lower - upper;
    proof {
        lemma_corner_bounds(n as int, index as int, top as int, upper as int, lower as int);
    }
    if 40 * top <= height && 80 * n <= width {
        (
            coord(upper + 40 * top, top),
            coord(x + 40 * n, n),
            coord(x + width - 40 * n, n),
        )
    } else if height * (2 * n) <= width * top {
        (
            coord(lower, top),
            coord(x * top + height * n, n * top),
            coord((x + width) * top - height * n, n * top),
        )
    } else {
        (
            coord(2 * n * upper + width * top, 2 * n * top),
            coord(2 * x + width, 2 * n),
            coord(2 * (x + width) - width, 2 * n),
        )
    }
}

proof fn lemma_corner_bounds(n: int, index: int, top: int, upper: int, lower: int)
    requires
        is_plot(n, top),
        0 <= index < n,
        0 <= upper < lower <= 2300 * top,
    ensures
        ({
            let width = bar_width(n);
            let x = bar_left(n, index);
            let height = lower - upper;
            &&& 0 <= x <= 9_480 * n
            &&& 0 <= x + width <= 9_480 * n
            &&& 0 <= height * (2 * n) <= 4600 * (n * top)
            &&& height * 2 * n == height * (2 * n)
            &&& 0 < n * top
            &&& 0 < 2 * n * top
            &&& 24_001 * (n * top) <= i128::MAX
            &&& 24_001 * (2 * n * top) <= i128::MAX
            &&& 0 <= x * top <= 9_480 * (n * top)
            &&& 0 <= (x + width) * top <= 9_480 * (n * top)
            &&& 0 <= height * n <= 2300 * (n * top)
            &&& 0 <= 2 * n * upper <= 2300 * (2 * n * top)
            &&& 0 <= width * top <= 6188 * (2 * n * top)
            &&& height * 2 * n <= width * top ==> (x + width) * top - height * n >= 0
        }),
{
    let width = bar_width(n);
    let x = bar_left(n, index);
    let height = lower - upper;
    assert(0 <= x <= 9_480 * n && 0 <= x + width <= 9_480 * n);
    assert(0 < n * top) by (nonlinear_arith)
        requires
            1 <= n,
            1 <= top,
    ;
    assert(2 * n * top == 2 * (n * top)) by (nonlinear_arith);
    assert(0 <= x * top <= 9_480 * (n * top)) by (nonlinear_arith)
        requires
            0 <= x <= 9_480 * n,
            1 <= top,
    ;
    assert(0 <= (x + width) * top <= 9_480 * (n * top)) by (nonlinear_arith)
        requires
            0 <= x + width <= 9_480 * n,
            1 <= top,
    ;
    assert(0 <= height * n <= 2300 * (n * top)) by (nonlinear_arith)
        requires
            0 <= height <= 2300 * top,
            1 <= n,
    ;
    assert(height * (2 * n) == 2 * (height * n) && height * 2 * n == height * (2 * n))
        by (nonlinear_arith);
    assert(2 * n * upper == 2 * (n * upper)) by (nonlinear_arith);
    assert(0 <= n * upper <= 2300 * (n * top)) by (nonlinear_arith)
        requires
            0 <= upper <= 2300 * top,
            1 <= n,
    ;
    assert(0 <= width * top <= 6188 * (n * top)) by (nonlinear_arith)
        requires
            0 <= width <= 6188 * n,
            1 <= top,
    ;
    if height * 2 * n <= width * top {
        assert((x + width) * top == x * top + width * top) by (nonlinear_arith);
    }
}

// ---------------------------------------------------------------------------------------------
// The chart
// ---------------------------------------------------------------------------------------------

/// The sum of the values above zero.
pub open spec fn total_of(values: Seq<i128>) -> int
    decreases values.len(),
{
    if values.len() == 0 {
        0
    } else {
        total_of(values.drop_last()) + if values.last() > 0 {
            values.last() as int
        } else {
            0
        }
    }
}

/// The highest bar.
pub open spec fn highest(bars: Seq<BarInput>) -> int
    decreases bars.len(),
{
    if bars.len() == 0 {
        0
    } else {
        let before = highest(bars.drop_last());
        let last = total_of(bars.last().values@);
        if last > before {
            last
        } else {
            before
        }
    }
}

/// The value of the highest gridline, in thousandths.
pub open spec fn top_value(bars: Seq<BarInput>) -> int {
    tick_step(1000 * highest(bars)) * tick_count(1000 * highest(bars))
}

/// Where the segment of a value ends below. All but the lowest leave a gap.
pub open spec fn segment_lower(values: Seq<i128>, top: int, at: int) -> int {
    let below = total_of(values.take(at));
    height_at(top, 1000 * below) - if below > 0 {
        20 * top
    } else {
        0
    }
}

pub open spec fn segment_upper(values: Seq<i128>, top: int, at: int) -> int {
    height_at(top, 1000 * total_of(values.take(at + 1)))
}

/// Whether a value is high enough to be seen.
pub open spec fn is_drawn(values: Seq<i128>, top: int, at: int) -> bool {
    values[at] > 0 && segment_lower(values, top, at) - segment_upper(values, top, at) >= 5 * top
}

/// The first `n` values' segments, by the place of their value.
pub open spec fn drawn_values(values: Seq<i128>, top: int, n: int) -> Seq<int>
    decreases n,
{
    if n <= 0 {
        seq![]
    } else {
        let before = drawn_values(values, top, n - 1);
        if is_drawn(values, top, n - 1) {
            before.push(n - 1)
        } else {
            before
        }
    }
}

/// The segment of the value at `at`: the uppermost is rounded.
pub open spec fn segment_path(values: Seq<i128>, n: int, index: int, top: int, at: int) -> Seq<char> {
    let upper = segment_upper(values, top, at);
    let lower = segment_lower(values, top, at);
    if total_of(values.take(at + 1)) == total_of(values) {
        round_path(n, index, top, upper, lower)
    } else {
        square_path(n, index, top, upper, lower)
    }
}

pub open spec fn segment_title(series: Seq<Series>, bar: BarInput, at: int, value: Seq<char>) -> Seq<
    char,
> {
    let said = bar.label@ + ": "@ + value;
    if series.len() > 1 {
        series[at].name@ + ", "@ + said
    } else {
        said
    }
}

pub open spec fn is_segment<F: Fn(i128) -> String>(
    format: F,
    series: Seq<Series>,
    bar: BarInput,
    n: int,
    index: int,
    top: int,
    at: int,
    segment: Segment,
) -> bool {
    &&& segment.path@ == segment_path(bar.values@, n, index, top, at)
    &&& segment.slot@ == series[at].slot@
    &&& exists|value: String| #[trigger]
        call_ensures(format, ((1000 * bar.values@[at]) as i128,), value) && segment.title@
            == segment_title(series, bar, at, value@)
}

/// How many bars there are to one label.
pub open spec fn label_every(n: int) -> int {
    (n + MAX_LABELS - 1) / MAX_LABELS as int
}

pub open spec fn is_bar<F: Fn(i128) -> String>(
    format: F,
    series: Seq<Series>,
    input: BarInput,
    n: int,
    index: int,
    top: int,
    bar: Bar,
) -> bool {
    let drawn = drawn_values(input.values@, top, input.values@.len() as int);
    &&& bar.center@ == coord_text(2 * bar_left(n, index) + bar_width(n), 2 * n)
    &&& if index % label_every(n) == 0 {
        bar.label matches Some(label) && label@ == input.short_label@
    } else {
        bar.label is None
    }
    &&& bar.segments@.len() == drawn.len()
    &&& forall|k: int|
        0 <= k < drawn.len() ==> is_segment(
            format,
            series,
            input,
            n,
            index,
            top,
            drawn[k],
            #[trigger] bar.segments@[k],
        )
}

pub open spec fn is_grid_line<F: Fn(i128) -> String>(
    format: F,
    step: int,
    top: int,
    i: int,
    line: GridLine,
) -> bool {
    &&& line.y@ == coord_text(height_at(top, step * i), top)
    &&& line.text_y@ == coord_text(height_at(top, step * i) + 40 * top, top)
    &&& call_ensures(format, ((step * i) as i128,), line.label)
}

/// Whether any bar has a value in a series.
pub open spec fn is_shown(bars: Seq<BarInput>, series: int) -> bool {
    exists|i: int|
        0 <= i < bars.len() && series < (#[trigger] bars[i]).values@.len() && bars[i].values@[series]
            > 0
}

/// The first `n` series that have a value anywhere.
pub open spec fn visible(bars: Seq<BarInput>, n: int) -> Seq<int>
    decreases n,
{
    if n <= 0 {
        seq![]
    } else {
        let before = visible(bars, n - 1);
        if is_shown(bars, n - 1) {
            before.push(n - 1)
        } else {
            before
        }
    }
}

/// A bar's value in a series, 0 where it has none.
pub open spec fn value_in(bar: BarInput, series: int) -> int {
    if series < bar.values@.len() {
        bar.values@[series] as int
    } else {
        0
    }
}

pub open spec fn is_table_row<F: Fn(i128) -> String>(
    format: F,
    bar: BarInput,
    shown: Seq<int>,
    row: Seq<String>,
) -> bool {
    &&& row.len() == shown.len() + 1
    &&& row[0]@ == bar.label@
    &&& forall|k: int|
        0 <= k < shown.len() ==> call_ensures(
            format,
            ((1000 * value_in(bar, shown[k])) as i128,),
            #[trigger] row[k + 1],
        )
}

pub open spec fn is_chart<F: Fn(i128) -> String>(
    format: F,
    description: Seq<char>,
    series: Seq<Series>,
    bars: Seq<BarInput>,
    chart: BarChart,
) -> bool {
    let max = 1000 * highest(bars);
    let top = top_value(bars);
    let n = bars.len() as int;
    let shown = visible(bars, series.len() as int);
    &&& chart.view_box@ == "0 0 960 260"@
    &&& chart.description@ == description
    &&& chart.plot_left@ == "64"@
    &&& chart.plot_right@ == "948"@
    &&& chart.tick_x@ == "56"@
    &&& chart.label_y@ == "250"@
    &&& chart.grid@.len() == tick_count(max) + 1
    &&& forall|i: int|
        0 <= i < chart.grid@.len() ==> is_grid_line(
            format,
            tick_step(max),
            top,
            i,
            #[trigger] chart.grid@[i],
        )
    &&& chart.bars@.len() == n
    &&& forall|i: int|
        0 <= i < n ==> is_bar(format, series, bars[i], n, i, top, #[trigger] chart.bars@[i])
    &&& if shown.len() > 1 {
        &&& chart.legend@.len() == shown.len()
        &&& forall|k: int|
            0 <= k < shown.len() ==> (#[trigger] chart.legend@[k]).name@ == series[shown[k]].name@
                && chart.legend@[k].slot@ == series[shown[k]].slot@
    } else {
        chart.legend@.len() == 0
    }
    &&& chart.table_head@.len() == shown.len() + 1
    &&& chart.table_head@[0]@ == ""@
    &&& forall|k: int|
        0 <= k < shown.len() ==> (#[trigger] chart.table_head@[k + 1])@ == series[shown[k]].name@
    &&& chart.table_rows@.len() == n
    &&& forall|i: int|
        0 <= i < n ==> is_table_row(format, bars[i], shown, (#[trigger] chart.table_rows@[i])@)
}

/// So many bars with so high a value can be drawn: a coordinate takes the product of both, and
/// not more than so many times of it, which fits into 128 bits.
pub open spec fn fits(n: int, high: int) -> bool {
    100_000_000 * (n * high) <= i128::MAX
}

/// Bars that can be drawn: none has more values than there are series, and what is computed from
/// them fits into 128 bits.
pub open spec fn can_be_drawn(series: Seq<Series>, bars: Seq<BarInput>) -> bool {
    &&& fits(bars.len() as int, highest(bars))
    &&& forall|i: int| 0 <= i < bars.len() ==> (#[trigger] bars[i]).values@.len() <= series.len()
    &&& forall|i: int, k: int|
        0 <= i < bars.len() && 0 <= k < bars[i].values@.len() ==> -i128::MAX <= 1000
            * #[trigger] bars[i].values@[k]
}

/// Where there is a bar, so many times its value fits too.
pub proof fn lemma_fits(n: int, high: int)
    requires
        1 <= n,
        0 <= high,
        fits(n, high),
    ensures
        100_000_000 * high <= i128::MAX,
{
    assert(high <= n * high) by (nonlinear_arith)
        requires
            1 <= n,
            0 <= high,
    ;
}

/// Where every bar fits, the highest does.
pub proof fn lemma_highest_fits(bars: Seq<BarInput>, n: int)
    requires
        forall|i: int| 0 <= i < bars.len() ==> fits(n, total_of((#[trigger] bars[i]).values@)),
    ensures
        fits(n, highest(bars)),
    decreases bars.len(),
{
    if bars.len() > 0 {
        let front = bars.drop_last();
        assert forall|i: int| 0 <= i < front.len() implies fits(
            n,
            total_of((#[trigger] front[i]).values@),
        ) by {
            assert(front[i] == bars[i]);
        }
        lemma_highest_fits(front, n);
        assert(fits(n, total_of(bars[bars.len() - 1].values@)));
    } else {
        assert(n * 0 == 0) by (nonlinear_arith);
    }
}

/// What is lower fits as well.
pub proof fn lemma_lower_fits(n: int, low: int, high: int)
    requires
        0 <= n,
        low <= high,
        fits(n, high),
    ensures
        fits(n, low),
{
    assert(n * low <= n * high) by (nonlinear_arith)
        requires
            0 <= n,
            low <= high,
    ;
}

proof fn lemma_total_grows(values: Seq<i128>, i: int)
    requires
        0 <= i <= values.len(),
    ensures
        0 <= total_of(values.take(i)) <= total_of(values),
    decreases values.len(),
{
    if i < values.len() {
        lemma_total_grows(values.drop_last(), i);
        assert(values.drop_last().take(i) =~= values.take(i));
    } else {
        assert(values.take(i) =~= values);
        if values.len() > 0 {
            lemma_total_grows(values.drop_last(), i - 1);
        }
    }
}

proof fn lemma_value_below_total(values: Seq<i128>, i: int)
    requires
        0 <= i < values.len(),
    ensures
        values[i] <= total_of(values),
        0 <= total_of(values),
{
    lemma_total_grows(values, i);
    lemma_total_grows(values, i + 1);
    assert(values.take(i + 1).drop_last() =~= values.take(i));
}

proof fn lemma_highest(bars: Seq<BarInput>, i: int)
    requires
        0 <= i < bars.len(),
    ensures
        total_of(bars[i].values@) <= highest(bars),
    decreases bars.len(),
{
    if i < bars.len() - 1 {
        lemma_highest(bars.drop_last(), i);
    }
}

fn sum_of(values: &Vec<i128>) -> (r: i128)
    requires
        total_of(values@) <= i128::MAX,
    ensures
        r == total_of(values@),
        r >= 0,
{
    let mut sum: i128 = 0;
    let mut i: usize = 0;
    while i < values.len()
        invariant
            i <= values@.len(),
            total_of(values@) <= i128::MAX,
            sum == total_of(values@.take(i as int)),
            sum >= 0,
        decreases values.len() - i,
    {
        proof {
            lemma_total_grows(values@, i + 1);
        }
        assert(values@.take(i + 1).drop_last() =~= values@.take(i as int));
        if values[i] > 0 {
            sum = sum + values[i];
        }
        i += 1;
    }
    assert(values@.take(i as int) =~= values@);
    sum
}

fn find_highest(series: &Vec<Series>, bars: &Vec<BarInput>) -> (r: i128)
    requires
        can_be_drawn(series@, bars@),
    ensures
        r == highest(bars@),
        0 <= r,
{
    let mut max: i128 = 0;
    let mut i: usize = 0;
    while i < bars.len()
        invariant
            i <= bars@.len(),
            can_be_drawn(series@, bars@),
            max == highest(bars@.take(i as int)),
            0 <= max,
        decreases bars.len() - i,
    {
        proof {
            lemma_highest(bars@, i as int);
            lemma_total_grows(bars@[i as int].values@, 0);
            lemma_fits(bars@.len() as int, highest(bars@));
        }
        assert(bars@.take(i + 1).drop_last() =~= bars@.take(i as int));
        let total = sum_of(&bars[i].values);
        if total > max {
            max = total;
        }
        i += 1;
    }
    assert(bars@.take(i as int) =~= bars@);
    max
}

fn grid_lines<F: Fn(i128) -> String>(format: &F, step: i128, steps: u32) -> (r: Vec<GridLine>)
    requires
        forall|v: i128| v > i128::MIN ==> #[trigger] call_requires(*format, (v,)),
        1 <= step,
        1 <= steps <= 4,
        48_002 * (step * steps) <= i128::MAX,
    ensures
        r@.len() == steps + 1,
        forall|i: int|
            0 <= i <= steps ==> is_grid_line(
                *format,
                step as int,
                step * steps,
                i,
                #[trigger] r@[i],
            ),
{
    let top: i128 = step * steps as i128;
    let mut grid: Vec<GridLine> = Vec::new();
    let mut i: u32 = 0;
    assert(top >= 1) by (nonlinear_arith)
        requires
            step >= 1,
            steps >= 1,
            top == step * steps,
    ;
    while i <= steps
        invariant
            i <= steps + 1,
            steps <= 4,
            grid@.len() == i,
            1 <= step,
            1 <= top,
            48_002 * top <= i128::MAX,
            top == step * steps,
            forall|v: i128| v > i128::MIN ==> #[trigger] call_requires(*format, (v,)),
            forall|k: int|
                0 <= k < i ==> is_grid_line(
                    *format,
                    step as int,
                    top as int,
                    k,
                    #[trigger] grid@[k],
                ),
        decreases steps + 1 - i,
    {
        assert(0 <= step * i <= top) by (nonlinear_arith)
            requires
                step >= 1,
                i <= steps,
                top == step * steps,
        ;
        let value: i128 = step * i as i128;
        let y: i128 = 2300 * top - 2180 * value;
        let line = GridLine {
            y: coord(y, top),
            text_y: coord(y + 40 * top, top),
            label: format(value),
        };
        grid.push(line);
        i += 1;
    }
    grid
}

/// The title of a segment.
fn title(series: &Vec<Series>, bar: &BarInput, at: usize, value: &str) -> (r: String)
    requires
        at < series@.len(),
    ensures
        r@ == segment_title(series@, *bar, at as int, value@),
{
    let mut out = String::new();
    if series.len() > 1 {
        out.append(series[at].name.as_str());
        out.append(", ");
    }
    out.append(bar.label.as_str());
    out.append(": ");
    out.append(value);
    assert(out@ =~= segment_title(series@, *bar, at as int, value@));
    out
}

fn bar_segments<F: Fn(i128) -> String>(
    format: &F,
    series: &Vec<Series>,
    bar: &BarInput,
    n: usize,
    index: usize,
    top: i128,
) -> (r: Vec<Segment>)
    requires
        forall|v: i128| v > i128::MIN ==> #[trigger] call_requires(*format, (v,)),
        is_plot(n as int, top as int),
        index < n,
        bar.values@.len() <= series@.len(),
        1000 * total_of(bar.values@) <= top,
    ensures
        ({
            let drawn = drawn_values(bar.values@, top as int, bar.values@.len() as int);
            &&& r@.len() == drawn.len()
            &&& forall|k: int|
                0 <= k < drawn.len() ==> is_segment(
                    *format,
                    series@,
                    *bar,
                    n as int,
                    index as int,
                    top as int,
                    drawn[k],
                    #[trigger] r@[k],
                )
        }),
{
    let values = &bar.values;
    proof {
        lemma_plot_top(n as int, top as int);
        lemma_total_grows(values@, 0);
    }
    let whole: i128 = sum_of(values);
    let mut segments: Vec<Segment> = Vec::new();
    let mut below: i128 = 0;
    let mut i: usize = 0;
    while i < values.len()
        invariant
            i <= values@.len(),
            values@ == bar.values@,
            values@.len() <= series@.len(),
            forall|v: i128| v > i128::MIN ==> #[trigger] call_requires(*format, (v,)),
            is_plot(n as int, top as int),
            index < n,
            1000 * total_of(values@) <= top,
            48_002 * top <= i128::MAX,
            whole == total_of(values@),
            below == total_of(values@.take(i as int)),
            0 <= below <= whole,
            segments@.len() == drawn_values(values@, top as int, i as int).len(),
            forall|k: int|
                0 <= k < segments@.len() ==> is_segment(
                    *format,
                    series@,
                    *bar,
                    n as int,
                    index as int,
                    top as int,
                    drawn_values(values@, top as int, i as int)[k],
                    #[trigger] segments@[k],
                ),
        decreases values.len() - i,
    {
        proof {
            lemma_total_grows(values@, i as int);
            lemma_total_grows(values@, i + 1);
        }
        assert(values@.take(i + 1).drop_last() =~= values@.take(i as int));
        let value: i128 = values[i];
        if value > 0 {
            let mut lower: i128 = 2300 * top - 2180 * (1000 * below);
            if below > 0 {
                lower = lower - 20 * top;
            }
            below = below + value;
            let upper: i128 = 2300 * top - 2180 * (1000 * below);
            assert(lower == segment_lower(values@, top as int, i as int));
            assert(upper == segment_upper(values@, top as int, i as int));
            if lower - upper >= 5 * top {
                let said = format(1000 * value);
                let segment = Segment {
                    path: bar_path(
                        n as i128,
                        index as i128,
                        top,
                        upper,
                        lower,
                        below == whole,
                    ),
                    slot: series[i].slot,
                    title: title(series, bar, i, said.as_str()),
                };
                assert(is_segment(
                    *format,
                    series@,
                    *bar,
                    n as int,
                    index as int,
                    top as int,
                    i as int,
                    segment,
                ));
                segments.push(segment);
            }
        }
        i += 1;
    }
    segments
}

fn draw_bars<F: Fn(i128) -> String>(format: &F, series: &Vec<Series>, bars: &Vec<BarInput>, top: i128) -> (r:
    Vec<Bar>)
    requires
        forall|v: i128| v > i128::MIN ==> #[trigger] call_requires(*format, (v,)),
        can_be_drawn(series@, bars@),
        bars@.len() >= 1,
        is_plot(bars@.len() as int, top as int),
        1000 * highest(bars@) <= top,
    ensures
        r@.len() == bars@.len(),
        forall|i: int|
            0 <= i < bars@.len() ==> is_bar(
                *format,
                series@,
                bars@[i],
                bars@.len() as int,
                i,
                top as int,
                #[trigger] r@[i],
            ),
{
    let n: usize = bars.len();
    let every: usize = n / MAX_LABELS + if n % MAX_LABELS == 0 {
        0
    } else {
        1
    };
    let width: i128 = if n <= 25 {
        240 * n as i128
    } else {
        6188
    };
    let mut drawn: Vec<Bar> = Vec::new();
    let mut i: usize = 0;
    while i < n
        invariant
            i <= n,
            n == bars@.len(),
            n >= 1,
            every == label_every(n as int),
            every >= 1,
            width == bar_width(n as int),
            drawn@.len() == i,
            forall|v: i128| v > i128::MIN ==> #[trigger] call_requires(*format, (v,)),
            can_be_drawn(series@, bars@),
            is_plot(n as int, top as int),
            1000 * highest(bars@) <= top,
            forall|k: int|
                0 <= k < i ==> is_bar(
                    *format,
                    series@,
                    bars@[k],
                    n as int,
                    k,
                    top as int,
                    #[trigger] drawn@[k],
                ),
        decreases n - i,
    {
        proof {
            lemma_highest(bars@, i as int);
        }
        assert(bars@[i as int].values@.len() <= series@.len());
        let x: i128 = 640 * n as i128 + 8840 * i as i128 + (8840 - width) / 2;
        assert(x == bar_left(n as int, i as int));
        let segments = bar_segments(format, series, &bars[i], n, i, top);
        let bar = Bar {
            center: coord(2 * x + width, 2 * n as i128),
            label: if i % every == 0 {
                Some(bars[i].short_label.clone())
            } else {
                None
            },
            segments,
        };
        assert(is_bar(
            *format,
            series@,
            bars@[i as int],
            n as int,
            i as int,
            top as int,
            bar,
        ));
        drawn.push(bar);
        i += 1;
    }
    drawn
}

fn series_is_shown(bars: &Vec<BarInput>, series: usize) -> (r: bool)
    ensures
        r == is_shown(bars@, series as int),
{
    let mut i: usize = 0;
    while i < bars.len()
        invariant
            i <= bars@.len(),
            forall|k: int|
                0 <= k < i ==> !(series < (#[trigger] bars@[k]).values@.len()
                    && bars@[k].values@[series as int] > 0),
        decreases bars.len() - i,
    {
        if series < bars[i].values.len() && bars[i].values[series] > 0 {
            assert(bars@[i as int].values@[series as int] > 0);
            return true;
        }
        i += 1;
    }
    false
}

/// The places of the series that have a value anywhere.
pub open spec fn places(shown: Seq<usize>) -> Seq<int> {
    shown.map_values(|i: usize| i as int)
}

fn find_visible(bars: &Vec<BarInput>, n: usize) -> (r: Vec<usize>)
    ensures
        places(r@) == visible(bars@, n as int),
        forall|k: int| 0 <= k < r@.len() ==> #[trigger] r@[k] < n,
{
    let mut shown: Vec<usize> = Vec::new();
    let mut i: usize = 0;
    assert(places(shown@) =~= visible(bars@, 0));
    while i < n
        invariant
            i <= n,
            places(shown@) == visible(bars@, i as int),
            forall|k: int| 0 <= k < shown@.len() ==> #[trigger] shown@[k] < i,
        decreases n - i,
    {
        if series_is_shown(bars, i) {
            let ghost before = shown@;
            shown.push(i);
            assert(places(shown@) =~= places(before).push(i as int));
        }
        i += 1;
    }
    shown
}

fn table_row<F: Fn(i128) -> String>(format: &F, bar: &BarInput, shown: &Vec<usize>) -> (r: Vec<String>)
    requires
        forall|v: i128| v > i128::MIN ==> #[trigger] call_requires(*format, (v,)),
        1000 * total_of(bar.values@) <= i128::MAX,
        forall|k: int|
            0 <= k < bar.values@.len() ==> -i128::MAX <= 1000 * #[trigger] bar.values@[k],
    ensures
        is_table_row(*format, *bar, places(shown@), r@),
{
    let mut row: Vec<String> = Vec::new();
    row.push(bar.label.clone());
    let mut k: usize = 0;
    while k < shown.len()
        invariant
            k <= shown@.len(),
            row@.len() == k + 1,
            row@[0]@ == bar.label@,
            forall|v: i128| v > i128::MIN ==> #[trigger] call_requires(*format, (v,)),
            1000 * total_of(bar.values@) <= i128::MAX,
            forall|k: int|
                0 <= k < bar.values@.len() ==> -i128::MAX <= 1000 * #[trigger] bar.values@[k],
            forall|j: int|
                0 <= j < k ==> call_ensures(
                    *format,
                    ((1000 * value_in(*bar, places(shown@)[j])) as i128,),
                    #[trigger] row@[j + 1],
                ),
        decreases shown.len() - k,
    {
        let at: usize = shown[k];
        let value: i128 = if at < bar.values.len() {
            proof {
                lemma_value_below_total(bar.values@, at as int);
            }
            bar.values[at]
        } else {
            0
        };
        assert(value == value_in(*bar, places(shown@)[k as int]));
        row.push(format(1000 * value));
        k += 1;
    }
    row
}

/// `None` when every value is zero: an empty plot says less than a sentence.
pub fn stacked<F: Fn(i128) -> String>(
    description: String,
    series: Vec<Series>,
    bars: Vec<BarInput>,
    format: F,
) -> (r: Option<BarChart>)
    requires
        forall|v: i128| v > i128::MIN ==> #[trigger] call_requires(format, (v,)),
        can_be_drawn(series@, bars@),
    ensures
        match r {
            Some(chart) => highest(bars@) > 0 && is_chart(
                format,
                description@,
                series@,
                bars@,
                chart,
            ),
            None => highest(bars@) == 0,
        },
{
    let max: i128 = find_highest(&series, &bars);
    if max <= 0 {
        return None;
    }
    assert(bars@.len() > 0);
    proof {
        lemma_fits(bars@.len() as int, max as int);
    }
    let (step, steps) = ticks(1000 * max);
    proof {
        ticks_reach_the_maximum(1000 * max as int);
        let n = bars@.len() as int;
        let top = step * steps;
        assert(fits(n, max as int));
        assert(top <= 2000 * max);
        assert(n * top <= 2000 * (n * max)) by (nonlinear_arith)
            requires
                top <= 2000 * max,
                1 <= n,
        ;
        assert(0 <= n * max) by (nonlinear_arith)
            requires
                0 <= max,
                1 <= n,
        ;
    }
    let top: i128 = step * steps as i128;
    let grid = grid_lines(&format, step, steps);
    let drawn = draw_bars(&format, &series, &bars, top);
    let shown = find_visible(&bars, series.len());
    let ghost named = visible(bars@, series@.len() as int);

    let mut legend: Vec<LegendItem> = Vec::new();
    let mut table_head: Vec<String> = Vec::new();
    table_head.push("".to_string());
    let mut k: usize = 0;
    while k < shown.len()
        invariant
            k <= shown@.len(),
            named == places(shown@),
            forall|j: int| 0 <= j < shown@.len() ==> #[trigger] shown@[j] < series@.len(),
            table_head@.len() == k + 1,
            table_head@[0]@ == ""@,
            forall|j: int|
                0 <= j < k ==> (#[trigger] table_head@[j + 1])@ == series@[named[j]].name@,
            legend@.len() == if named.len() > 1 {
                k as int
            } else {
                0
            },
            forall|j: int|
                0 <= j < legend@.len() ==> (#[trigger] legend@[j]).name@ == series@[named[j]].name@
                    && legend@[j].slot@ == series@[named[j]].slot@,
        decreases shown.len() - k,
    {
        let at: usize = shown[k];
        assert(named[k as int] == at);
        table_head.push(series[at].name.clone());
        if shown.len() > 1 {
            legend.push(LegendItem { name: series[at].name.clone(), slot: series[at].slot });
        }
        k += 1;
    }

    let mut table_rows: Vec<Vec<String>> = Vec::new();
    let mut i: usize = 0;
    while i < bars.len()
        invariant
            i <= bars@.len(),
            named == places(shown@),
            table_rows@.len() == i,
            can_be_drawn(series@, bars@),
            forall|v: i128| v > i128::MIN ==> #[trigger] call_requires(format, (v,)),
            forall|j: int|
                0 <= j < i ==> is_table_row(
                    format,
                    bars@[j],
                    named,
                    (#[trigger] table_rows@[j])@,
                ),
        decreases bars.len() - i,
    {
        proof {
            lemma_highest(bars@, i as int);
            lemma_total_grows(bars@[i as int].values@, 0);
            lemma_fits(bars@.len() as int, highest(bars@));
        }
        table_rows.push(table_row(&format, &bars[i], &shown));
        i += 1;
    }

    Some(
        BarChart {
            view_box: "0 0 960 260".to_string(),
            description,
            grid,
            bars: drawn,
            plot_left: "64".to_string(),
            plot_right: "948".to_string(),
            tick_x: "56".to_string(),
            label_y: "250".to_string(),
            legend,
            table_head,
            table_rows,
        },
    )
}

/// A bar is as high as its values together; those that are not above nothing add nothing.
pub proof fn a_bar_is_the_sum_of_its_values(values: Seq<i128>, i: int)
    requires
        0 <= i < values.len(),
    ensures
        values[i] > 0 ==> total_of(values) == total_of(values.remove(i)) + values[i],
        values[i] <= 0 ==> total_of(values) == total_of(values.remove(i)),
        total_of(Seq::empty()) == 0,
    decreases values.len(),
{
    if i == values.len() - 1 {
        assert(values.remove(i) =~= values.drop_last());
    } else {
        a_bar_is_the_sum_of_its_values(values.drop_last(), i);
        assert(values.remove(i).drop_last() =~= values.drop_last().remove(i));
        assert(values.remove(i).last() == values.last());
    }
}

/// The chart is as high as its highest bar.
pub proof fn the_highest_bar_counts(bars: Seq<BarInput>, i: int)
    requires
        0 <= i < bars.len(),
    ensures
        total_of(bars[i].values@) <= highest(bars),
        highest(bars) == 0 || exists|k: int|
            0 <= k < bars.len() && total_of((#[trigger] bars[k]).values@) == highest(bars),
    decreases bars.len(),
{
    let front = bars.drop_last();
    if front.len() > 0 {
        the_highest_bar_counts(front, if i < front.len() { i } else { 0 });
        if highest(front) != 0 {
            let k = choose|k: int|
                0 <= k < front.len() && total_of((#[trigger] front[k]).values@) == highest(front);
            assert(bars[k] == front[k]);
        }
    } else {
        assert(highest(front) == 0);
    }
    assert(bars[bars.len() - 1] == bars.last());
}

/// A series is shown where some bar has anything of it, in the order of the series.
pub proof fn series_without_values_are_left_out(bars: Seq<BarInput>, n: int, k: int)
    requires
        0 <= n,
    ensures
        visible(bars, n).contains(k) <==> 0 <= k < n && exists|i: int|
            0 <= i < bars.len() && k < (#[trigger] bars[i]).values@.len() && bars[i].values@[k] > 0,
        forall|i: int, j: int|
            0 <= i < j < visible(bars, n).len() ==> #[trigger] visible(bars, n)[i]
                < #[trigger] visible(bars, n)[j],
    decreases n,
{
    if n > 0 {
        let before = visible(bars, n - 1);
        let all = visible(bars, n);
        series_without_values_are_left_out(bars, n - 1, k);
        if all.contains(k) {
            let i = choose|i: int| 0 <= i < all.len() && all[i] == k;
            if i < before.len() {
                assert(before[i] == k);
            }
        }
        if before.contains(k) {
            let i = choose|i: int| 0 <= i < before.len() && before[i] == k;
            assert(all[i] == k);
        }
        if k == n - 1 && is_shown(bars, k) {
            assert(all[all.len() - 1] == k);
        }
        assert forall|i: int, j: int| 0 <= i < j < all.len() implies #[trigger] all[i]
            < #[trigger] all[j] by {
            assert(all[i] == before[i]);
            if j == before.len() {
                series_without_values_are_left_out(bars, n - 1, before[i]);
                assert(before.contains(before[i]));
            }
        }
    }
}

/// Nothing stands on the ground line and the highest tick at the top, with the values spread evenly
/// between them; bars stand side by side.
pub proof fn bars_stand_side_by_side(top: int, a: int, b: int, n: int, index: int)
    requires
        1 <= n,
        0 <= index < n,
    ensures
        height_at(top, 0) == 2300 * top,
        height_at(top, top) == 120 * top,
        a < b ==> height_at(top, b) < height_at(top, a),
        height_at(top, a) - height_at(top, b) == 2180 * (b - a),
        bar_left(n, index) + bar_width(n) <= bar_left(n, index + 1),
        640 * n <= bar_left(n, index),
        bar_left(n, index) + bar_width(n) <= 9480 * n,
        bar_width(n) <= 240 * n,
{
    assert(bar_width(n) <= 6188) by {
        if n <= 25 {
            assert(240 * n <= 6000);
        }
    }
    assert(8840 * (index + 1) == 8840 * index + 8840);
    assert(8840 * index + 8840 <= 8840 * n);
}

/// However many bars there are, no more than the labels that have room are written.
pub proof fn labels_have_room(n: int)
    requires
        1 <= n,
    ensures
        label_every(n) >= 1,
        label_every(n) * MAX_LABELS >= n,
        (label_every(n) - 1) * MAX_LABELS < n,
{
}

/// The parts of a bar stand on one another: the first on the ground, every other with a gap over
/// what is below it, and each as high as its value.
pub proof fn parts_stand_on_one_another(values: Seq<i128>, top: int, at: int)
    requires
        0 <= at < values.len(),
    ensures
        total_of(values.take(at)) == 0 ==> segment_lower(values, top, at) == 2300 * top,
        total_of(values.take(at)) > 0 ==> segment_lower(values, top, at) == 2300 * top - 2_180_000
            * total_of(values.take(at)) - 20 * top,
        values[at] > 0 ==> segment_upper(values, top, at) == 2300 * top - 2_180_000 * total_of(
            values.take(at),
        ) - 2_180_000 * values[at],
{
    assert(values.take(at + 1).drop_last() =~= values.take(at));
}

} // verus!
