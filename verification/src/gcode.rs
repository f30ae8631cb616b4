//! What a G-code file says of itself: its estimate, its nozzle and plate, and the filament that
//! each tool uses. Weights are in milligrams.

use vstd::prelude::*;

use crate::decimal;
use crate::lists;
use crate::preview;
use crate::text;

verus! {

#[derive(Debug, Clone, PartialEq, Eq)]
pub struct GcodeInfo {
    pub generator: String,
    pub printer_model: String,
    pub nozzle: String,
    pub plate: String,
    pub estimated_seconds: Option<i64>,
    pub layers: Option<i64>,
    pub tools: Vec<ToolUse>,
}

#[derive(Debug, PartialEq, Eq)]
pub struct ToolUse {
    pub index: u32,
    pub material: String,
    pub color: String,
    pub mg: i64,
    pub profile: String,
}

impl Clone for ToolUse {
    fn clone(&self) -> (r: ToolUse)
        ensures
            r == *self,
    {
        ToolUse {
            index: self.index,
            material: self.material.clone(),
            color: self.color.clone(),
            mg: self.mg,
            profile: self.profile.clone(),
        }
    }
}

/// Tools that use filament.
pub open spec fn uses_filament() -> spec_fn(ToolUse) -> bool {
    |tool: ToolUse| tool.mg > 0
}

/// The diameter that a text gives, in micrometres.
pub open spec fn diameter_of(s: Seq<char>) -> Option<u64> {
    match decimal::written(s) {
        Some(number) if !number.negative && number.floor(3) < 1_000_000_000 => Some(
            (number.floor(3) + if number.rounds_up(3) { 1int } else { 0 }) as u64,
        ),
        _ => None,
    }
}

impl GcodeInfo {
    /// The tools that use filament.
    pub fn used_tools(&self) -> (r: Vec<ToolUse>)
        ensures
            r@ == self.tools@.filter(uses_filament()),
    {
        let ghost p = uses_filament();
        let mut out: Vec<ToolUse> = Vec::new();
        proof {
            lists::lemma_filter_ends(self.tools@, p);
        }
        let mut i: usize = 0;
        while i < self.tools.len()
            invariant
                i <= self.tools@.len(),
                p == uses_filament(),
                out@ == self.tools@.take(i as int).filter(p),
            decreases self.tools.len() - i,
        {
            proof {
                lists::lemma_filter_step(self.tools@, p, i as int);
            }
            if self.tools[i].mg > 0 {
                out.push(self.tools[i].clone());
            }
            i += 1;
        }
        out
    }

    /// The nozzle diameter the file was sliced for, in micrometres, when it names one.
    pub fn nozzle_um(&self) -> (r: Option<u64>)
        ensures
            r == diameter_of(self.nozzle@),
    {
        match decimal::read_scaled(text::chars(self.nozzle.as_str()).as_slice(), 3) {
            Some(scaled) if !scaled.negative => match scaled.floor {
                Some(floor) if floor < 1_000_000_000 => Some(
                    floor + if scaled.rounds_up {
                        1
                    } else {
                        0
                    },
                ),
                _ => None,
            },
            _ => None,
        }
    }
}

// ---------------------------------------------------------------------------------------------
// The comments of a file
// ---------------------------------------------------------------------------------------------

/// What a line says of `key`, if it is a comment `; key = value` or `; key: value`.
pub open spec fn value_in(line: Seq<char>, key: Seq<char>) -> Option<Seq<char>> {
    let said = "; "@ + key;
    let rest = text::trim(line.skip(said.len() as int));
    if text::starts_with(line, said) && rest.len() > 0 && (rest[0] == '=' || rest[0] == ':') {
        Some(text::trim(rest.skip(1)))
    } else {
        None
    }
}

/// What the first line from `i` on that says anything of `key` says of it, or nothing.
pub open spec fn setting(lines: Seq<Seq<char>>, key: Seq<char>, i: int) -> Seq<char>
    decreases lines.len() - i,
{
    if i < 0 || i >= lines.len() {
        seq![]
    } else {
        match value_in(lines[i], key) {
            Some(value) => value,
            None => setting(lines, key, i + 1),
        }
    }
}

fn find_setting(lines: &Vec<String>, key: &str) -> (r: Vec<char>)
    ensures
        r@ == setting(text::views(lines@), key@, 0),
{
    let mut said = String::new();
    said.append("; ");
    said.append(key);
    let prefix = text::chars(said.as_str());
    assert(prefix@ =~= "; "@ + key@);
    let mut i: usize = 0;
    while i < lines.len()
        invariant
            i <= lines@.len(),
            prefix@ == "; "@ + key@,
            setting(text::views(lines@), key@, 0) == setting(text::views(lines@), key@, i as int),
        decreases lines.len() - i,
    {
        let line = text::chars(lines[i].as_str());
        assert(line@ == text::views(lines@)[i as int]);
        if text::has_prefix(line.as_slice(), prefix.as_slice()) {
            let rest = text::trimmed(
                vstd::slice::slice_subrange(line.as_slice(), prefix.len(), line.len()),
            );
            assert(line@.subrange(prefix@.len() as int, line@.len() as int) =~= line@.skip(
                prefix@.len() as int,
            ));
            if rest.len() > 0 && (rest[0] == '=' || rest[0] == ':') {
                let behind = vstd::slice::slice_subrange(rest, 1, rest.len());
                assert(behind@ =~= rest@.skip(1));
                return text::chars(text::string(text::trimmed(behind)).as_str());
            }
        }
        i += 1;
    }
    Vec::new()
}

/// The rest of the first line from `i` on that starts with `start`, or nothing.
pub open spec fn rest_of(lines: Seq<Seq<char>>, start: Seq<char>, i: int) -> Seq<char>
    decreases lines.len() - i,
{
    if i < 0 || i >= lines.len() {
        seq![]
    } else if text::starts_with(lines[i], start) {
        lines[i].skip(start.len() as int)
    } else {
        rest_of(lines, start, i + 1)
    }
}

fn find_rest(lines: &Vec<String>, start: &str) -> (r: String)
    ensures
        r@ == rest_of(text::views(lines@), start@, 0),
{
    let prefix = text::chars(start);
    let mut i: usize = 0;
    while i < lines.len()
        invariant
            i <= lines@.len(),
            prefix@ == start@,
            rest_of(text::views(lines@), start@, 0) == rest_of(
                text::views(lines@),
                start@,
                i as int,
            ),
        decreases lines.len() - i,
    {
        let line = text::chars(lines[i].as_str());
        assert(line@ == text::views(lines@)[i as int]);
        if text::has_prefix(line.as_slice(), prefix.as_slice()) {
            let rest = vstd::slice::slice_subrange(line.as_slice(), prefix.len(), line.len());
            assert(rest@ =~= line@.skip(start@.len() as int));
            return text::string(rest);
        }
        i += 1;
    }
    String::new()
}

/// Space and quotation marks round an item of a list do not belong to it.
pub open spec fn is_mark(c: char) -> bool {
    c == ' ' || c == '"'
}

pub open spec fn skip_marks(s: Seq<char>) -> Seq<char>
    decreases s.len(),
{
    if s.len() > 0 && is_mark(s[0]) {
        skip_marks(s.skip(1))
    } else {
        s
    }
}

pub open spec fn drop_marks(s: Seq<char>) -> Seq<char>
    decreases s.len(),
{
    if s.len() > 0 && is_mark(s.last()) {
        drop_marks(s.drop_last())
    } else {
        s
    }
}

fn without_marks(s: &[char]) -> (r: String)
    ensures
        r@ == drop_marks(skip_marks(s@)),
{
    let mut i: usize = 0;
    assert(s@.skip(0) =~= s@);
    while i < s.len() && (s[i] == ' ' || s[i] == '"')
        invariant
            i <= s@.len(),
            skip_marks(s@.skip(i as int)) == skip_marks(s@),
        decreases s.len() - i,
    {
        assert(s@.skip(i as int).skip(1) =~= s@.skip(i + 1));
        i += 1;
    }
    let ghost t = skip_marks(s@);
    assert(t =~= s@.skip(i as int));
    let mut j: usize = s.len();
    assert(s@.subrange(i as int, j as int) =~= t);
    while j > i && (s[j - 1] == ' ' || s[j - 1] == '"')
        invariant
            i <= j <= s@.len(),
            drop_marks(s@.subrange(i as int, j as int)) == drop_marks(t),
        decreases j,
    {
        assert(s@.subrange(i as int, j as int).drop_last() =~= s@.subrange(i as int, j - 1));
        j -= 1;
    }
    let bare = vstd::slice::slice_subrange(s, i, j);
    assert(bare@ == drop_marks(bare@));
    text::string(bare)
}

/// Where the item of a list ends that starts at `i`.
pub open spec fn item_end(s: Seq<char>, i: int) -> int
    decreases s.len() - i,
{
    if 0 <= i < s.len() && s[i] != ';' && s[i] != ',' {
        item_end(s, i + 1)
    } else {
        i
    }
}

proof fn lemma_item_end(s: Seq<char>, i: int)
    requires
        0 <= i <= s.len(),
    ensures
        i <= item_end(s, i) <= s.len(),
    decreases s.len() - i,
{
    if i < s.len() && s[i] != ';' && s[i] != ',' {
        lemma_item_end(s, i + 1);
    }
}

/// The items of a list from position `i` on; semicolons and commas stand between them.
pub open spec fn items_from(s: Seq<char>, i: int) -> Seq<Seq<char>>
    decreases s.len() - i,
    via items_from_decreases
{
    if i < 0 || i > s.len() {
        seq![]
    } else {
        let end = item_end(s, i);
        let item = drop_marks(skip_marks(s.subrange(i, end)));
        if end >= s.len() {
            seq![item]
        } else {
            seq![item] + items_from(s, end + 1)
        }
    }
}

#[via_fn]
proof fn items_from_decreases(s: Seq<char>, i: int) {
    if 0 <= i <= s.len() {
        lemma_item_end(s, i);
    }
}

fn split_items(s: &[char]) -> (r: Vec<String>)
    ensures
        text::views(r@) == items_from(s@, 0),
        r@.len() >= 1,
{
    let mut items: Vec<String> = Vec::new();
    let mut i: usize = 0;
    assert(text::views(items@) + items_from(s@, 0) =~= items_from(s@, 0));
    loop
        invariant
            i <= s@.len(),
            text::views(items@) + items_from(s@, i as int) == items_from(s@, 0),
        decreases s.len() - i,
    {
        let mut end: usize = i;
        proof {
            lemma_item_end(s@, i as int);
        }
        while end < s.len() && s[end] != ';' && s[end] != ','
            invariant
                i <= end <= s@.len(),
                item_end(s@, i as int) == item_end(s@, end as int),
            decreases s.len() - end,
        {
            end += 1;
        }
        let ghost before = text::views(items@);
        let item = without_marks(vstd::slice::slice_subrange(s, i, end));
        let ghost shown = item@;
        items.push(item);
        assert(text::views(items@) =~= before.push(shown));
        if end >= s.len() {
            assert(before + seq![shown] =~= text::views(items@));
            return items;
        }
        assert(before + (seq![shown] + items_from(s@, end + 1)) =~= text::views(items@)
            + items_from(s@, end + 1));
        i = end + 1;
    }
}

/// The item with a number, or nothing.
pub open spec fn item_at(items: Seq<Seq<char>>, i: int) -> Seq<char> {
    if 0 <= i < items.len() {
        items[i]
    } else {
        seq![]
    }
}

fn nth_item(items: &Vec<String>, i: usize) -> (r: String)
    ensures
        r@ == item_at(text::views(items@), i as int),
{
    if i < items.len() {
        items[i].clone()
    } else {
        String::new()
    }
}

/// The weight that a text gives in grams, to the milligram.
pub open spec fn weight_of(s: Seq<char>) -> Option<i64> {
    match decimal::written(s) {
        Some(number) if !number.negative && number.floor(3) < 1_000_000_000_000_000_000 => Some(
            (number.floor(3) + if number.rounds_up(3) { 1int } else { 0 }) as i64,
        ),
        _ => None,
    }
}

fn read_weight(s: &str) -> (r: Option<i64>)
    ensures
        r == weight_of(s@),
{
    match decimal::read_scaled(text::chars(s).as_slice(), 3) {
        Some(scaled) if !scaled.negative => match scaled.floor {
            Some(floor) if floor < 1_000_000_000_000_000_000 => Some(
                floor as i64 + if scaled.rounds_up {
                    1
                } else {
                    0
                },
            ),
            _ => None,
        },
        _ => None,
    }
}

/// The seconds that a unit of time has.
pub open spec fn unit_seconds(unit: char) -> Option<int> {
    if unit == 'd' {
        Some(86_400)
    } else if unit == 'h' {
        Some(3_600)
    } else if unit == 'm' {
        Some(60)
    } else if unit == 's' {
        Some(1)
    } else {
        None
    }
}

/// The seconds that a word such as `12m` stands for.
pub open spec fn word_seconds(word: Seq<char>) -> Option<int> {
    if word.len() == 0 {
        None
    } else {
        match (
            text::parsed_unsigned(word.drop_last(), u32::MAX as nat),
            unit_seconds(word.last()),
        ) {
            (Some(count), Some(length)) => Some(count * length),
            _ => None,
        }
    }
}

fn read_word(word: &[char]) -> (r: Option<u64>)
    ensures
        match r {
            Some(seconds) => word_seconds(word@) == Some(seconds as int) && seconds
                <= 400_000_000_000_000,
            None => word_seconds(word@) is None,
        },
{
    if word.len() == 0 {
        return None;
    }
    let last: usize = word.len() - 1;
    let number = vstd::slice::slice_subrange(word, 0, last);
    assert(number@ =~= word@.drop_last());
    let unit = word[last];
    let length: u64 = if unit == 'd' {
        86_400
    } else if unit == 'h' {
        3_600
    } else if unit == 'm' {
        60
    } else if unit == 's' {
        1
    } else {
        return None;
    };
    match text::parse_unsigned(number, u32::MAX as u64) {
        Some(count) => {
            proof {
                assert(count <= u32::MAX);
                assert(count * length <= 4_294_967_295 * 86_400) by (nonlinear_arith)
                    requires
                        count <= 4_294_967_295,
                        length <= 86_400,
                ;
                assert(0 <= count * length) by (nonlinear_arith);
            }
            Some(count * length)
        },
        None => None,
    }
}

/// What words such as `1h 2m 3s` add up to.
pub open spec fn sum_of(words: Seq<Seq<char>>) -> Option<int>
    decreases words.len(),
{
    if words.len() == 0 {
        Some(0)
    } else {
        match (sum_of(words.drop_last()), word_seconds(words.last())) {
            (Some(sum), Some(seconds)) => Some(sum + seconds),
            _ => None,
        }
    }
}

proof fn lemma_sum_of(words: Seq<Seq<char>>, n: int)
    requires
        0 <= n <= words.len(),
        sum_of(words.take(n)) is None,
    ensures
        sum_of(words) is None,
    decreases words.len() - n,
{
    if n < words.len() {
        assert(words.take(n + 1).drop_last() =~= words.take(n));
        lemma_sum_of(words, n + 1);
    } else {
        assert(words.take(n) =~= words);
    }
}

/// How long a text such as `1h 2m 3s` says that something takes.
pub open spec fn seconds_of(s: Seq<char>) -> Option<i64> {
    let words = preview::words_from(s, 0);
    match sum_of(words) {
        Some(sum) if words.len() > 0 && sum <= i64::MAX => Some(sum as i64),
        _ => None,
    }
}

fn read_seconds(s: &[char]) -> (r: Option<i64>)
    ensures
        r == seconds_of(s@),
{
    let words = preview::split_words(s);
    let ghost shown = preview::word_views(words@);
    let mut sum: u128 = 0;
    let mut i: usize = 0;
    assert(shown.take(0) =~= seq![]);
    while i < words.len()
        invariant
            i <= words@.len(),
            shown == preview::word_views(words@),
            shown == preview::words_from(s@, 0),
            sum_of(shown.take(i as int)) == Some(sum as int),
            sum <= 400_000_000_000_000 * i,
        decreases words.len() - i,
    {
        assert(shown.take(i + 1).drop_last() =~= shown.take(i as int));
        assert(shown[i as int] == words@[i as int]@);
        match read_word(words[i]) {
            Some(seconds) => {
                sum = sum + seconds as u128;
            },
            None => {
                proof {
                    lemma_sum_of(shown, i + 1);
                }
                return None;
            },
        }
        i += 1;
    }
    assert(shown.take(i as int) =~= shown);
    if words.len() > 0 && sum <= i64::MAX as u128 {
        Some(sum as i64)
    } else {
        None
    }
}

/// What is said of a tool: its number, material, colour, weight and profile.
pub struct ToolShown {
    pub index: u32,
    pub material: Seq<char>,
    pub color: Seq<char>,
    pub mg: i64,
    pub profile: Seq<char>,
}

impl ToolUse {
    pub open spec fn shown(self) -> ToolShown {
        ToolShown {
            index: self.index,
            material: self.material@,
            color: self.color@,
            mg: self.mg,
            profile: self.profile@,
        }
    }
}

pub open spec fn shown_tools(tools: Seq<ToolUse>) -> Seq<ToolShown> {
    tools.map_values(|tool: ToolUse| tool.shown())
}

/// The first `n` tools, of which those count that a weight is given for.
pub open spec fn tools_upto(
    weights: Seq<Seq<char>>,
    materials: Seq<Seq<char>>,
    colors: Seq<Seq<char>>,
    profiles: Seq<Seq<char>>,
    n: int,
) -> Seq<ToolShown>
    decreases n,
{
    if n <= 0 {
        seq![]
    } else {
        let before = tools_upto(weights, materials, colors, profiles, n - 1);
        match weight_of(weights[n - 1]) {
            Some(mg) => before.push(
                ToolShown {
                    index: (n - 1) as u32,
                    material: item_at(materials, n - 1),
                    color: item_at(colors, n - 1),
                    mg,
                    profile: item_at(profiles, n - 1),
                },
            ),
            None => before,
        }
    }
}

/// No file has more tools than there are numbers for them.
pub open spec fn tool_count(weights: Seq<Seq<char>>) -> int {
    if weights.len() > u32::MAX {
        u32::MAX as int
    } else {
        weights.len() as int
    }
}

fn read_tools(
    weights: &Vec<String>,
    materials: &Vec<String>,
    colors: &Vec<String>,
    profiles: &Vec<String>,
) -> (r: Vec<ToolUse>)
    ensures
        shown_tools(r@) == tools_upto(
            text::views(weights@),
            text::views(materials@),
            text::views(colors@),
            text::views(profiles@),
            tool_count(text::views(weights@)),
        ),
{
    let mut tools: Vec<ToolUse> = Vec::new();
    let mut i: usize = 0;
    assert(shown_tools(tools@) =~= seq![]);
    while i < weights.len() && (i as u64) < u32::MAX as u64
        invariant
            i <= tool_count(text::views(weights@)),
            shown_tools(tools@) == tools_upto(
                text::views(weights@),
                text::views(materials@),
                text::views(colors@),
                text::views(profiles@),
                i as int,
            ),
        decreases weights.len() - i,
    {
        if let Some(mg) = read_weight(weights[i].as_str()) {
            let tool = ToolUse {
                index: i as u32,
                material: nth_item(materials, i),
                color: nth_item(colors, i),
                mg,
                profile: nth_item(profiles, i),
            };
            let ghost before = tools@;
            tools.push(tool);
            assert(shown_tools(tools@) =~= shown_tools(before).push(tool.shown()));
        }
        i += 1;
    }
    tools
}

impl GcodeInfo {
    /// What the comments of a file say.
    pub open spec fn says(self, file: Seq<char>) -> bool {
        let lines = text::lines(file);
        &&& self.generator@ == rest_of(lines, "; generated by "@, 0)
        &&& self.printer_model@ == setting(lines, "printer_model"@, 0)
        &&& self.nozzle@ == item_at(items_from(setting(lines, "nozzle_diameter"@, 0), 0), 0)
        &&& self.plate@ == setting(lines, "curr_bed_type"@, 0)
        &&& self.estimated_seconds == seconds_of(
            setting(lines, "estimated printing time (normal mode)"@, 0),
        )
        &&& match text::parsed_signed(setting(lines, "total layer number"@, 0)) {
            Some(layers) => self.layers matches Some(n) && n == layers,
            None => self.layers is None,
        }
        &&& ({
            let weights = items_from(setting(lines, "filament used [g]"@, 0), 0);
            shown_tools(self.tools@) == tools_upto(
                weights,
                items_from(setting(lines, "filament_type"@, 0), 0),
                items_from(setting(lines, "filament_colour"@, 0), 0),
                items_from(setting(lines, "filament_settings_id"@, 0), 0),
                tool_count(weights),
            )
        })
    }
}

/// Reads what the slicer wrote into the comments of a G-code file.
pub fn read(file: &[u8]) -> (r: GcodeInfo)
    ensures
        r.says(preview::lossy(file@)),
{
    let content = preview::read_lossy(file);
    let lines = text::split_lines(text::chars(content.as_str()).as_slice());
    let weights = split_items(find_setting(&lines, "filament used [g]").as_slice());
    let materials = split_items(find_setting(&lines, "filament_type").as_slice());
    let colors = split_items(find_setting(&lines, "filament_colour").as_slice());
    let profiles = split_items(find_setting(&lines, "filament_settings_id").as_slice());
    let nozzles = split_items(find_setting(&lines, "nozzle_diameter").as_slice());
    GcodeInfo {
        generator: find_rest(&lines, "; generated by "),
        printer_model: text::string(find_setting(&lines, "printer_model").as_slice()),
        nozzle: nth_item(&nozzles, 0),
        plate: text::string(find_setting(&lines, "curr_bed_type").as_slice()),
        estimated_seconds: read_seconds(
            find_setting(&lines, "estimated printing time (normal mode)").as_slice(),
        ),
        layers: text::parse_signed(find_setting(&lines, "total layer number").as_slice()),
        tools: read_tools(&weights, &materials, &colors, &profiles),
    }
}

/// What a tool uses is counted where it is more than nothing, and only there.
pub proof fn tools_that_use_filament_count(tools: Seq<ToolUse>, tool: ToolUse)
    ensures
        tools.filter(uses_filament()).contains(tool) <==> tools.contains(tool) && tool.mg > 0,
{
    lists::filtering_keeps_what_is_picked(tools, uses_filament(), tool);
}

/// A day has 24 hours, an hour 60 minutes and a minute 60 seconds.
pub proof fn times_are_counts_of_a_unit(digits: Seq<char>, unit: char)
    requires
        digits.len() > 0,
        text::all_digits(digits),
        text::digits_value(digits) <= u32::MAX,
    ensures
        ({
            let n = text::digits_value(digits) as int;
            &&& unit == 'd' ==> word_seconds(digits.push(unit)) == Some(n * (24 * 3600))
            &&& unit == 'h' ==> word_seconds(digits.push(unit)) == Some(n * 3600)
            &&& unit == 'm' ==> word_seconds(digits.push(unit)) == Some(n * 60)
            &&& unit == 's' ==> word_seconds(digits.push(unit)) == Some(n)
            &&& unit != 'd' && unit != 'h' && unit != 'm' && unit != 's' ==> word_seconds(
                digits.push(unit),
            ) is None
        }),
        word_seconds(digits) is None,
{
    let n = text::digits_value(digits);
    assert(digits.push(unit).drop_last() =~= digits);
    assert(text::is_digit(digits[0]));
    assert(text::is_digit(digits.last()));
    assert(text::parsed_unsigned(digits, u32::MAX as nat) == Some(n));
    assert(n * (24 * 3600) == n * 86_400);
}

/// Every word of an estimate adds its time, and one that does not read spoils it.
pub proof fn estimates_add_up(words: Seq<Seq<char>>, i: int)
    requires
        0 <= i < words.len(),
    ensures
        match (sum_of(words), sum_of(words.remove(i)), word_seconds(words[i])) {
            (Some(all), Some(others), Some(this)) => all == others + this,
            (all, others, this) => all is None && (others is None || this is None),
        },
        words.len() == 1 ==> sum_of(words) == word_seconds(words[0]),
    decreases words.len(),
{
    if i == words.len() - 1 {
        assert(words.remove(i) =~= words.drop_last());
    } else {
        estimates_add_up(words.drop_last(), i);
        assert(words.remove(i).drop_last() =~= words.drop_last().remove(i));
        assert(words.remove(i).last() == words.last());
    }
    if words.len() == 1 {
        assert(words.drop_last() =~= Seq::<Seq<char>>::empty());
    }
}

/// Where a weight reads, it is off by half a milligram at most; a negative one does not read.
pub proof fn weights_are_read_to_the_milligram(s: Seq<char>)
    ensures
        match (weight_of(s), decimal::written(s)) {
            (Some(mg), Some(number)) => {
                let m = text::digits_value(number.digits) as int;
                let k = number.scale + 3;
                &&& !number.negative
                &&& k >= 0 ==> mg == m * decimal::pow10(k as nat)
                &&& k < 0 ==> {
                    let p = decimal::pow10((-k) as nat) as int;
                    -p <= 2 * (m - mg * p) < p
                }
            },
            (None, Some(number)) => number.negative || {
                let m = text::digits_value(number.digits) as int;
                let k = number.scale + 3;
                if k >= 0 {
                    m * decimal::pow10(k as nat) >= 1_000_000_000_000_000_000
                } else {
                    m >= 1_000_000_000_000_000_000 * decimal::pow10((-k) as nat)
                }
            },
            (weight, None) => weight is None,
        },
{
    reveal(decimal::floor_of);
    reveal(decimal::rounds_up_at);
    if let Some(number) = decimal::written(s) {
        let m = text::digits_value(number.digits) as int;
        let k = number.scale + 3;
        if k < 0 {
            decimal::lemma_pow10_grows(0, (-k) as nat);
            let p = decimal::pow10((-k) as nat) as int;
            let f = m / p;
            assert(m == f * p + m % p && 0 <= m % p < p) by (nonlinear_arith)
                requires
                    p > 0,
                    f == m / p,
            ;
            assert((f + 1) * p == f * p + p) by (nonlinear_arith);
            assert(f >= 0) by (nonlinear_arith)
                requires
                    p > 0,
                    m >= 0,
                    f == m / p,
            ;
            if f >= 1_000_000_000_000_000_000 {
                assert(f * p >= 1_000_000_000_000_000_000 * p) by (nonlinear_arith)
                    requires
                        f >= 1_000_000_000_000_000_000,
                        p > 0,
                ;
            }
        } else {
            decimal::lemma_floor_is_a_size(number.digits, k);
        }
    }
}

/// A comment gives its value behind `=` or `:`, without the white space around it.
pub proof fn comments_give_their_value(key: Seq<char>, value: Seq<char>, line: Seq<char>)
    ensures
        value_in("; "@ + key + " = "@ + value, key) == Some(text::trim(value)),
        value_in("; "@ + key + ": "@ + value, key) == Some(text::trim(value)),
        value_in(line, key) is Some ==> text::starts_with(line, "; "@ + key),
{
    reveal_strlit("; ");
    reveal_strlit(" = ");
    reveal_strlit(": ");
    let said = "; "@ + key;
    let a = said + " = "@ + value;
    let b = said + ": "@ + value;
    assert(a.take(said.len() as int) =~= said);
    assert(b.take(said.len() as int) =~= said);
    let x = seq!['='] + (seq![' '] + value);
    let y = seq![':'] + (seq![' '] + value);
    assert(a.skip(said.len() as int) =~= seq![' '] + x);
    assert(b.skip(said.len() as int) =~= y);
    assert((seq![' '] + x).skip(1) =~= x);
    assert(text::trim_start(seq![' '] + x) == text::trim_start(x));
    lemma_trim_keeps_the_first(x);
    lemma_trim_keeps_the_first(y);
    assert(x.skip(1) =~= seq![' '] + value);
    assert(y.skip(1) =~= seq![' '] + value);
    assert((seq![' '] + value).skip(1) =~= value);
    lemma_trim_trimmed(seq![' '] + value);
    assert(text::trim_start(seq![' '] + value) == text::trim_start(value));
}

/// A text that starts with no white space is trimmed at its end only.
proof fn lemma_trim_keeps_the_first(s: Seq<char>)
    requires
        s.len() > 0,
        !text::is_space(s[0]),
    ensures
        text::trim(s).len() > 0,
        text::trim(s)[0] == s[0],
        text::trim(s).skip(1) == text::trim_end(s.skip(1)),
    decreases s.len(),
{
    if s.len() > 1 && text::is_space(s.last()) {
        lemma_trim_keeps_the_first(s.drop_last());
        assert(s.drop_last().skip(1) =~= s.skip(1).drop_last());
        assert(s.skip(1).last() == s.last());
    } else if s.len() > 1 {
        assert(s.skip(1).last() == s.last());
    } else {
        assert(s.skip(1).len() == 0);
        assert(s.skip(1) =~= text::trim_end(s.skip(1)));
    }
}

/// Trimming what was trimmed at the end changes nothing more there.
proof fn lemma_trim_trimmed(s: Seq<char>)
    ensures
        text::trim(text::trim_end(s)) == text::trim(s),
    decreases s.len(),
{
    if s.len() > 0 && text::is_space(s.last()) {
        lemma_trim_trimmed(s.drop_last());
        lemma_trim_without_last(s);
    }
}

proof fn lemma_trim_without_last(s: Seq<char>)
    requires
        s.len() > 0,
        text::is_space(s.last()),
    ensures
        text::trim(s.drop_last()) == text::trim(s),
    decreases s.len(),
{
    if text::is_space(s[0]) {
        if s.len() > 1 {
            lemma_trim_without_last(s.skip(1));
            assert(s.skip(1).drop_last() =~= s.drop_last().skip(1));
        } else {
            assert(s.skip(1) =~= s.drop_last());
        }
    }
}

/// The first line that says anything of a key counts.
pub proof fn the_first_line_counts(lines: Seq<Seq<char>>, key: Seq<char>, i: int)
    requires
        0 <= i <= lines.len(),
        forall|j: int| 0 <= j < i ==> value_in(#[trigger] lines[j], key) is None,
    ensures
        i < lines.len() ==> (value_in(lines[i], key) matches Some(value) ==> setting(lines, key, 0)
            == value),
        i == lines.len() ==> setting(lines, key, 0).len() == 0,
{
    lemma_setting_from(lines, key, 0, i);
}

proof fn lemma_setting_from(lines: Seq<Seq<char>>, key: Seq<char>, from: int, to: int)
    requires
        0 <= from <= to <= lines.len(),
        forall|j: int| from <= j < to ==> value_in(#[trigger] lines[j], key) is None,
    ensures
        setting(lines, key, from) == setting(lines, key, to),
    decreases to - from,
{
    if from < to {
        lemma_setting_from(lines, key, from + 1, to);
    }
}

/// A list with a semicolon or a comma in it is the two lists on either side of it.
pub proof fn lists_split_at_their_separators(a: Seq<char>, c: char, b: Seq<char>)
    requires
        c == ';' || c == ',',
    ensures
        items_from(a.push(c) + b, 0) == items_from(a, 0) + items_from(b, 0),
{
    lemma_items_split(a, c, b, 0);
}

proof fn lemma_items_shift(a: Seq<char>, b: Seq<char>, i: int)
    requires
        0 <= i <= b.len(),
    ensures
        items_from(a + b, a.len() + i) == items_from(b, i),
    decreases b.len() - i,
{
    lemma_end_shift(a, b, i);
    lemma_item_end(b, i);
    let end = item_end(b, i);
    assert((a + b).subrange(a.len() + i, a.len() + end) =~= b.subrange(i, end));
    if end < b.len() {
        lemma_items_shift(a, b, end + 1);
    }
}

proof fn lemma_end_shift(a: Seq<char>, b: Seq<char>, i: int)
    requires
        0 <= i <= b.len(),
    ensures
        item_end(a + b, a.len() + i) == a.len() + item_end(b, i),
    decreases b.len() - i,
{
    if i < b.len() && b[i] != ';' && b[i] != ',' {
        lemma_end_shift(a, b, i + 1);
    }
}

proof fn lemma_end_before(a: Seq<char>, c: char, b: Seq<char>, i: int)
    requires
        c == ';' || c == ',',
        0 <= i <= a.len(),
    ensures
        item_end(a.push(c) + b, i) == item_end(a, i),
    decreases a.len() - i,
{
    if i < a.len() && a[i] != ';' && a[i] != ',' {
        lemma_end_before(a, c, b, i + 1);
    }
}

proof fn lemma_items_split(a: Seq<char>, c: char, b: Seq<char>, i: int)
    requires
        c == ';' || c == ',',
        0 <= i <= a.len(),
    ensures
        items_from(a.push(c) + b, i) == items_from(a, i) + items_from(b, 0),
    decreases a.len() - i,
{
    let s = a.push(c) + b;
    lemma_end_before(a, c, b, i);
    lemma_item_end(a, i);
    let end = item_end(a, i);
    assert(s.subrange(i, end) =~= a.subrange(i, end));
    if end < a.len() {
        lemma_items_split(a, c, b, end + 1);
        assert(items_from(s, i) =~= items_from(a, i) + items_from(b, 0));
    } else {
        lemma_items_shift(a.push(c), b, 0);
    }
}

/// A list without separators is one item, without the space and the quotation marks around it.
pub proof fn an_item_has_no_marks_around_it(before: Seq<char>, s: Seq<char>, after: Seq<char>)
    requires
        s.len() > 0,
        s[0] != ' ' && s[0] != '"',
        s.last() != ' ' && s.last() != '"',
        forall|i: int| 0 <= i < s.len() ==> #[trigger] s[i] != ';' && s[i] != ',',
        forall|i: int| 0 <= i < before.len() ==> #[trigger] before[i] == ' ' || before[i] == '"',
        forall|i: int| 0 <= i < after.len() ==> #[trigger] after[i] == ' ' || after[i] == '"',
    ensures
        items_from(before + s + after, 0) == seq![s],
{
    let whole = before + s + after;
    assert forall|i: int| 0 <= i < whole.len() implies #[trigger] whole[i] != ';' && whole[i]
        != ',' by {
        if i < before.len() {
            assert(whole[i] == before[i]);
        } else if i < before.len() + s.len() {
            assert(whole[i] == s[i - before.len()]);
        } else {
            assert(whole[i] == after[i - before.len() - s.len()]);
        }
    }
    lemma_end_of_all(whole, 0);
    assert(whole.subrange(0, whole.len() as int) =~= whole);
    assert(whole =~= before + (s + after));
    lemma_marks_before(before, s + after);
    lemma_marks_after(s, after);
}

proof fn lemma_end_of_all(s: Seq<char>, i: int)
    requires
        0 <= i <= s.len(),
        forall|j: int| 0 <= j < s.len() ==> #[trigger] s[j] != ';' && s[j] != ',',
    ensures
        item_end(s, i) == s.len(),
    decreases s.len() - i,
{
    if i < s.len() {
        lemma_end_of_all(s, i + 1);
    }
}

proof fn lemma_marks_before(before: Seq<char>, s: Seq<char>)
    requires
        s.len() > 0,
        s[0] != ' ' && s[0] != '"',
        forall|i: int| 0 <= i < before.len() ==> #[trigger] before[i] == ' ' || before[i] == '"',
    ensures
        skip_marks(before + s) == s,
    decreases before.len(),
{
    if before.len() > 0 {
        assert((before + s)[0] == before[0]);
        assert((before + s).skip(1) =~= before.skip(1) + s);
        lemma_marks_before(before.skip(1), s);
    } else {
        assert(before + s =~= s);
    }
}

proof fn lemma_marks_after(s: Seq<char>, after: Seq<char>)
    requires
        s.len() > 0,
        s.last() != ' ' && s.last() != '"',
        forall|i: int| 0 <= i < after.len() ==> #[trigger] after[i] == ' ' || after[i] == '"',
    ensures
        drop_marks(s + after) == s,
    decreases after.len(),
{
    if after.len() > 0 {
        assert((s + after).last() == after.last());
        assert((s + after).drop_last() =~= s + after.drop_last());
        lemma_marks_after(s, after.drop_last());
    } else {
        assert(s + after =~= s);
    }
}

/// Every tool that a weight is given for is listed with what the file says of it at its
/// position, in the order of the positions; no other tool is.
pub proof fn tools_are_listed_by_their_weights(
    weights: Seq<Seq<char>>,
    materials: Seq<Seq<char>>,
    colors: Seq<Seq<char>>,
    profiles: Seq<Seq<char>>,
    n: int,
    k: int,
)
    requires
        0 <= n <= weights.len(),
        n <= u32::MAX,
    ensures
        ({
            let tools = tools_upto(weights, materials, colors, profiles, n);
            &&& 0 <= k < n && weight_of(weights[k]) is Some ==> exists|i: int|
                0 <= i < tools.len() && (#[trigger] tools[i]).index == k
            &&& 0 <= k < tools.len() ==> {
                let tool = tools[k];
                &&& k <= tool.index < n
                &&& weight_of(weights[tool.index as int]) == Some(tool.mg)
                &&& tool.index < materials.len() ==> tool.material == materials[tool.index as int]
                &&& tool.index < colors.len() ==> tool.color == colors[tool.index as int]
                &&& tool.index < profiles.len() ==> tool.profile == profiles[tool.index as int]
                &&& tool.index >= materials.len() ==> tool.material.len() == 0
                &&& tool.index >= colors.len() ==> tool.color.len() == 0
                &&& tool.index >= profiles.len() ==> tool.profile.len() == 0
                &&& k + 1 < tools.len() ==> tool.index < tools[k + 1].index
            }
        }),
    decreases n,
{
    if n > 0 {
        let before = tools_upto(weights, materials, colors, profiles, n - 1);
        let tools = tools_upto(weights, materials, colors, profiles, n);
        tools_are_listed_by_their_weights(weights, materials, colors, profiles, n - 1, k);
        tools_are_listed_by_their_weights(
            weights,
            materials,
            colors,
            profiles,
            n - 1,
            before.len() - 1,
        );
        if 0 <= k < n && weight_of(weights[k]) is Some {
            if k < n - 1 {
                let i = choose|i: int| 0 <= i < before.len() && (#[trigger] before[i]).index == k;
                assert(tools[i] == before[i]);
            } else {
                assert(tools[before.len() as int].index == k);
            }
        }
    }
}

/// An estimate is the sum of its words; without any it says nothing.
pub proof fn an_estimate_is_the_sum_of_its_words(s: Seq<char>)
    ensures
        seconds_of(s) matches Some(seconds) ==> preview::words_from(s, 0).len() > 0 && sum_of(
            preview::words_from(s, 0),
        ) == Some(seconds as int),
        seconds_of(s) is None ==> preview::words_from(s, 0).len() == 0 || match sum_of(
            preview::words_from(s, 0),
        ) {
            Some(sum) => sum > i64::MAX,
            None => true,
        },
{
    lemma_sums_are_counts(preview::words_from(s, 0));
}

proof fn lemma_sums_are_counts(words: Seq<Seq<char>>)
    ensures
        sum_of(words) matches Some(sum) ==> sum >= 0,
    decreases words.len(),
{
    if words.len() > 0 {
        lemma_sums_are_counts(words.drop_last());
        if let Some(count) = text::parsed_unsigned(words.last().drop_last(), u32::MAX as nat) {
            assert(count * 86_400 >= 0 && count * 3_600 >= 0 && count * 60 >= 0);
        }
    }
}

} // verus!
