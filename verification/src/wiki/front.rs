//! The front matter of a wiki page: `key: value` lines between `---` fences.

use vstd::prelude::*;

use crate::config;
use crate::text;

verus! {

#[derive(Debug, PartialEq, Eq)]
pub struct FrontMatter {
    pub title: String,
    pub summary: String,
    pub keywords: String,
    pub order: i64,
}

pub ghost struct FrontShown {
    pub title: Seq<char>,
    pub summary: Seq<char>,
    pub keywords: Seq<char>,
    pub order: int,
}

impl FrontMatter {
    pub open spec fn shown(self) -> FrontShown {
        FrontShown {
            title: self.title@,
            summary: self.summary@,
            keywords: self.keywords@,
            order: self.order as int,
        }
    }
}

/// The fields of some lines, or the problem with the first line that is not `key: value`.
pub open spec fn fields_of(s: Seq<char>) -> Result<Seq<(Seq<char>, Seq<char>)>, Seq<char>>
    decreases s.len(),
    via fields_of_decreases
{
    if s.len() == 0 {
        Ok(seq![])
    } else {
        let end = text::find(s, '\n', 0);
        let line = if end < s.len() {
            text::without_return(s.take(end))
        } else {
            s
        };
        match text::split_once(line, ':') {
            None => Err("front matter line "@ + config::quoted(line) + " is not key: value"@),
            Some((key, value)) => match fields_of(
                if end < s.len() {
                    s.skip(end + 1)
                } else {
                    seq![]
                },
            ) {
                Err(problem) => Err(problem),
                Ok(rest) => Ok(seq![(text::trim(key), text::trim(value))] + rest),
            },
        }
    }
}

#[via_fn]
proof fn fields_of_decreases(s: Seq<char>) {
    text::lemma_find(s, '\n', 0);
}

/// The value of a key, which a later line overrides.
pub open spec fn field(fields: Seq<(Seq<char>, Seq<char>)>, key: Seq<char>) -> Option<Seq<char>>
    decreases fields.len(),
{
    if fields.len() == 0 {
        None
    } else if fields.last().0 == key {
        Some(fields.last().1)
    } else {
        field(fields.drop_last(), key)
    }
}

/// Whether a value that must be there is missing.
pub open spec fn lacks(fields: Seq<(Seq<char>, Seq<char>)>, key: Seq<char>) -> bool {
    match field(fields, key) {
        Some(value) => value.len() == 0,
        None => true,
    }
}

pub open spec fn value_or_empty(value: Option<Seq<char>>) -> Seq<char> {
    match value {
        Some(value) => value,
        None => seq![],
    }
}

/// What the fields say.
pub open spec fn front_from(fields: Seq<(Seq<char>, Seq<char>)>) -> Result<FrontShown, Seq<char>> {
    let order = match field(fields, "order"@) {
        Some(raw) => text::parsed_signed(raw),
        None => Some(0int),
    };
    if lacks(fields, "title"@) {
        Err("front matter needs "@ + "title"@)
    } else if lacks(fields, "summary"@) {
        Err("front matter needs "@ + "summary"@)
    } else {
        match order {
            None => Err(
                "order "@ + config::quoted(field(fields, "order"@)->Some_0) + " is not a number"@,
            ),
            Some(order) => Ok(
                FrontShown {
                    title: field(fields, "title"@)->Some_0,
                    summary: field(fields, "summary"@)->Some_0,
                    keywords: value_or_empty(field(fields, "keywords"@)),
                    order,
                },
            ),
        }
    }
}

/// What the front matter of a file says, and the text that follows it.
pub open spec fn front_of(source: Seq<char>) -> Result<(FrontShown, Seq<char>), Seq<char>> {
    let fence = "---\n"@;
    let rest = source.skip(fence.len() as int);
    let close = "\n---\n"@;
    let at = text::find_part(rest, close, 0);
    if !text::starts_with(source, fence) {
        Err("no front matter: the file must start with ---"@)
    } else if at == -1 {
        Err("the front matter is not closed with ---"@)
    } else {
        match fields_of(rest.take(at)) {
            Err(problem) => Err(problem),
            Ok(fields) => match front_from(fields) {
                Err(problem) => Err(problem),
                Ok(front) => Ok((front, rest.skip(at + close.len()))),
            },
        }
    }
}

struct Field {
    key: String,
    value: String,
}

spec fn pairs(fields: Seq<Field>) -> Seq<(Seq<char>, Seq<char>)> {
    fields.map_values(|f: Field| (f.key@, f.value@))
}

fn read_fields(header: &[char]) -> (r: Result<Vec<Field>, String>)
    ensures
        match (r, fields_of(header@)) {
            (Ok(fields), Ok(shown)) => pairs(fields@) == shown,
            (Err(problem), Err(shown)) => problem@ == shown,
            _ => false,
        },
{
    let mut fields: Vec<Field> = Vec::new();
    let mut rest = header;
    let ghost mut read: Seq<(Seq<char>, Seq<char>)> = seq![];
    assert(pairs(fields@) =~= read);
    proof {
        match fields_of(rest@) {
            Ok(shown) => {
                assert(read + shown =~= shown);
            },
            Err(_) => {},
        }
    }
    while rest.len() > 0
        invariant
            pairs(fields@) == read,
            match (fields_of(header@), fields_of(rest@)) {
                (Ok(all), Ok(shown)) => all == read + shown,
                (Err(all), Err(shown)) => all == shown,
                _ => false,
            },
        decreases rest@.len(),
    {
        let ghost before = rest@;
        let end = text::find_char(rest, '\n', 0);
        let total: usize = rest.len();
        let line = if end < total {
            let line = vstd::slice::slice_subrange(rest, 0, end);
            assert(line@ =~= before.take(end as int));
            if line.len() > 0 && line[line.len() - 1] == '\r' {
                let bare = vstd::slice::slice_subrange(line, 0, line.len() - 1);
                assert(bare@ =~= line@.drop_last());
                bare
            } else {
                line
            }
        } else {
            rest
        };
        match text::split_at_char(line, ':') {
            None => {
                let mut problem = "front matter line ".to_string();
                let line = text::string(line);
                problem.append(config::quote(line.as_str()).as_str());
                problem.append(" is not key: value");
                return Err(problem);
            },
            Some((key, value)) => {
                let ghost pair = (text::trim(key@), text::trim(value@));
                let ghost earlier = pairs(fields@);
                fields.push(
                    Field {
                        key: text::string(text::trimmed(key)),
                        value: text::string(text::trimmed(value)),
                    },
                );
                rest = if end < total {
                    let tail = vstd::slice::slice_subrange(rest, end + 1, total);
                    assert(tail@ =~= before.skip(end + 1));
                    tail
                } else {
                    let none = vstd::slice::slice_subrange(rest, 0, 0);
                    assert(none@ =~= seq![]);
                    none
                };
                proof {
                    assert(pairs(fields@) =~= earlier.push(pair));
                    match fields_of(rest@) {
                        Ok(shown) => {
                            assert(read + (seq![pair] + shown) =~= read.push(pair) + shown);
                        },
                        Err(_) => {},
                    }
                    read = read.push(pair);
                }
            },
        }
    }
    proof {
        match fields_of(header@) {
            Ok(all) => {
                assert(all =~= read);
            },
            Err(_) => {},
        }
    }
    Ok(fields)
}

fn get<'a>(fields: &'a Vec<Field>, key: &str) -> (r: Option<&'a String>)
    ensures
        match (r, field(pairs(fields@), key@)) {
            (Some(value), Some(shown)) => value@ == shown,
            (None, None) => true,
            _ => false,
        },
{
    let ghost all = pairs(fields@);
    let mut i: usize = fields.len();
    assert(all.take(i as int) =~= all);
    while i > 0
        invariant
            i <= fields@.len(),
            all == pairs(fields@),
            field(all, key@) == field(all.take(i as int), key@),
        decreases i,
    {
        assert(all.take(i as int).drop_last() =~= all.take(i - 1));
        assert(all.take(i as int).last() == (fields@[i - 1].key@, fields@[i - 1].value@));
        if text::same(fields[i - 1].key.as_str(), key) {
            return Some(&fields[i - 1].value);
        }
        i -= 1;
    }
    None
}

fn required(fields: &Vec<Field>, key: &str) -> (r: Result<String, String>)
    ensures
        match r {
            Ok(value) => !lacks(pairs(fields@), key@) && field(pairs(fields@), key@) == Some(
                value@,
            ),
            Err(problem) => lacks(pairs(fields@), key@) && problem@ == "front matter needs "@
                + key@,
        },
{
    match get(fields, key) {
        Some(value) if !value.as_str().is_empty() => Ok(value.clone()),
        _ => {
            let mut problem = "front matter needs ".to_string();
            problem.append(key);
            Err(problem)
        },
    }
}

/// Reads the `key: value` lines between the leading `---` fences.
pub fn front_matter(source: &str) -> (r: Result<(FrontMatter, String), String>)
    ensures
        match (r, front_of(source@)) {
            (Ok((front, body)), Ok((shown, rest))) => front.shown() == shown && body@ == rest,
            (Err(problem), Err(shown)) => problem@ == shown,
            _ => false,
        },
{
    let source = text::chars(source);
    let fence = text::chars("---\n");
    let close = text::chars("\n---\n");
    if !text::has_prefix(source.as_slice(), fence.as_slice()) {
        return Err("no front matter: the file must start with ---".to_string());
    }
    let total: usize = source.len();
    let rest = vstd::slice::slice_subrange(source.as_slice(), fence.len(), total);
    assert(rest@ =~= source@.skip(fence@.len() as int));
    let at = match text::find_slice(rest, close.as_slice(), 0) {
        None => {
            return Err("the front matter is not closed with ---".to_string());
        },
        Some(at) => at,
    };
    let header = vstd::slice::slice_subrange(rest, 0, at);
    assert(header@ =~= rest@.take(at as int));
    let body = vstd::slice::slice_subrange(rest, at + close.len(), rest.len());
    assert(body@ =~= rest@.skip(at + close@.len()));
    let fields = match read_fields(header) {
        Err(problem) => {
            return Err(problem);
        },
        Ok(fields) => fields,
    };
    let title = match required(&fields, "title") {
        Err(problem) => {
            return Err(problem);
        },
        Ok(title) => title,
    };
    let summary = match required(&fields, "summary") {
        Err(problem) => {
            return Err(problem);
        },
        Ok(summary) => summary,
    };
    let keywords = match get(&fields, "keywords") {
        Some(keywords) => keywords.clone(),
        None => {
            let none = String::new();
            assert(none@ =~= seq![]);
            none
        },
    };
    let order: i64 = match get(&fields, "order") {
        None => 0,
        Some(raw) => {
            let raw_chars = text::chars(raw.as_str());
            match text::parse_signed(raw_chars.as_slice()) {
                Some(order) => order,
                None => {
                    let mut problem = "order ".to_string();
                    problem.append(config::quote(raw.as_str()).as_str());
                    problem.append(" is not a number");
                    return Err(problem);
                },
            }
        },
    };
    Ok((FrontMatter { title, summary, keywords, order }, text::string(body)))
}

} // verus!
