//! Settings in INI form.
//!
//! Keys are kept in their lower-case dotted form, so that `[remote "origin"] url = X` is
//! `remote.origin.url`. A key may have several values, kept in the order of the file; the last one
//! is what a plain read gives.

use vstd::prelude::*;
use vstd::utf8::encode_utf8;

use crate::bytes::{ascii_alphanumeric, bytes_of};
use crate::order::{bind, lookup, Duplicate, OrdMap};
use crate::text::{
    after_prefix, before_suffix, chars_of, contains, copy_text, copy_texts, cut_at_space, cut_once, ends, ends_with,
    first_pieces, holds, join2, join3, join4, lemma_texts_push, line_list, lines, lowered, same, split_at_space,
    split_once, splitn, starts, starts_with, strip_prefix, strip_suffix, texts, to_ascii_lowercase, trim,
    trim_end_matches, trim_start_matches, trimmed, without_leading, without_trailing,
};

verus! {

/// The most keys that are read.
pub const MAX_KEYS: usize = 256;

/// The values of one key, in order.
#[derive(Debug, PartialEq)]
pub struct Values {
    pub list: Vec<String>,
}

impl View for Values {
    type V = Seq<Seq<char>>;

    open spec fn view(&self) -> Seq<Seq<char>> {
        texts(self.list@)
    }
}

/// Settings: dotted lower-case key to every value that is recorded for it.
pub type Config = OrdMap<Values>;

/// What settings hold, in the order of their keys.
pub type Keys = Seq<(Seq<char>, Seq<Seq<char>>)>;

/// The value that a plain read of `key` gives: the last one.
pub open spec fn value_in(c: Keys, key: Seq<char>) -> Option<Seq<char>> {
    match lookup(c, key) {
        Some(values) => if values.len() > 0 {
            Some(values.last())
        } else {
            None
        },
        None => None,
    }
}

/// The value that a plain read of `key` gives.
pub fn config_value<'a>(config: &'a Config, key: &str) -> (r: Option<&'a str>)
    ensures
        match r {
            Some(v) => value_in(config@, key@) == Some(v@),
            None => value_in(config@, key@) is None,
        },
{
    match config.get(key) {
        Some(values) => {
            let n: usize = values.list.len();
            if n > 0 {
                Some(values.list[n - 1].as_str())
            } else {
                None
            }
        },
        None => None,
    }
}

/// The settings with one more value for `key`.
pub open spec fn with_value(c: Keys, key: Seq<char>, value: Seq<char>) -> Keys {
    match lookup(c, key) {
        Some(values) => bind(c, key, values.push(value)),
        None => bind(c, key, seq![value]),
    }
}

/// Adds one more value for `key`.
pub fn add_value(config: &mut Config, key: String, value: String)
    ensures
        final(config)@ == with_value(old(config)@, key@, value@),
{
    broadcast use lemma_texts_push;

    let mut list: Vec<String> = match config.get(key.as_str()) {
        Some(values) => copy_texts(values.list.as_slice()),
        None => Vec::new(),
    };
    let ghost was = texts(list@);
    list.push(value);
    assert(texts(list@) == was.push(value@));
    assert(seq![].push(value@) =~= seq![value@]);
    assert(lookup(config@, key@) is None ==> was =~= seq![]);
    config.insert(key, Values { list });
}

impl Duplicate for Values {
    fn duplicate(&self) -> (r: Self) {
        Values { list: copy_texts(self.list.as_slice()) }
    }
}

// ---------------------------------------------------------------------------
// Reading
// ---------------------------------------------------------------------------

/// `s` without double quotes at either end.
pub open spec fn without_quotes(s: Seq<char>) -> Seq<char> {
    without_trailing(without_leading(s, '"'), '"')
}

/// What stands between a leading and a trailing double quote, and the text itself elsewhere.
pub open spec fn unquoted(s: Seq<char>) -> Seq<char> {
    match after_prefix(s, "\""@) {
        Some(rest) => match before_suffix(rest, "\""@) {
            Some(inner) => inner,
            None => s,
        },
        None => s,
    }
}

/// What stands between the brackets of a heading.
pub open spec fn heading_of(line: Seq<char>) -> Option<Seq<char>> {
    match after_prefix(line, "["@) {
        Some(rest) => before_suffix(rest, "]"@),
        None => None,
    }
}

/// What a heading puts in front of the keys below it.
pub open spec fn key_prefix(heading: Seq<char>) -> Seq<char> {
    match cut_at_space(heading) {
        Some((section, subsection)) => lowered(section) + "."@ + without_quotes(trimmed(subsection))
            + "."@,
        None => lowered(heading) + "."@,
    }
}

/// The settings once the lines from here on are read, below the heading that gave `prefix`.
pub open spec fn settings_with(c: Keys, prefix: Seq<char>, lines: Seq<Seq<char>>) -> Keys
    decreases lines.len(),
{
    if lines.len() == 0 {
        c
    } else {
        let line = trimmed(lines[0]);
        let rest = lines.subrange(1, lines.len() as int);
        if line.len() == 0 || starts(line, "#"@) || starts(line, ";"@) {
            settings_with(c, prefix, rest)
        } else {
            match heading_of(line) {
                Some(heading) => settings_with(c, key_prefix(heading), rest),
                None => match cut_once(line, '=') {
                    None => settings_with(
                        with_value(c, prefix + lowered(line), "true"@),
                        prefix,
                        rest,
                    ),
                    Some((key, value)) => if c.len() >= MAX_KEYS {
                        c
                    } else {
                        settings_with(
                            with_value(
                                c,
                                prefix + lowered(trimmed(key)),
                                unquoted(trimmed(value)),
                            ),
                            prefix,
                            rest,
                        )
                    },
                },
            }
        }
    }
}

/// The settings that a text holds.
pub open spec fn settings_of(text: Seq<char>) -> Keys {
    settings_with(seq![], ""@, line_list(text))
}

fn unquote(s: &str) -> (r: String)
    ensures
        r@ == unquoted(s@),
{
    match strip_prefix(s, "\"") {
        Some(rest) => match strip_suffix(rest.as_str(), "\"") {
            Some(inner) => inner,
            None => copy_text(s),
        },
        None => copy_text(s),
    }
}

fn bracketed(line: &str) -> (r: Option<String>)
    ensures
        crate::text::opt_text(r) == heading_of(line@),
{
    match strip_prefix(line, "[") {
        Some(rest) => strip_suffix(rest.as_str(), "]"),
        None => None,
    }
}

fn prefix_of(heading: &str) -> (r: String)
    ensures
        r@ == key_prefix(heading@),
{
    match split_at_space(heading) {
        Some((section, subsection)) => {
            let inner = trim_end_matches(
                trim_start_matches(trim(subsection.as_str()).as_str(), '"').as_str(),
                '"',
            );
            join4(to_ascii_lowercase(section.as_str()).as_str(), ".", inner.as_str(), ".")
        },
        None => join2(to_ascii_lowercase(heading).as_str(), "."),
    }
}

/// Reads settings in INI form.
pub fn parse_config(text: &str) -> (r: Config)
    ensures
        r@ == settings_of(text@),
{
    let all = lines(text);
    let ghost list = line_list(text@);
    let mut config: Config = OrdMap::new();
    let mut prefix = copy_text("");
    let mut i: usize = 0;
    assert(list.subrange(0, list.len() as int) =~= list);
    while i < all.len()
        invariant
            i <= all.len(),
            texts(all@) == list,
            list == line_list(text@),
            settings_of(text@) == settings_with(
                config@,
                prefix@,
                list.subrange(i as int, list.len() as int),
            ),
        decreases all.len() - i,
    {
        let ghost rest = list.subrange(i as int, list.len() as int);
        assert(rest[0] == all@[i as int]@);
        assert(rest.subrange(1, rest.len() as int) =~= list.subrange(i + 1, list.len() as int));
        let line = trim(all[i].as_str());
        i += 1;
        if line.as_str().is_empty() || starts_with(line.as_str(), "#") || starts_with(
            line.as_str(),
            ";",
        ) {
            continue ;
        }
        if let Some(heading) = bracketed(line.as_str()) {
            prefix = prefix_of(heading.as_str());
            continue ;
        }
        match split_once(line.as_str(), '=') {
            None => {
                let key = join2(prefix.as_str(), to_ascii_lowercase(line.as_str()).as_str());
                add_value(&mut config, key, copy_text("true"));
            },
            Some((key, value)) => {
                if config.len() >= MAX_KEYS {
                    return config;
                }
                let name = to_ascii_lowercase(trim(key.as_str()).as_str());
                let whole = join2(prefix.as_str(), name.as_str());
                add_value(&mut config, whole, unquote(trim(value.as_str()).as_str()));
            },
        }
    }
    config
}

// ---------------------------------------------------------------------------
// Writing
// ---------------------------------------------------------------------------

/// The heading and the name that a dotted key is written under.
pub open spec fn split_key(key: Seq<char>) -> (Seq<char>, Seq<char>) {
    let parts = first_pieces(key, '.', 3);
    if parts.len() == 3 {
        (parts[0] + " \""@ + parts[1] + "\""@, parts[2])
    } else if parts.len() == 2 {
        (parts[0], parts[1])
    } else {
        (key, key)
    }
}

/// The lines of the values of one name.
pub open spec fn value_lines(name: Seq<char>, values: Seq<Seq<char>>) -> Seq<char>
    decreases values.len(),
{
    if values.len() == 0 {
        seq![]
    } else {
        "\t"@ + name + " = "@ + values[0] + "\n"@ + value_lines(
            name,
            values.subrange(1, values.len() as int),
        )
    }
}

/// The text of settings, where the heading `current` is already written.
pub open spec fn settings_text(c: Keys, current: Seq<char>) -> Seq<char>
    decreases c.len(),
{
    if c.len() == 0 {
        seq![]
    } else {
        let (heading, name) = split_key(c[0].0);
        let head = if heading != current {
            "["@ + heading + "]\n"@
        } else {
            ""@
        };
        head + value_lines(name, c[0].1) + settings_text(c.subrange(1, c.len() as int), heading)
    }
}

/// The stored form of settings.
pub open spec fn settings_bytes(c: Keys) -> Seq<u8> {
    encode_utf8(settings_text(c, ""@))
}

fn split_config_key(key: &str) -> (r: (String, String))
    ensures
        (r.0@, r.1@) == split_key(key@),
{
    let parts = splitn(key, '.', 3);
    let ghost p = first_pieces(key@, '.', 3);
    if parts.len() == 3 {
        assert(p[0] == parts@[0]@ && p[1] == parts@[1]@ && p[2] == parts@[2]@);
        (
            join4(parts[0].as_str(), " \"", parts[1].as_str(), "\""),
            copy_text(parts[2].as_str()),
        )
    } else if parts.len() == 2 {
        assert(p[0] == parts@[0]@ && p[1] == parts@[1]@);
        (copy_text(parts[0].as_str()), copy_text(parts[1].as_str()))
    } else {
        (copy_text(key), copy_text(key))
    }
}

fn write_values(out: &mut String, name: &str, values: &Values)
    ensures
        final(out)@ == old(out)@ + value_lines(name@, values@),
{
    let ghost start = out@;
    let ghost all = values@;
    let mut i: usize = 0;
    assert(all.subrange(0, all.len() as int) =~= all);
    while i < values.list.len()
        invariant
            i <= values.list.len(),
            all == texts(values.list@),
            out@ + value_lines(name@, all.subrange(i as int, all.len() as int)) == start
                + value_lines(name@, all),
        decreases values.list.len() - i,
    {
        let ghost rest = all.subrange(i as int, all.len() as int);
        let ghost tail = all.subrange(i + 1, all.len() as int);
        assert(rest.subrange(1, rest.len() as int) =~= tail);
        assert(rest[0] == values.list@[i as int]@);
        let ghost was = out@;
        let mut line = join4("\t", name, " = ", values.list[i].as_str());
        line.append("\n");
        out.append(line.as_str());
        assert(was + line@ + value_lines(name@, tail) =~= was + (line@ + value_lines(name@, tail)));
        i += 1;
    }
    assert(value_lines(name@, all.subrange(i as int, all.len() as int)) =~= seq![]);
    assert(out@ + seq![] =~= out@);
}

/// The stored form of settings.
pub fn serialize_config(config: &Config) -> (r: Vec<u8>)
    ensures
        r@ == settings_bytes(config@),
{
    let ghost all = config@;
    let mut out = String::new();
    let mut current = copy_text("");
    let mut i: usize = 0;
    assert(all.subrange(0, all.len() as int) =~= all);
    assert(out@ + settings_text(all, ""@) =~= settings_text(all, ""@));
    while i < config.len()
        invariant
            i <= all.len(),
            all == config@,
            out@ + settings_text(all.subrange(i as int, all.len() as int), current@)
                == settings_text(all, ""@),
        decreases all.len() - i,
    {
        let ghost rest = all.subrange(i as int, all.len() as int);
        let ghost tail = all.subrange(i + 1, all.len() as int);
        assert(rest.subrange(1, rest.len() as int) =~= tail);
        assert(rest[0] == all[i as int]);
        let ghost was = out@;
        let (heading, name) = split_config_key(config.key_at(i));
        let head = if !same(heading.as_str(), current.as_str()) {
            join3("[", heading.as_str(), "]\n")
        } else {
            copy_text("")
        };
        out.append(head.as_str());
        write_values(&mut out, name.as_str(), config.value_at(i));
        assert(was + head@ + value_lines(name@, rest[0].1) + settings_text(tail, heading@) =~= was
            + (head@ + value_lines(name@, rest[0].1) + settings_text(tail, heading@)));
        current = heading;
        i += 1;
    }
    assert(settings_text(all.subrange(i as int, all.len() as int), current@) =~= seq![]);
    assert(out@ + seq![] =~= out@);
    bytes_of(out.as_str())
}

/// Whether `c` may stand in a key.
pub open spec fn key_char(c: char) -> bool {
    ascii_alphanumeric(c) || c == '.' || c == '-' || c == '_'
}

/// Whether a text is a proper dotted key.
pub open spec fn proper_key(key: Seq<char>) -> bool {
    &&& holds(key, "."@)
    &&& !starts(key, "."@)
    &&& !ends(key, "."@)
    &&& !holds(key, ".."@)
    &&& forall|i: int| 0 <= i < key.len() ==> key_char(#[trigger] key[i])
}

/// Whether a text is a proper dotted key.
pub fn valid_config_key(key: &str) -> (r: bool)
    ensures
        r == proper_key(key@),
{
    if !contains(key, ".") || starts_with(key, ".") || ends_with(key, ".") || contains(key, "..") {
        return false;
    }
    let cs = chars_of(key);
    let mut i: usize = 0;
    while i < cs.len()
        invariant
            i <= cs.len(),
            cs@ == key@,
            forall|k: int| 0 <= k < i ==> key_char(#[trigger] key@[k]),
        decreases cs.len() - i,
    {
        let c = cs[i];
        if !(('a' <= c && c <= 'z') || ('A' <= c && c <= 'Z') || ('0' <= c && c <= '9') || c == '.'
            || c == '-' || c == '_') {
            assert(!key_char(key@[i as int]));
            return false;
        }
        i += 1;
    }
    true
}

} // verus!
