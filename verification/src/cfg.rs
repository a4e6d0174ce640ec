//! The configuration file: `key = value` lines, the items the proxies read
//! from it, and the hash of the shared key that both sides compare.

use std::collections::hash_map::DefaultHasher;
use std::hash::Hasher;
use vstd::prelude::*;
use vstd::std_specs::hash::DefaultHasherAdditionalSpecFns;

use crate::text::{
    chars_of, decimal, find, find_in, lines, lines_from, next_line, push_decimal, string_of,
};

verus! {

/// The configuration written when none exists.
pub const DEFAULT_CONFIG: &'static str =
    "client_addr = 127.0.0.1:7878\nkey = 芜湖，起飞~🚀\nserver_addr = 127.0.0.1:8989\ntime_out_sec = 3";

/// What `DefaultHasher::new()` gives after one `write` of `key`.
pub open spec fn spec_key_hash(key: Seq<u8>) -> u64 {
    DefaultHasher::spec_finish(seq![key])
}

/// The decimal numeral of the `DefaultHasher` hash of `key`: the token that
/// the client puts in front of every request and the server checks.
pub fn to_hash(key: &[u8]) -> (s: String)
    ensures
        s@ == decimal(spec_key_hash(key@) as nat),
        s@ == decimal(DefaultHasher::spec_finish(seq![key@]) as nat),
{
    let mut hasher = DefaultHasher::new();
    hasher.write(key);
    let h = hasher.finish();
    assert(hasher@ =~= seq![key@]);
    let mut s = String::new();
    push_decimal(&mut s, h);
    assert(s@ =~= decimal(h as nat));
    s
}

/// The key's hash is that of one `write` of the whole key, for keys of every
/// length.
pub proof fn lemma_key_hash_whole_key(key: Seq<u8>)
    ensures
        spec_key_hash(key) == DefaultHasher::spec_finish(seq![key]),
{
}

/// The hash token is a decimal numeral: only digits, no leading zero, and
/// `str::parse::<u64>` reads back the hash from it.
pub proof fn lemma_decimal_round_trip(n: u64)
    ensures
        decimal(n as nat).len() > 0,
        all_digits(decimal(n as nat)),
        decimal(n as nat).len() > 1 <==> n >= 10,
        decimal(n as nat).len() > 1 ==> decimal(n as nat)[0] != '0',
        digits_value(decimal(n as nat)) == n,
        u64_text(decimal(n as nat)) == Some(n),
    decreases n,
{
    let d = decimal(n as nat);
    let last = crate::text::digit_char((n % 10) as nat);
    assert((last as int) == 48 + n % 10);
    if n >= 10 {
        let q = (n / 10) as u64;
        lemma_decimal_round_trip(q);
        let p = decimal(q as nat);
        assert(d == p.push(crate::text::digit_char((n % 10) as nat)));
        assert(d.drop_last() =~= p);
        assert forall|i: int| 0 <= i < d.len() implies is_digit(#[trigger] d[i]) by {
            if i < p.len() {
                assert(d[i] == p[i]);
            }
        }
        assert(d[0] == p[0]);
        assert(d.last() == last);
        assert(n == q * 10 + n % 10);
        if q < 10 {
            assert(('0' as int) == 48);
            assert((crate::text::digit_char(q as nat) as int) == 48 + q);
            assert(p[0] == crate::text::digit_char(q as nat));
        }
        assert(digits_value(d) == digits_value(p) * 10 + ((last as int) - 48) as nat);
        assert(digits_value(d) == n);
        assert(d.len() > 1);
        assert(d[0] != '0');
    } else {
        assert(d =~= seq![last]);
        assert(d.drop_last() =~= Seq::<char>::empty());
        assert(digits_value(Seq::<char>::empty()) == 0);
        assert(n % 10 == n);
        assert(digits_value(d) == n);
    }
    assert(d[0] != '+');
    assert(without_plus(d) == d);
}

/// The items that the proxies read from the configuration.
#[derive(PartialEq, Eq, Structural, Clone, Copy, Debug)]
pub enum ConfigItem {
    ServerAddr,
    ClientAddr,
    Key,
    TimeOutSec,
}

/// The key under which an item stands in the configuration file.
pub open spec fn item_key(item: ConfigItem) -> Seq<char> {
    match item {
        ConfigItem::ClientAddr => "client_addr"@,
        ConfigItem::Key => "key"@,
        ConfigItem::ServerAddr => "server_addr"@,
        ConfigItem::TimeOutSec => "time_out_sec"@,
    }
}

/// The text that separates a key from its value.
pub open spec fn separator() -> Seq<char> {
    seq![' ', '=', ' ']
}

/// A line split at the first separator into key and value, if it has one.
pub open spec fn split_entry(line: Seq<char>) -> Option<(Seq<char>, Seq<char>)> {
    match find(line, separator()) {
        Some(i) => Some((line.take(i), line.skip(i + 3))),
        None => None,
    }
}

/// The map that the lines give, a later line overriding an earlier one with
/// the same key; lines without a separator are skipped.
pub open spec fn lines_map(ls: Seq<Seq<char>>) -> Map<Seq<char>, Seq<char>>
    decreases ls.len(),
{
    if ls.len() == 0 {
        Map::empty()
    } else {
        let m = lines_map(ls.drop_last());
        match split_entry(ls.last()) {
            Some(kv) => m.insert(kv.0, kv.1),
            None => m,
        }
    }
}

/// The configuration that a file's text describes.
pub open spec fn config_of(content: Seq<char>) -> Map<Seq<char>, Seq<char>> {
    lines_map(lines(content))
}

/// A line without a separator between other lines changes nothing.
proof fn lemma_lines_map_skip(xs: Seq<Seq<char>>, l: Seq<char>, ys: Seq<Seq<char>>)
    requires
        split_entry(l) is None,
    ensures
        lines_map(xs + seq![l] + ys) == lines_map(xs + ys),
    decreases ys.len(),
{
    if ys.len() == 0 {
        assert(xs + seq![l] + ys =~= xs.push(l));
        assert(xs.push(l).drop_last() =~= xs);
        assert(xs + ys =~= xs);
    } else {
        lemma_lines_map_skip(xs, l, ys.drop_last());
        assert((xs + seq![l] + ys).drop_last() =~= xs + seq![l] + ys.drop_last());
        assert((xs + ys).drop_last() =~= xs + ys.drop_last());
        assert((xs + seq![l] + ys).last() == ys.last());
        assert((xs + ys).last() == ys.last());
    }
}

/// A blank line inserted between lines of a configuration file (at its
/// start, or right after a line feed) leaves the configuration unchanged:
/// every `key = value` line counts, whatever lines without a separator stand
/// between them.
pub proof fn lemma_blank_line_ignored(a: Seq<char>, b: Seq<char>)
    requires
        a.len() == 0 || a.last() == '\n',
    ensures
        config_of(a + seq!['\n'] + b) == config_of(a + b),
{
    assert(a + seq!['\n'] + b =~= a + (seq!['\n'] + b));
    crate::text::lemma_lines_concat(a, seq!['\n'] + b);
    crate::text::lemma_lines_concat(a, b);
    crate::text::lemma_lines_leading_newline(b);
    let empty = Seq::<char>::empty();
    assert(crate::text::find_from(empty, separator(), 0) is None);
    assert(split_entry(empty) is None);
    assert(lines(a) + (seq![empty] + lines(b)) =~= lines(a) + seq![empty] + lines(b));
    lemma_lines_map_skip(lines(a), empty, lines(b));
}

/// The last line of a configuration file, when it holds ` = `, gives its
/// key that line's value, whatever came before it.
pub proof fn lemma_last_entry_counts(a: Seq<char>, line: Seq<char>)
    requires
        a.len() == 0 || a.last() == '\n',
        forall|i: int| 0 <= i < line.len() ==> line[i] != '\n',
        split_entry(line) is Some,
    ensures
        config_of(a + line).dom().contains(split_entry(line).unwrap().0),
        config_of(a + line)[split_entry(line).unwrap().0] == split_entry(line).unwrap().1,
{
    crate::text::lemma_lines_concat(a, line);
    assert(line.len() > 0);
    crate::text::lemma_line_end_none(line, 0);
    assert(line.subrange(0, line.len() as int) =~= line);
    assert(lines(line) == seq![line]);
    assert((lines(a) + seq![line]).drop_last() =~= lines(a));
}

/// The map that a list of entries gives, a later entry overriding an earlier
/// one with the same key.
pub open spec fn pairs_map(ps: Seq<(Seq<char>, Seq<char>)>) -> Map<Seq<char>, Seq<char>>
    decreases ps.len(),
{
    if ps.len() == 0 {
        Map::empty()
    } else {
        pairs_map(ps.drop_last()).insert(ps.last().0, ps.last().1)
    }
}

/// Entries after index `i` that do not hold `k` leave its lookup as it was
/// after the first `i` entries.
proof fn lemma_pairs_map_suffix(ps: Seq<(Seq<char>, Seq<char>)>, i: int, k: Seq<char>)
    requires
        0 <= i <= ps.len(),
        forall|j: int| i <= j < ps.len() ==> ps[j].0 != k,
    ensures
        pairs_map(ps).dom().contains(k) == pairs_map(ps.take(i)).dom().contains(k),
        pairs_map(ps).dom().contains(k) ==> pairs_map(ps)[k] == pairs_map(ps.take(i))[k],
    decreases ps.len() - i,
{
    if i < ps.len() {
        lemma_pairs_map_suffix(ps.drop_last(), i, k);
        assert(ps.drop_last().take(i) =~= ps.take(i));
    } else {
        assert(ps.take(i) =~= ps);
    }
}

/// The parsed configuration file: a map from keys to values.
pub struct ConfigMap {
    entries: Vec<(Vec<char>, String)>,
}

/// An entry as a pair of character sequences.
pub open spec fn entry_view(e: (Vec<char>, String)) -> (Seq<char>, Seq<char>) {
    (e.0@, e.1@)
}

impl View for ConfigMap {
    type V = Map<Seq<char>, Seq<char>>;

    closed spec fn view(&self) -> Map<Seq<char>, Seq<char>> {
        pairs_map(self.entries@.map_values(|e: (Vec<char>, String)| entry_view(e)))
    }
}

impl ConfigMap {
    /// Parses the text of a configuration file: each line holding " = " is a
    /// key (before the first " = ") and a value (all after it); a later line
    /// overrides an earlier one with the same key.
    pub fn parse(content: &str) -> (m: ConfigMap)
        ensures
            m@ == config_of(content@),
    {
        let cs = chars_of(content);
        let sep: Vec<char> = vec![' ', '=', ' '];
        let mut entries: Vec<(Vec<char>, String)> = Vec::new();
        let mut start: usize = 0;
        let ghost mut done: Seq<Seq<char>> = seq![];
        while start < cs.len()
            invariant
                cs@ == content@,
                sep@ == separator(),
                start <= cs@.len(),
                done + lines_from(cs@, start as int) == lines(cs@),
                pairs_map(entries@.map_values(|e: (Vec<char>, String)| entry_view(e)))
                    == lines_map(done),
            decreases cs@.len() - start,
        {
            let (end, next) = next_line(&cs, start);
            let ghost line = cs@.subrange(start as int, end as int);
            let line_chars: Vec<char> = crate::text::copy_range(&cs, start, end);
            let ghost old_entries = entries@;
            match find_in(&line_chars, &sep, 0) {
                Some(i) => {
                    proof {
                        crate::text::lemma_find_from(line_chars@, sep@, 0);
                    }
                    let key: Vec<char> = crate::text::copy_range(&line_chars, 0, i);
                    let value = string_of(&line_chars, i + 3, line_chars.len());
                    entries.push((key, value));
                    proof {
                        assert(line_chars@.subrange(0, i as int) =~= line.take(i as int));
                        assert(line_chars@.subrange(i + 3, line.len() as int) =~= line.skip(
                            i + 3,
                        ));
                        assert(entries@.map_values(|e: (Vec<char>, String)| entry_view(e))
                            =~= old_entries.map_values(
                            |e: (Vec<char>, String)| entry_view(e),
                        ).push((line.take(i as int), line.skip(i + 3))));
                        let new_ps = entries@.map_values(|e: (Vec<char>, String)| entry_view(e));
                        assert(new_ps.drop_last() =~= old_entries.map_values(
                            |e: (Vec<char>, String)| entry_view(e),
                        ));
                        assert(split_entry(line) == Some((line.take(i as int), line.skip(i + 3))));
                        assert(done.push(line).drop_last() =~= done);
                        assert(lines_map(done.push(line)) == lines_map(done).insert(
                            line.take(i as int),
                            line.skip(i + 3),
                        ));
                    }
                },
                None => {
                    proof {
                        assert(split_entry(line) is None);
                        assert(done.push(line).drop_last() =~= done);
                        assert(lines_map(done.push(line)) == lines_map(done));
                    }
                },
            }
            proof {
                assert(done.push(line).drop_last() =~= done);
                assert(done.push(line) + lines_from(cs@, next as int) =~= done + lines_from(
                    cs@,
                    start as int,
                ));
                done = done.push(line);
            }
            start = next;
        }
        proof {
            assert(lines_from(cs@, start as int) =~= Seq::<Seq<char>>::empty());
            assert(done + lines_from(cs@, start as int) =~= done);
        }
        ConfigMap { entries }
    }

    /// The value of `item`, if the configuration has it.
    pub fn get(&self, item: ConfigItem) -> (r: Option<&String>)
        ensures
            match r {
                Some(v) => self@.dom().contains(item_key(item)) && self@[item_key(item)] == v@,
                None => !self@.dom().contains(item_key(item)),
            },
    {
        let name: &str = match item {
            ConfigItem::ClientAddr => "client_addr",
            ConfigItem::Key => "key",
            ConfigItem::ServerAddr => "server_addr",
            ConfigItem::TimeOutSec => "time_out_sec",
        };
        let key = chars_of(name);
        let ghost ps = self.entries@.map_values(|e: (Vec<char>, String)| entry_view(e));
        let mut i = self.entries.len();
        while i > 0
            invariant
                i <= self.entries@.len(),
                ps == self.entries@.map_values(|e: (Vec<char>, String)| entry_view(e)),
                key@ == item_key(item),
                forall|j: int| i <= j < ps.len() ==> ps[j].0 != key@,
            decreases i,
        {
            let e = &self.entries[i - 1];
            if e.0.len() == key.len() && crate::text::matches_at(&e.0, &key, 0) {
                proof {
                    assert(e.0@.subrange(0, key@.len() as int) =~= e.0@);
                    lemma_pairs_map_suffix(ps, i as int, key@);
                    assert(ps.take(i as int).drop_last() =~= ps.take(i - 1));
                }
                return Some(&e.1);
            }
            proof {
                if e.0@ == key@ {
                    assert(e.0@.subrange(0, key@.len() as int) =~= e.0@);
                }
            }
            i = i - 1;
        }
        proof {
            lemma_pairs_map_suffix(ps, 0, key@);
            assert(ps.take(0) =~= Seq::<(Seq<char>, Seq<char>)>::empty());
        }
        None
    }
}

/// `c` is one of the digits `0` to `9`.
pub open spec fn is_digit(c: char) -> bool {
    48 <= (c as int) <= 57
}

/// The number that a string of decimal digits denotes.
pub open spec fn digits_value(d: Seq<char>) -> nat
    decreases d.len(),
{
    if d.len() == 0 {
        0
    } else {
        digits_value(d.drop_last()) * 10 + ((d.last() as int) - 48) as nat
    }
}

/// The text after an optional leading `+`.
pub open spec fn without_plus(s: Seq<char>) -> Seq<char> {
    if s.len() > 0 && s[0] == '+' {
        s.drop_first()
    } else {
        s
    }
}

/// Every character of `d` is a decimal digit.
pub open spec fn all_digits(d: Seq<char>) -> bool {
    forall|i: int| 0 <= i < d.len() ==> is_digit(#[trigger] d[i])
}

/// What `str::parse::<u64>` accepts: an optional `+`, then one or more
/// decimal digits whose value fits in a `u64`.
pub open spec fn u64_text(s: Seq<char>) -> Option<u64> {
    let d = without_plus(s);
    if d.len() > 0 && all_digits(d) && digits_value(d) <= u64::MAX {
        Some(digits_value(d) as u64)
    } else {
        None
    }
}

/// A longer string of digits denotes no smaller number.
proof fn lemma_digits_value_prefix(d: Seq<char>, i: int)
    requires
        0 <= i <= d.len(),
        forall|j: int| 0 <= j < d.len() ==> is_digit(#[trigger] d[j]),
    ensures
        digits_value(d.take(i)) <= digits_value(d),
    decreases d.len(),
{
    if i < d.len() {
        let p = d.drop_last();
        assert forall|j: int| 0 <= j < p.len() implies is_digit(#[trigger] p[j]) by {
            assert(p[j] == d[j]);
        }
        lemma_digits_value_prefix(p, i);
        assert(p.take(i) =~= d.take(i));
    } else {
        assert(d.take(i) =~= d);
    }
}

/// Parses a `u64` as `str::parse::<u64>` does: `None` exactly where that
/// gives an error.
pub fn parse_u64(s: &str) -> (r: Option<u64>)
    ensures
        r == u64_text(s@),
{
    let cs = chars_of(s);
    let mut start: usize = 0;
    if cs.len() > 0 && cs[0] == '+' {
        start = 1;
    }
    let ghost d = without_plus(s@);
    assert(d =~= cs@.skip(start as int));
    if start >= cs.len() {
        return None;
    }
    let mut value: u64 = 0;
    let mut i: usize = start;
    while i < cs.len()
        invariant
            cs@ == s@,
            d =~= cs@.skip(start as int),
            d == without_plus(s@),
            start < cs@.len(),
            start <= i <= cs@.len(),
            forall|j: int| 0 <= j < i - start ==> is_digit(#[trigger] d[j]),
            value == digits_value(d.take(i - start)),
        decreases cs@.len() - i,
    {
        let ghost k = i - start;
        let c = cs[i];
        assert(d[k] == c);
        if c < '0' || c > '9' {
            assert(!is_digit(d[k]));
            assert(u64_text(s@) is None);
            return None;
        }
        let digit = (c as u32 - 48) as u64;
        assert(d.take(k + 1).drop_last() =~= d.take(k));
        if value > 1844674407370955161 || (value == 1844674407370955161 && digit > 5) {
            proof {
                assert(digits_value(d.take(k + 1)) > u64::MAX);
                if all_digits(d) {
                    lemma_digits_value_prefix(d, k + 1);
                    assert(digits_value(d) > u64::MAX);
                }
                assert(u64_text(s@) is None);
            }
            return None;
        }
        value = value * 10 + digit;
        i = i + 1;
    }
    assert(d.take(d.len() as int) =~= d);
    Some(value)
}

} // verus!
