//! Settings files: one `KEY=value` per line.

use crate::text;
use vstd::prelude::*;
use vstd::std_specs::iter::IteratorSpec;
use vstd::string::StrSliceExecFns;

verus! {

/// Whether `c` is white space, by the Unicode property.
pub open spec fn is_white(c: char) -> bool {
    ||| '\u{9}' <= c <= '\u{d}'
    ||| c == ' '
    ||| c == '\u{85}'
    ||| c == '\u{a0}'
    ||| c == '\u{1680}'
    ||| '\u{2000}' <= c <= '\u{200a}'
    ||| c == '\u{2028}'
    ||| c == '\u{2029}'
    ||| c == '\u{202f}'
    ||| c == '\u{205f}'
    ||| c == '\u{3000}'
}

/// What can be stripped off the ends of a text.
#[derive(Debug, Clone, Copy, PartialEq, Eq, Structural)]
pub enum Strip {
    /// White space.
    White,
    /// Double quotes.
    Quotes,
}

/// Whether `c` is stripped off.
pub open spec fn strips(strip: Strip, c: char) -> bool {
    match strip {
        Strip::White => is_white(c),
        Strip::Quotes => c == '"',
    }
}

/// A text without what is stripped off its front.
pub open spec fn strip_front(s: Seq<char>, strip: Strip) -> Seq<char>
    decreases s.len(),
{
    if s.len() > 0 && strips(strip, s[0]) {
        strip_front(s.skip(1), strip)
    } else {
        s
    }
}

/// A text without what is stripped off its back.
pub open spec fn strip_back(s: Seq<char>, strip: Strip) -> Seq<char>
    decreases s.len(),
{
    if s.len() > 0 && strips(strip, s.last()) {
        strip_back(s.drop_last(), strip)
    } else {
        s
    }
}

/// A text without what is stripped off both ends.
pub open spec fn stripped(s: Seq<char>, strip: Strip) -> Seq<char> {
    strip_back(strip_front(s, strip), strip)
}

/// Where `c` stands first, -1 where it does not.
pub open spec fn first_of(s: Seq<char>, c: char) -> int
    decreases s.len(),
{
    if s.len() == 0 {
        -1
    } else if first_of(s.drop_last(), c) >= 0 {
        first_of(s.drop_last(), c)
    } else if s.last() == c {
        s.len() - 1
    } else {
        -1
    }
}

/// What a line sets: key and value, parted at the first `=`, with the white space around them taken
/// off and the double quotes around the value too. Empty lines, lines that start with `#` and lines
/// without `=` set nothing.
pub open spec fn line_entry(line: Seq<char>) -> Option<(Seq<char>, Seq<char>)> {
    let text = stripped(line, Strip::White);
    let cut = first_of(text, '=');
    if text.len() == 0 || text[0] == '#' || cut < 0 {
        None
    } else {
        Some(
            (
                stripped(text.take(cut), Strip::White),
                stripped(stripped(text.skip(cut + 1), Strip::White), Strip::Quotes),
            ),
        )
    }
}

/// The lines of a text, without the line feeds between them.
pub open spec fn lines(s: Seq<char>) -> Seq<Seq<char>>
    decreases s.len(),
{
    if s.len() == 0 {
        seq![seq![]]
    } else {
        let before = lines(s.drop_last());
        if s.last() == '\n' {
            before.push(seq![])
        } else {
            before.drop_last().push(before.last().push(s.last()))
        }
    }
}

/// What the lines set, in their order.
pub open spec fn entries(lines: Seq<Seq<char>>) -> Seq<(Seq<char>, Seq<char>)>
    decreases lines.len(),
{
    if lines.len() == 0 {
        seq![]
    } else {
        match line_entry(lines.last()) {
            Some(entry) => entries(lines.drop_last()).push(entry),
            None => entries(lines.drop_last()),
        }
    }
}

/// The texts of a list of entries.
pub open spec fn texts(list: Seq<(String, String)>) -> Seq<(Seq<char>, Seq<char>)> {
    list.map_values(|e: (String, String)| (e.0@, e.1@))
}

/// Whether `c` is white space.
pub fn white(c: char) -> (is: bool)
    ensures
        is == is_white(c),
{
    ('\u{9}' <= c && c <= '\u{d}') || c == ' ' || c == '\u{85}' || c == '\u{a0}' || c == '\u{1680}'
        || ('\u{2000}' <= c && c <= '\u{200a}') || c == '\u{2028}' || c == '\u{2029}' || c
        == '\u{202f}' || c == '\u{205f}' || c == '\u{3000}'
}

/// The characters of a text.
fn chars_of(s: &str) -> (list: Vec<char>)
    ensures
        list@ == s@,
{
    let mut chars = s.chars();
    let mut list: Vec<char> = Vec::new();
    let ghost mut i: int = 0;
    loop
        invariant
            0 <= i <= s@.len(),
            chars.remaining() == s@.skip(i),
            chars.obeys_prophetic_iter_laws(),
            list@ == s@.take(i),
        decreases s@.len() - i,
    {
        match chars.next() {
            Some(c) => {
                list.push(c);
                proof {
                    assert(s@[i] == c);
                    assert(s@.take(i + 1) =~= s@.take(i).push(c));
                    assert(s@.skip(i).drop_first() =~= s@.skip(i + 1));
                    i = i + 1;
                }
            },
            None => {
                assert(s@.take(i) =~= s@);
                return list;
            },
        }
    }
}

/// The bounds of what is left of the characters from `from` to `to` when both ends are stripped.
fn strip_ends(chars: &Vec<char>, from: usize, to: usize, strip: Strip) -> (bounds: (usize, usize))
    requires
        from <= to <= chars@.len(),
    ensures
        from <= bounds.0 <= bounds.1 <= to,
        chars@.subrange(bounds.0 as int, bounds.1 as int) == stripped(
            chars@.subrange(from as int, to as int),
            strip,
        ),
{
    let mut lo: usize = from;
    let mut hi: usize = to;
    let ghost front = strip_front(chars@.subrange(from as int, to as int), strip);
    while lo < hi && strip_char(chars[lo], strip)
        invariant
            from <= lo <= hi,
            hi == to,
            to <= chars@.len(),
            front == strip_front(chars@.subrange(lo as int, to as int), strip),
        decreases hi - lo,
    {
        assert(chars@.subrange(lo as int, to as int).skip(1) =~= chars@.subrange(
            lo + 1,
            to as int,
        ));
        lo += 1;
    }
    assert(front == chars@.subrange(lo as int, to as int));
    while lo < hi && strip_char(chars[hi - 1], strip)
        invariant
            from <= lo <= hi <= to,
            to <= chars@.len(),
            strip_back(front, strip) == strip_back(chars@.subrange(lo as int, hi as int), strip),
        decreases hi - lo,
    {
        assert(chars@.subrange(lo as int, hi as int).drop_last() =~= chars@.subrange(
            lo as int,
            hi - 1,
        ));
        hi -= 1;
    }
    (lo, hi)
}

/// Whether `c` is stripped off.
fn strip_char(c: char, strip: Strip) -> (off: bool)
    ensures
        off == strips(strip, c),
{
    match strip {
        Strip::White => white(c),
        Strip::Quotes => c == '"',
    }
}

/// Where `c` stands first among the characters from `from` to `to`, or `to`.
fn find_char(chars: &Vec<char>, from: usize, to: usize, c: char) -> (place: usize)
    requires
        from <= to <= chars@.len(),
    ensures
        from <= place <= to,
        first_of(chars@.subrange(from as int, to as int), c) == if place < to {
            place - from
        } else {
            -1
        },
{
    let mut i: usize = from;
    let ghost whole = chars@.subrange(from as int, to as int);
    while i < to
        invariant
            from <= i <= to,
            to <= chars@.len(),
            whole == chars@.subrange(from as int, to as int),
            first_of(whole.take(i - from), c) == -1,
        decreases to - i,
    {
        assert(whole.take(i - from + 1).drop_last() =~= whole.take(i - from));
        assert(whole[i - from] == chars@[i as int]);
        if chars[i] == c {
            proof {
                lemma_first_of_stays(whole, i - from + 1, c);
            }
            return i;
        }
        i += 1;
    }
    assert(whole.take(i - from) =~= whole);
    to
}

/// Once a character has been found, what follows changes nothing.
proof fn lemma_first_of_stays(s: Seq<char>, n: int, c: char)
    requires
        0 <= n <= s.len(),
        first_of(s.take(n), c) >= 0,
    ensures
        first_of(s, c) == first_of(s.take(n), c),
    decreases s.len() - n,
{
    if n < s.len() {
        assert(s.take(n + 1).drop_last() =~= s.take(n));
        lemma_first_of_stays(s, n + 1, c);
    } else {
        assert(s.take(n) =~= s);
    }
}

/// What the line from `from` to `to` sets.
fn parse_line(contents: &str, chars: &Vec<char>, from: usize, to: usize) -> (entry: Option<
    (String, String),
>)
    requires
        chars@ == contents@,
        from <= to <= chars@.len(),
    ensures
        match entry {
            Some(e) => line_entry(chars@.subrange(from as int, to as int)) == Some((e.0@, e.1@)),
            None => line_entry(chars@.subrange(from as int, to as int)) is None,
        },
{
    let (a, b): (usize, usize) = strip_ends(chars, from, to, Strip::White);
    let ghost text = chars@.subrange(a as int, b as int);
    if a == b || chars[a] == '#' {
        return None;
    }
    let cut: usize = find_char(chars, a, b, '=');
    if cut == b {
        return None;
    }
    proof {
        assert(text.take(cut - a) =~= chars@.subrange(a as int, cut as int));
        assert(text.skip(cut - a + 1) =~= chars@.subrange(cut + 1, b as int));
    }
    let (key_from, key_to): (usize, usize) = strip_ends(chars, a, cut, Strip::White);
    let (c, d): (usize, usize) = strip_ends(chars, cut + 1, b, Strip::White);
    let (value_from, value_to): (usize, usize) = strip_ends(chars, c, d, Strip::Quotes);
    Some(
        (
            contents.substring_char(key_from, key_to).to_owned(),
            contents.substring_char(value_from, value_to).to_owned(),
        ),
    )
}

/// What a settings file sets: the keys and values of its lines, in their order.
pub fn parse_env(contents: &str) -> (list: Vec<(String, String)>)
    ensures
        texts(list@) == entries(lines(contents@)),
{
    let chars: Vec<char> = chars_of(contents);
    let mut list: Vec<(String, String)> = Vec::new();
    let mut start: usize = 0;
    let mut i: usize = 0;
    let ghost mut done: Seq<Seq<char>> = seq![];
    proof {
        assert(chars@.take(0) =~= seq![]);
        assert(chars@.subrange(0, 0) =~= seq![]);
        assert(lines(chars@.take(0)) =~= done.push(chars@.subrange(0, 0)));
        assert(texts(list@) =~= seq![]);
    }
    while i < chars.len()
        invariant
            chars@ == contents@,
            start <= i <= chars@.len(),
            lines(chars@.take(i as int)) == done.push(chars@.subrange(start as int, i as int)),
            texts(list@) == entries(done),
        decreases chars@.len() - i,
    {
        let ghost line = chars@.subrange(start as int, i as int);
        proof {
            assert(chars@.take(i + 1).drop_last() =~= chars@.take(i as int));
            assert(done.push(line).drop_last() =~= done);
        }
        if chars[i] == '\n' {
            add_line(contents, &chars, start, i, &mut list);
            start = i + 1;
            proof {
                done = done.push(line);
                assert(done.drop_last() =~= done.take(done.len() - 1));
                assert(chars@.subrange(i + 1, i + 1) =~= seq![]);
            }
        } else {
            assert(line.push(chars@[i as int]) =~= chars@.subrange(start as int, i + 1));
        }
        i += 1;
    }
    proof {
        assert(chars@.take(i as int) =~= chars@);
        let last = chars@.subrange(start as int, i as int);
        assert(done.push(last).drop_last() =~= done);
    }
    add_line(contents, &chars, start, i, &mut list);
    list
}

/// Adds what the line from `from` to `to` sets.
fn add_line(
    contents: &str,
    chars: &Vec<char>,
    from: usize,
    to: usize,
    list: &mut Vec<(String, String)>,
)
    requires
        chars@ == contents@,
        from <= to <= chars@.len(),
    ensures
        texts(final(list)@) == match line_entry(chars@.subrange(from as int, to as int)) {
            Some(entry) => texts(old(list)@).push(entry),
            None => texts(old(list)@),
        },
{
    if let Some(entry) = parse_line(contents, chars, from, to) {
        let ghost e = entry;
        list.push(entry);
        assert(texts(list@) =~= texts(old(list)@).push((e.0@, e.1@)));
    }
}

/// Whether an entry has this key.
pub open spec fn has_key(list: Seq<(Seq<char>, Seq<char>)>, key: Seq<char>) -> bool {
    exists|i: int| 0 <= i < list.len() && (#[trigger] list[i]).0 == key
}

/// Whether this name is among those set.
pub open spec fn is_set(already_set: Seq<String>, key: Seq<char>) -> bool {
    exists|i: int| 0 <= i < already_set.len() && (#[trigger] already_set[i])@ == key
}

/// The entries that take effect where some names are set already: the first one of each other key, in
/// their order.
pub open spec fn effective(
    list: Seq<(Seq<char>, Seq<char>)>,
    already_set: Seq<String>,
) -> Seq<(Seq<char>, Seq<char>)>
    decreases list.len(),
{
    if list.len() == 0 {
        seq![]
    } else {
        let before = list.drop_last();
        let entry = list.last();
        if is_set(already_set, entry.0) || has_key(before, entry.0) {
            effective(before, already_set)
        } else {
            effective(before, already_set).push(entry)
        }
    }
}

/// The entries of a settings file that take effect: what is set already goes before the file, and the
/// first line with a key before later ones.
pub fn settings_to_add(list: &Vec<(String, String)>, already_set: &Vec<String>) -> (add: Vec<
    (String, String),
>)
    ensures
        texts(add@) == effective(texts(list@), already_set@),
{
    let mut add: Vec<(String, String)> = Vec::new();
    let mut i: usize = 0;
    let ghost all = texts(list@);
    assert(all.take(0) =~= seq![]);
    assert(texts(add@) =~= seq![]);
    while i < list.len()
        invariant
            all == texts(list@),
            i <= list.len(),
            texts(add@) == effective(all.take(i as int), already_set@),
        decreases list.len() - i,
    {
        let ghost before = all.take(i as int);
        assert(all.take(i + 1).drop_last() =~= before);
        assert(all.take(i + 1).last() == all[i as int]);
        let key: &str = list[i].0.as_str();
        if !names_contain(already_set, key) && !keys_contain(list, i, key) {
            let value: String = list[i].1.clone();
            add.push((list[i].0.clone(), value));
            assert(texts(add@) =~= effective(before, already_set@).push(all[i as int]));
        }
        i += 1;
    }
    assert(all.take(i as int) =~= all);
    add
}

/// Whether this name is among those set.
fn names_contain(names: &Vec<String>, key: &str) -> (found: bool)
    ensures
        found == is_set(names@, key@),
{
    let mut i: usize = 0;
    while i < names.len()
        invariant
            i <= names.len(),
            forall|j: int| 0 <= j < i ==> (#[trigger] names@[j])@ != key@,
        decreases names.len() - i,
    {
        if text::same_text(names[i].as_str(), key) {
            return true;
        }
        i += 1;
    }
    false
}

/// Whether one of the first `n` entries has this key.
fn keys_contain(list: &Vec<(String, String)>, n: usize, key: &str) -> (found: bool)
    requires
        n <= list@.len(),
    ensures
        found == has_key(texts(list@).take(n as int), key@),
{
    let mut i: usize = 0;
    let ghost seen = texts(list@).take(n as int);
    while i < n
        invariant
            i <= n <= list@.len(),
            seen == texts(list@).take(n as int),
            forall|j: int| 0 <= j < i ==> (#[trigger] seen[j]).0 != key@,
        decreases n - i,
    {
        assert(seen[i as int].0 == list@[i as int].0@);
        if text::same_text(list[i].0.as_str(), key) {
            return true;
        }
        i += 1;
    }
    false
}

/// What is set already stays: no entry that takes effect has a name that is set.
pub proof fn law_set_names_stay(
    list: Seq<(Seq<char>, Seq<char>)>,
    already_set: Seq<String>,
    i: int,
)
    requires
        0 <= i < effective(list, already_set).len(),
    ensures
        !is_set(already_set, effective(list, already_set)[i].0),
        list.contains(effective(list, already_set)[i]),
    decreases list.len(),
{
    let before = list.drop_last();
    let below = effective(before, already_set);
    if i < below.len() {
        law_set_names_stay(before, already_set, i);
        let j = choose|j: int| 0 <= j < before.len() && before[j] == below[i];
        assert(list[j] == below[i]);
    } else {
        assert(list[list.len() - 1] == effective(list, already_set)[i]);
    }
}

/// The first line with a key that is not set takes effect, and no later one with that key does.
pub proof fn law_first_line_wins(
    list: Seq<(Seq<char>, Seq<char>)>,
    already_set: Seq<String>,
    first: int,
)
    requires
        0 <= first < list.len(),
        !is_set(already_set, list[first].0),
        !has_key(list.take(first), list[first].0),
    ensures
        effective(list, already_set).contains(list[first]),
        forall|i: int|
            0 <= i < effective(list, already_set).len() && (#[trigger] effective(
                list,
                already_set,
            )[i]).0 == list[first].0 ==> effective(list, already_set)[i] == list[first],
    decreases list.len(),
{
    let before = list.drop_last();
    let entry = list.last();
    let below = effective(before, already_set);
    let all = effective(list, already_set);
    let key = list[first].0;
    if first == list.len() - 1 {
        assert(list.take(first) =~= before);
        assert(all[below.len() as int] == entry);
        assert forall|i: int| 0 <= i < all.len() && (#[trigger] all[i]).0 == key implies all[i]
            == list[first] by {
            if i < below.len() {
                law_set_names_stay(before, already_set, i);
                let j = choose|j: int| 0 <= j < before.len() && before[j] == below[i];
                assert(before[j].0 == key);
            }
        }
    } else {
        assert(before.take(first) =~= list.take(first));
        law_first_line_wins(before, already_set, first);
        assert(before[first].0 == key);
        let k = choose|k: int| 0 <= k < below.len() && below[k] == list[first];
        assert(all[k] == list[first]);
        assert forall|i: int| 0 <= i < all.len() && (#[trigger] all[i]).0 == key implies all[i]
            == list[first] by {
            if i < below.len() {
                assert(below[i] == all[i]);
            }
        }
    }
}

} // verus!
