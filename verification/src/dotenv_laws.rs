//! Laws of settings files: how a text parts into lines, and what a line sets.

use crate::dotenv;
use crate::dotenv::Strip;
use vstd::prelude::*;

verus! {

/// Whether every character is stripped off.
pub open spec fn only(s: Seq<char>, strip: Strip) -> bool {
    forall|i: int| 0 <= i < s.len() ==> dotenv::strips(strip, #[trigger] s[i])
}

/// Whether neither end would be stripped off.
pub open spec fn firm_ends(s: Seq<char>, strip: Strip) -> bool {
    s.len() > 0 ==> !dotenv::strips(strip, s[0]) && !dotenv::strips(strip, s.last())
}

/// A line feed parts a text in two: the lines of the first part, then those of the second. A text
/// without line feeds is one line.
pub proof fn law_line_feeds_part_lines(a: Seq<char>, b: Seq<char>)
    ensures
        dotenv::lines(a + seq!['\n'] + b) == dotenv::lines(a) + dotenv::lines(b),
        dotenv::lines(a).len() > 0,
        (forall|i: int| 0 <= i < a.len() ==> #[trigger] a[i] != '\n') ==> dotenv::lines(a)
            == seq![a],
    decreases a.len() + b.len(),
{
    lemma_lines(a);
    lemma_lines(b);
    let all = a + seq!['\n'] + b;
    if b.len() == 0 {
        assert(all.drop_last() =~= a);
        assert(dotenv::lines(a).push(seq![]) =~= dotenv::lines(a) + dotenv::lines(b));
    } else {
        let rest = b.drop_last();
        law_line_feeds_part_lines(a, rest);
        lemma_lines(rest);
        assert(all.drop_last() =~= a + seq!['\n'] + rest);
        assert(all.last() == b.last());
        let first = dotenv::lines(a);
        let second = dotenv::lines(rest);
        if b.last() == '\n' {
            assert((first + second).push(seq![]) =~= first + second.push(seq![]));
        } else {
            let line = second.last().push(b.last());
            assert((first + second).drop_last().push(line) =~= first + second.drop_last().push(
                line,
            ));
        }
    }
}

proof fn lemma_lines(s: Seq<char>)
    ensures
        dotenv::lines(s).len() > 0,
        (forall|i: int| 0 <= i < s.len() ==> #[trigger] s[i] != '\n') ==> dotenv::lines(s) == seq![
            s,
        ],
    decreases s.len(),
{
    if s.len() == 0 {
        assert(s =~= seq![]);
    } else {
        let rest = s.drop_last();
        lemma_lines(rest);
        if forall|i: int| 0 <= i < s.len() ==> #[trigger] s[i] != '\n' {
            assert forall|i: int| 0 <= i < rest.len() implies #[trigger] rest[i] != '\n' by {
                assert(s[i] != '\n');
            }
            assert(s[s.len() - 1] != '\n');
            assert(rest.push(s.last()) =~= s);
            assert(dotenv::lines(s) =~= seq![s]);
        }
    }
}

/// What several lines set is what each of them sets, one behind the other.
pub proof fn law_lines_set_one_by_one(a: Seq<Seq<char>>, b: Seq<Seq<char>>, line: Seq<char>)
    ensures
        dotenv::entries(a + b) == dotenv::entries(a) + dotenv::entries(b),
        dotenv::entries(seq![line]) == match dotenv::line_entry(line) {
            Some(entry) => seq![entry],
            None => seq![],
        },
    decreases b.len(),
{
    let one = seq![line];
    assert(one.drop_last() =~= seq![]);
    assert(dotenv::entries(one.drop_last()) =~= seq![]);
    if dotenv::line_entry(line) is Some {
        assert(dotenv::entries(one) =~= seq![dotenv::line_entry(line)->0]);
    }
    if b.len() == 0 {
        assert(a + b =~= a);
        assert(dotenv::entries(a) + dotenv::entries(b) =~= dotenv::entries(a));
    } else {
        let rest = b.drop_last();
        law_lines_set_one_by_one(a, rest, line);
        assert((a + b).drop_last() =~= a + rest);
        if dotenv::line_entry(b.last()) is Some {
            let entry = dotenv::line_entry(b.last())->0;
            assert((dotenv::entries(a) + dotenv::entries(rest)).push(entry) =~= dotenv::entries(a)
                + dotenv::entries(rest).push(entry));
        }
    }
}

proof fn lemma_strip_front(w: Seq<char>, s: Seq<char>, strip: Strip)
    requires
        only(w, strip),
    ensures
        dotenv::strip_front(w + s, strip) == dotenv::strip_front(s, strip),
    decreases w.len(),
{
    if w.len() == 0 {
        assert(w + s =~= s);
    } else {
        assert(dotenv::strips(strip, w[0]));
        assert forall|i: int| 0 <= i < w.skip(1).len() implies dotenv::strips(
            strip,
            #[trigger] w.skip(1)[i],
        ) by {
            assert(dotenv::strips(strip, w[i + 1]));
        }
        lemma_strip_front(w.skip(1), s, strip);
        assert((w + s).skip(1) =~= w.skip(1) + s);
        assert((w + s)[0] == w[0]);
    }
}

proof fn lemma_strip_back(s: Seq<char>, w: Seq<char>, strip: Strip)
    requires
        only(w, strip),
    ensures
        dotenv::strip_back(s + w, strip) == dotenv::strip_back(s, strip),
    decreases w.len(),
{
    if w.len() == 0 {
        assert(s + w =~= s);
    } else {
        assert(dotenv::strips(strip, w[w.len() - 1]));
        assert forall|i: int| 0 <= i < w.drop_last().len() implies dotenv::strips(
            strip,
            #[trigger] w.drop_last()[i],
        ) by {
            assert(dotenv::strips(strip, w[i]));
        }
        lemma_strip_back(s, w.drop_last(), strip);
        assert((s + w).drop_last() =~= s + w.drop_last());
        assert((s + w).last() == w.last());
    }
}

/// Stripping takes off what stands around a text, all of it and nothing else.
pub proof fn law_stripping_takes_off_the_ends(
    before: Seq<char>,
    s: Seq<char>,
    after: Seq<char>,
    strip: Strip,
)
    requires
        only(before, strip),
        only(after, strip),
        firm_ends(s, strip),
    ensures
        dotenv::stripped(before + s + after, strip) == s,
{
    lemma_strip_front(before, s + after, strip);
    assert(before + s + after =~= before + (s + after));
    if s.len() > 0 {
        assert((s + after)[0] == s[0]);
        lemma_strip_back(s, after, strip);
    } else {
        let none: Seq<char> = seq![];
        assert(s =~= none);
        assert(s + after =~= after + none);
        lemma_strip_front(after, none, strip);
        assert(dotenv::strip_front(none, strip) == none);
    }
}

proof fn lemma_first_of(a: Seq<char>, b: Seq<char>, c: char)
    requires
        forall|i: int| 0 <= i < a.len() ==> #[trigger] a[i] != c,
    ensures
        dotenv::first_of(a + seq![c] + b, c) == a.len(),
    decreases b.len(),
{
    let all = a + seq![c] + b;
    if b.len() == 0 {
        assert(all.drop_last() =~= a);
        lemma_first_of_none(a, c);
    } else {
        lemma_first_of(a, b.drop_last(), c);
        assert(all.drop_last() =~= a + seq![c] + b.drop_last());
    }
}

proof fn lemma_first_of_none(s: Seq<char>, c: char)
    requires
        forall|i: int| 0 <= i < s.len() ==> #[trigger] s[i] != c,
    ensures
        dotenv::first_of(s, c) == -1,
    decreases s.len(),
{
    if s.len() > 0 {
        let rest = s.drop_last();
        assert forall|i: int| 0 <= i < rest.len() implies #[trigger] rest[i] != c by {
            assert(s[i] != c);
        }
        lemma_first_of_none(rest, c);
        assert(s[s.len() - 1] != c);
    }
}

/// A line sets its key to its value, whatever white space stands around them and whatever double
/// quotes stand around the value. The first `=` parts them; the value may hold more of them.
pub proof fn law_line_sets_key_to_value(
    w1: Seq<char>,
    key: Seq<char>,
    w2: Seq<char>,
    w3: Seq<char>,
    q1: Seq<char>,
    value: Seq<char>,
    q2: Seq<char>,
    w4: Seq<char>,
)
    requires
        only(w1, Strip::White) && only(w2, Strip::White) && only(w3, Strip::White) && only(
            w4,
            Strip::White,
        ),
        only(q1, Strip::Quotes) && only(q2, Strip::Quotes),
        key.len() > 0,
        key[0] != '#',
        forall|i: int| 0 <= i < key.len() ==> #[trigger] key[i] != '=',
        firm_ends(key, Strip::White),
        firm_ends(value, Strip::Quotes),
        firm_ends(q1 + value + q2, Strip::White),
        (q1 + value + q2).len() > 0 || w3.len() == 0,
    ensures
        dotenv::line_entry(w1 + (key + w2 + seq!['='] + (w3 + (q1 + value + q2))) + w4) == Some(
            (key, value),
        ),
{
    let quoted = q1 + value + q2;
    let behind = w3 + quoted;
    let text = key + w2 + seq!['='] + behind;
    assert(text[0] == key[0]);
    if quoted.len() > 0 {
        assert(text.last() == quoted.last());
    } else {
        assert(behind =~= seq![]);
        assert(text.last() == '=');
    }
    law_stripping_takes_off_the_ends(w1, text, w4, Strip::White);
    let name = key + w2;
    assert forall|i: int| 0 <= i < name.len() implies #[trigger] name[i] != '=' by {
        if i < key.len() {
            assert(key[i] != '=');
        } else {
            assert(dotenv::strips(Strip::White, w2[i - key.len()]));
        }
    }
    lemma_first_of(name, behind, '=');
    assert(text.take(name.len() as int) =~= name);
    assert(text.skip(name.len() as int + 1) =~= behind);
    let none: Seq<char> = seq![];
    assert(none + key + w2 =~= name);
    law_stripping_takes_off_the_ends(none, key, w2, Strip::White);
    assert(w3 + quoted + none =~= behind);
    law_stripping_takes_off_the_ends(w3, quoted, none, Strip::White);
    law_stripping_takes_off_the_ends(q1, value, q2, Strip::Quotes);
}

/// Blank lines, comments and lines without `=` set nothing.
pub proof fn law_other_lines_set_nothing(w: Seq<char>, s: Seq<char>)
    requires
        only(w, Strip::White),
    ensures
        dotenv::line_entry(w) is None,
        dotenv::line_entry(w + (seq!['#'] + s)) is None,
        (forall|i: int| 0 <= i < s.len() ==> #[trigger] s[i] != '=') ==> dotenv::line_entry(
            s,
        ) is None,
{
    let none: Seq<char> = seq![];
    assert(w + none + none =~= w);
    law_stripping_takes_off_the_ends(w, none, none, Strip::White);
    let comment = seq!['#'] + s;
    lemma_strip_front(w, comment, Strip::White);
    assert(comment[0] == '#');
    lemma_strip_back_keeps_first(comment, Strip::White);
    if forall|i: int| 0 <= i < s.len() ==> #[trigger] s[i] != '=' {
        lemma_strip_front_part(s, Strip::White);
        let k = choose|k: int|
            0 <= k <= s.len() && dotenv::strip_front(s, Strip::White) == #[trigger] s.skip(k);
        let front = s.skip(k);
        lemma_strip_back_part(front, Strip::White);
        let m = choose|m: int|
            0 <= m <= front.len() && dotenv::strip_back(front, Strip::White) == #[trigger] front.take(
                m,
            );
        let text = front.take(m);
        assert forall|i: int| 0 <= i < text.len() implies #[trigger] text[i] != '=' by {
            assert(s[i + k] != '=');
        }
        lemma_first_of_none(text, '=');
    }
}

proof fn lemma_strip_back_keeps_first(s: Seq<char>, strip: Strip)
    requires
        s.len() > 0,
        !dotenv::strips(strip, s[0]),
    ensures
        dotenv::strip_back(s, strip).len() > 0,
        dotenv::strip_back(s, strip)[0] == s[0],
    decreases s.len(),
{
    if dotenv::strips(strip, s.last()) {
        assert(s.drop_last()[0] == s[0]);
        lemma_strip_back_keeps_first(s.drop_last(), strip);
    }
}

proof fn lemma_strip_front_part(s: Seq<char>, strip: Strip)
    ensures
        exists|k: int| 0 <= k <= s.len() && dotenv::strip_front(s, strip) == #[trigger] s.skip(k),
    decreases s.len(),
{
    if s.len() > 0 && dotenv::strips(strip, s[0]) {
        let rest = s.skip(1);
        lemma_strip_front_part(rest, strip);
        let k = choose|k: int|
            0 <= k <= rest.len() && dotenv::strip_front(rest, strip) == #[trigger] rest.skip(k);
        assert(rest.skip(k) =~= s.skip(k + 1));
    } else {
        assert(s.skip(0) =~= s);
    }
}

proof fn lemma_strip_back_part(s: Seq<char>, strip: Strip)
    ensures
        exists|k: int| 0 <= k <= s.len() && dotenv::strip_back(s, strip) == #[trigger] s.take(k),
    decreases s.len(),
{
    if s.len() > 0 && dotenv::strips(strip, s.last()) {
        let rest = s.drop_last();
        lemma_strip_back_part(rest, strip);
        let k = choose|k: int|
            0 <= k <= rest.len() && dotenv::strip_back(rest, strip) == #[trigger] rest.take(k);
        assert(rest.take(k) =~= s.take(k));
    } else {
        assert(s.take(s.len() as int) =~= s);
    }
}

/// A further line never changes what took effect before it: it adds its entry at the end, where its
/// key is neither set already nor in an earlier line.
pub proof fn law_later_lines_only_add(
    list: Seq<(Seq<char>, Seq<char>)>,
    already_set: Seq<String>,
    key: Seq<char>,
    value: Seq<char>,
)
    ensures
        (exists|i: int| 0 <= i < already_set.len() && (#[trigger] already_set[i])@ == key) || (
        exists|i: int| 0 <= i < list.len() && (#[trigger] list[i]).0 == key) ==> dotenv::effective(
            list.push((key, value)),
            already_set,
        ) == dotenv::effective(list, already_set),
        !(exists|i: int| 0 <= i < already_set.len() && (#[trigger] already_set[i])@ == key) && !(
        exists|i: int| 0 <= i < list.len() && (#[trigger] list[i]).0 == key) ==> dotenv::effective(
            list.push((key, value)),
            already_set,
        ) == dotenv::effective(list, already_set).push((key, value)),
{
    assert(list.push((key, value)).drop_last() =~= list);
}

/// Double quotes are what is stripped off as quotes, and white space is the space, the tab, the line
/// ends and the wide spaces of Unicode.
pub proof fn law_what_is_stripped(c: char)
    ensures
        dotenv::strips(Strip::Quotes, c) <==> c == '"',
        dotenv::strips(Strip::White, c) <==> (c as int == 32 || 9 <= c as int <= 13 || c as int
            == 0x85 || c as int == 0xa0 || c as int == 0x1680 || 0x2000 <= c as int <= 0x200a
            || c as int == 0x2028 || c as int == 0x2029 || c as int == 0x202f || c as int == 0x205f
            || c as int == 0x3000),
{
}

} // verus!
