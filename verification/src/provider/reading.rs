//! Reading what sources write for people: numbers in the midst of words, names with an alias.

use crate::text::{
    chars_of, copy, dec, digit, find_char, first_of, has, is_digit, lemma_first_of, lemma_read_of_dec, lemma_value_of_dec, opt_view, parse_u32,
    read_nat, text_of, trim, trimmed,
};
use vstd::prelude::*;

verus! {

/// The digits at the end of a text.
pub open spec fn last_digits(s: Seq<char>) -> Seq<char>
    decreases s.len(),
{
    if s.len() > 0 && is_digit(s.last()) {
        last_digits(s.drop_last()).push(s.last())
    } else {
        Seq::empty()
    }
}

/// The number that stands before the first `unit` in a text.
pub open spec fn number_before(text: Seq<char>, unit: char) -> Option<nat> {
    let i = first_of(text, unit);
    if i < text.len() {
        read_nat(last_digits(text.take(i)), u32::MAX as nat)
    } else {
        None
    }
}

/// The digits of a text.
pub open spec fn digits_of(text: Seq<char>) -> Seq<char> {
    text.filter(|c: char| is_digit(c))
}

/// A text without what stands at its end as often as it does.
pub open spec fn without_end(s: Seq<char>, c: char) -> Seq<char>
    decreases s.len(),
{
    if s.len() > 0 && s.last() == c {
        without_end(s.drop_last(), c)
    } else {
        s
    }
}

/// A number, as far as the exact one is.
pub open spec fn same_number(a: Option<u32>, b: Option<nat>) -> bool {
    match (a, b) {
        (Some(x), Some(y)) => x == y,
        (None, None) => true,
        _ => false,
    }
}

proof fn lemma_last_digits(s: Seq<char>, from: int)
    requires
        0 <= from <= s.len(),
        forall|j: int| from <= j < s.len() ==> is_digit(#[trigger] s[j]),
        from > 0 ==> !is_digit(s[from - 1]),
    ensures
        last_digits(s) == s.skip(from),
    decreases s.len(),
{
    if s.len() > from {
        let front = s.drop_last();
        assert(is_digit(s[s.len() - 1]));
        assert forall|j: int| from <= j < front.len() implies is_digit(#[trigger] front[j]) by {
            assert(front[j] == s[j]);
        }
        lemma_last_digits(front, from);
        assert(front.skip(from).push(s.last()) =~= s.skip(from));
    } else {
        assert(s.skip(from) =~= Seq::<char>::empty());
    }
}

/// The number that stands before the first `unit` in a text.
pub fn find_number(text: &str, unit: char) -> (r: Option<u32>)
    ensures
        same_number(r, number_before(text@, unit)),
{
    let chars = chars_of(text);
    let at: usize = find_char(&chars, unit);
    if at >= chars.len() {
        return None;
    }
    let ghost before = chars@.take(at as int);
    let mut from: usize = at;
    while from > 0 && digit(chars[from - 1])
        invariant
            from <= at,
            at < chars@.len(),
            before == chars@.take(at as int),
            forall|j: int| from <= j < before.len() ==> is_digit(#[trigger] before[j]),
        decreases from,
    {
        assert(before[from - 1] == chars@[from - 1]);
        from -= 1;
    }
    proof {
        if from > 0 {
            assert(before[from - 1] == chars@[from - 1]);
        }
        lemma_last_digits(before, from as int);
    }
    let digits = text_of(&chars, from, at);
    assert(digits@ =~= before.skip(from as int));
    parse_u32(digits.as_str())
}

/// The number that the digits of a text make, wherever they stand.
pub fn number_of_digits(text: &str) -> (r: Option<u32>)
    ensures
        same_number(r, read_nat(digits_of(text@), u32::MAX as nat)),
{
    let chars = chars_of(text);
    let ghost p = |c: char| is_digit(c);
    let mut kept: Vec<char> = Vec::new();
    let mut i: usize = 0;
    assert(kept@ =~= chars@.take(0).filter(p)) by {
        reveal(Seq::filter);
    }
    while i < chars.len()
        invariant
            i <= chars@.len(),
            p == (|c: char| is_digit(c)),
            kept@ == chars@.take(i as int).filter(p),
        decreases chars.len() - i,
    {
        proof {
            crate::seqs::lemma_filter_next(chars@, p, i as int);
        }
        if digit(chars[i]) {
            kept.push(chars[i]);
        }
        i += 1;
    }
    assert(chars@.take(i as int) =~= chars@);
    let digits = text_of(&kept, 0, kept.len());
    assert(digits@ =~= kept@);
    parse_u32(digits.as_str())
}

/// A text without what stands at its end as often as it does.
pub fn strip_end(s: &str, c: char) -> (r: String)
    ensures
        r@ == without_end(s@, c),
{
    let chars = chars_of(s);
    let mut to: usize = chars.len();
    assert(chars@.take(to as int) =~= chars@);
    while to > 0 && chars[to - 1] == c
        invariant
            to <= chars@.len(),
            without_end(chars@.take(to as int), c) == without_end(chars@, c),
        decreases to,
    {
        assert(chars@.take(to as int).drop_last() =~= chars@.take(to - 1));
        to -= 1;
    }
    assert(chars@.subrange(0, to as int) =~= chars@.take(to as int));
    text_of(&chars, 0, to)
}

/// A name and an alias between a pair of brackets, where the opening one stands in the text.
pub open spec fn bracketed(raw: Seq<char>, open: char, close: char) -> Option<(Seq<char>, Option<Seq<char>>)> {
    let i = first_of(raw, open);
    if i < raw.len() {
        let alias = trim(without_end(raw.skip(i + 1), close));
        Some(
            (
                trim(raw.take(i)),
                if alias.len() > 0 {
                    Some(alias)
                } else {
                    None
                },
            ),
        )
    } else {
        None
    }
}

/// The name of a stop, and the alias that stands behind it in brackets.
pub open spec fn name_and_alias(raw: Seq<char>) -> (Seq<char>, Option<Seq<char>>) {
    let raw = trim(raw);
    match bracketed(raw, '︵', '︶') {
        Some(found) => found,
        None => match bracketed(raw, '（', '）') {
            Some(found) => found,
            None => match bracketed(raw, '(', ')') {
                Some(found) => found,
                None => (raw, None),
            },
        },
    }
}

fn read_bracketed(raw: &str, open: char, close: char) -> (r: Option<(String, Option<String>)>)
    ensures
        match (r, bracketed(raw@, open, close)) {
            (Some((name, alias)), Some((x, y))) => name@ == x && opt_view(alias) == y,
            (None, None) => true,
            _ => false,
        },
{
    let chars = chars_of(raw);
    let at: usize = find_char(&chars, open);
    if at >= chars.len() {
        return None;
    }
    let front = text_of(&chars, 0, at);
    assert(front@ =~= raw@.take(at as int));
    let rest = text_of(&chars, at + 1, chars.len());
    assert(rest@ =~= raw@.skip(at + 1));
    let alias = trimmed(strip_end(rest.as_str(), close).as_str());
    let found = if alias.as_str().is_empty() {
        None
    } else {
        Some(alias)
    };
    Some((trimmed(front.as_str()), found))
}

/// The name of a stop, and the alias that stands behind it in brackets.
pub fn parse_station_name(raw: &str) -> (r: (String, Option<String>))
    ensures
        (r.0@, opt_view(r.1)) == name_and_alias(raw@),
{
    let text = trimmed(raw);
    match read_bracketed(text.as_str(), '︵', '︶') {
        Some(found) => found,
        None => match read_bracketed(text.as_str(), '（', '）') {
            Some(found) => found,
            None => match read_bracketed(text.as_str(), '(', ')') {
                Some(found) => found,
                None => (text, None),
            },
        },
    }
}

/// Whether one of the words stands in a text.
pub open spec fn has_any(text: Seq<char>, a: Seq<char>, b: Seq<char>) -> bool {
    has(text, a) || has(text, b)
}

/// The minutes for a way: at 400 metres a minute, at least one; none for no way.
pub open spec fn minutes_for(distance_m: Option<u32>) -> Option<u32> {
    match distance_m {
        Some(d) => if d > 0 {
            Some(
                if d / 400 > 1 {
                    (d / 400) as u32
                } else {
                    1
                },
            )
        } else {
            None
        },
        None => None,
    }
}

/// The minutes for a way.
pub fn estimate_minutes(distance_m: Option<u32>) -> (r: Option<u32>)
    ensures
        r == minutes_for(distance_m),
{
    match distance_m {
        Some(d) => if d > 0 {
            let m: u32 = d / 400;
            if m > 1 {
                Some(m)
            } else {
                Some(1)
            }
        } else {
            None
        },
        None => None,
    }
}

/// The first of two that is there.
pub open spec fn either(a: Option<u32>, b: Option<u32>) -> Option<u32> {
    match a {
        Some(x) => Some(x),
        None => b,
    }
}

/// The first of two that is there.
pub fn first_there(a: Option<u32>, b: Option<u32>) -> (r: Option<u32>)
    ensures
        r == either(a, b),
{
    match a {
        Some(x) => Some(x),
        None => b,
    }
}

/// A number that was found, in 32 bits.
pub open spec fn small(n: Option<nat>) -> Option<u32> {
    match n {
        Some(n) => Some(n as u32),
        None => None,
    }
}

/// A text, unless it is empty.
pub open spec fn unless_empty(s: Seq<char>) -> Option<Seq<char>> {
    if s.len() == 0 {
        None
    } else {
        Some(s)
    }
}

/// A text, unless it is empty.
pub fn not_empty(s: &str) -> (r: Option<String>)
    ensures
        opt_view(r) == unless_empty(s@),
{
    if s.is_empty() {
        None
    } else {
        Some(copy(s))
    }
}

/// A number in front of its unit is read, whatever stands around it.
pub proof fn law_number_is_read_before_its_unit(before: Seq<char>, n: nat, unit: char, after: Seq<char>)
    requires
        n <= u32::MAX,
        !is_digit(unit),
        forall|i: int| 0 <= i < before.len() ==> #[trigger] before[i] != unit,
        before.len() > 0 ==> !is_digit(before.last()),
    ensures
        number_before(before + dec(n) + seq![unit] + after, unit) == Some(n),
{
    lemma_value_of_dec(n);
    lemma_read_of_dec(n, u32::MAX as nat);
    let text = before + dec(n) + seq![unit] + after;
    let at = (before.len() + dec(n).len()) as int;
    assert forall|j: int| 0 <= j < at implies #[trigger] text[j] != unit by {
        if j < before.len() {
            assert(text[j] == before[j]);
        } else {
            assert(text[j] == dec(n)[j - before.len()]);
            assert(is_digit(dec(n)[j - before.len()]));
        }
    }
    assert(text[at] == unit);
    lemma_first_of(text, unit, at);
    let front = text.take(at);
    assert forall|j: int| before.len() <= j < front.len() implies is_digit(#[trigger] front[j]) by {
        assert(front[j] == dec(n)[j - before.len()]);
    }
    lemma_last_digits(front, before.len() as int);
    assert(front.skip(before.len() as int) =~= dec(n));
}

/// A way takes a minute for every four hundred metres, and one at least; without a way there is no time.
pub proof fn law_way_takes_its_time(metres: u32)
    ensures
        minutes_for(None) is None,
        metres == 0 ==> minutes_for(Some(metres)) is None,
        metres > 0 ==> minutes_for(Some(metres)) is Some && minutes_for(Some(metres))->0 >= 1,
        metres >= 400 ==> 400 * minutes_for(Some(metres))->0 <= metres < 400 * (minutes_for(Some(metres))->0 + 1),
{
}

/// A name with another one in brackets is taken apart; one without brackets stays.
pub proof fn law_name_is_taken_apart(name: Seq<char>, alias: Seq<char>)
    requires
        trim(name) == name,
        trim(alias) == alias,
        name.len() > 0,
        alias.len() > 0,
        trim(name + seq!['('] + alias + seq![')']) == name + seq!['('] + alias + seq![')'],
        forall|i: int|
            0 <= i < name.len() ==> #[trigger] name[i] != '(' && name[i] != '（' && name[i] != '︵',
        forall|i: int|
            0 <= i < alias.len() ==> #[trigger] alias[i] != '（' && alias[i] != '︵' && alias[i] != ')',
    ensures
        name_and_alias(name + seq!['('] + alias + seq![')']) == (name, Some(alias)),
        name_and_alias(name) == (name, None::<Seq<char>>),
{
    let raw = name + seq!['('] + alias + seq![')'];
    let n = name.len() as int;
    assert(raw[n] == '(');
    assert forall|j: int| 0 <= j < raw.len() implies #[trigger] raw[j] != '（' && raw[j] != '︵' by {
        if j < n {
            assert(raw[j] == name[j]);
        } else if n < j < raw.len() - 1 {
            assert(raw[j] == alias[j - n - 1]);
        }
    }
    assert forall|j: int| 0 <= j < n implies #[trigger] raw[j] != '(' by {
        assert(raw[j] == name[j]);
    }
    lemma_first_of(raw, '︵', raw.len() as int);
    lemma_first_of(raw, '（', raw.len() as int);
    lemma_first_of(raw, '(', n);
    assert(raw.take(n) =~= name);
    let inner = raw.skip(n + 1);
    assert(inner =~= alias + seq![')']);
    assert(inner.drop_last() =~= alias);
    assert(inner.last() == ')');
    assert(alias.last() == alias[alias.len() - 1]);
    reveal_with_fuel(without_end, 2);
    assert(without_end(inner, ')') == alias);
    lemma_first_of(name, '︵', n);
    lemma_first_of(name, '（', n);
    lemma_first_of(name, '(', n);
}

} // verus!
