//! Text as a sequence of characters: the searching, trimming, splitting and number reading that
//! the rest of the library is stated over.
use vstd::prelude::*;

verus! {

/// `String::push` of std: the character is added at the end.
pub assume_specification[ String::push ](s: &mut String, c: char)
    ensures
        final(s)@ == old(s)@.push(c),
;

// ─── characters ───

/// The Unicode property `White_Space`, as `char::is_whitespace` has it.
pub open spec fn is_space(c: char) -> bool {
    ||| '\u{9}' <= c <= '\u{d}'
    ||| c == ' '
    ||| c == '\u{85}'
    ||| c == '\u{a0}'
    ||| c == '\u{1680}'
    ||| '\u{2000}' <= c <= '\u{200a}'
    ||| c == '\u{2028}'
    ||| c == '\u{2029}'
    ||| c == '\u{202f}'
    ||| c == '\u{205f}'
    ||| c == '\u{3000}'
}

/// An ASCII decimal digit.
pub open spec fn is_digit(c: char) -> bool {
    '0' <= c <= '9'
}

/// The digit that stands for `d`, for `d` below ten.
pub open spec fn digit_char(d: nat) -> char {
    (48 + d) as char
}

/// Whether `c` is white space.
pub fn space(c: char) -> (r: bool)
    ensures
        r == is_space(c),
{
    ('\u{9}' <= c && c <= '\u{d}') || c == ' ' || c == '\u{85}' || c == '\u{a0}' || c == '\u{1680}'
        || ('\u{2000}' <= c && c <= '\u{200a}') || c == '\u{2028}' || c == '\u{2029}' || c
        == '\u{202f}' || c == '\u{205f}' || c == '\u{3000}'
}

/// Whether `c` is an ASCII decimal digit.
pub fn digit(c: char) -> (r: bool)
    ensures
        r == is_digit(c),
{
    '0' <= c && c <= '9'
}

// ─── between strings and vectors of characters ───

/// The characters of `s`.
pub fn chars_of(s: &str) -> (r: Vec<char>)
    ensures
        r@ == s@,
{
    let mut r: Vec<char> = Vec::new();
    for c in it: s.chars()
        invariant
            r@ == it.seq().take(it.index()),
            it.seq() == s@,
    {
        r.push(c);
    }
    assert(s@.take(s@.len() as int) == s@);
    r
}

/// The characters `from..to` as a string.
pub fn text_of(chars: &Vec<char>, from: usize, to: usize) -> (r: String)
    requires
        from <= to <= chars@.len(),
    ensures
        r@ == chars@.subrange(from as int, to as int),
{
    let mut r = String::new();
    let mut i = from;
    while i < to
        invariant
            from <= i <= to <= chars@.len(),
            r@ == chars@.subrange(from as int, i as int),
        decreases to - i,
    {
        r.push(chars[i]);
        assert(chars@.subrange(from as int, i + 1) == chars@.subrange(from as int, i as int).push(
            chars@[i as int],
        ));
        i += 1;
    }
    r
}

/// Whether two strings hold the same characters.
#[verifier::loop_isolation(false)]
pub fn same(a: &str, b: &str) -> (r: bool)
    ensures
        r == (a@ == b@),
{
    let left = chars_of(a);
    let right = chars_of(b);
    if left.len() != right.len() {
        return false;
    }
    let mut i: usize = 0;
    while i < left.len()
        invariant
            i <= left@.len(),
            forall|j: int| 0 <= j < i ==> left@[j] == right@[j],
        decreases left.len() - i,
    {
        if left[i] != right[i] {
            return false;
        }
        i += 1;
    }
    assert(left@ =~= right@);
    true
}

/// A copy of `s`.
pub fn copy(s: &str) -> (r: String)
    ensures
        r@ == s@,
{
    s.to_owned()
}

/// The view of an optional string.
pub open spec fn opt_view(s: Option<String>) -> Option<Seq<char>> {
    match s {
        Some(s) => Some(s@),
        None => None,
    }
}

/// The views of a list of strings.
pub open spec fn views(list: Seq<String>) -> Seq<Seq<char>> {
    list.map_values(|s: String| s@)
}

// ─── trimming ───

/// `s` without its leading white space.
pub open spec fn trim_start(s: Seq<char>) -> Seq<char>
    decreases s.len(),
{
    if s.len() > 0 && is_space(s[0]) {
        trim_start(s.drop_first())
    } else {
        s
    }
}

/// `s` without its trailing white space.
pub open spec fn trim_end(s: Seq<char>) -> Seq<char>
    decreases s.len(),
{
    if s.len() > 0 && is_space(s.last()) {
        trim_end(s.drop_last())
    } else {
        s
    }
}

/// `s` without white space at either end.
pub open spec fn trim(s: Seq<char>) -> Seq<char> {
    trim_end(trim_start(s))
}

/// Whether `s` is empty or nothing but white space.
pub open spec fn is_blank(s: Seq<char>) -> bool {
    forall|i: int| 0 <= i < s.len() ==> is_space(#[trigger] s[i])
}

proof fn lemma_trim_start_at(s: Seq<char>, n: int)
    requires
        0 <= n <= s.len(),
        forall|j: int| 0 <= j < n ==> is_space(#[trigger] s[j]),
        n < s.len() ==> !is_space(s[n]),
    ensures
        trim_start(s) == s.skip(n),
    decreases n,
{
    if n == 0 {
        assert(s.skip(0) == s);
    } else {
        lemma_trim_start_at(s.drop_first(), n - 1);
        assert(s.drop_first().skip(n - 1) == s.skip(n));
    }
}

proof fn lemma_trim_end_at(s: Seq<char>, n: int)
    requires
        0 <= n <= s.len(),
        forall|j: int| n <= j < s.len() ==> is_space(#[trigger] s[j]),
        n > 0 ==> !is_space(s[n - 1]),
    ensures
        trim_end(s) == s.take(n),
    decreases s.len() - n,
{
    if n == s.len() {
        assert(s.take(n) == s);
    } else {
        lemma_trim_end_at(s.drop_last(), n);
        assert(s.drop_last().take(n) == s.take(n));
    }
}

/// Trimming leaves nothing exactly of what is blank.
pub proof fn lemma_trim_blank(s: Seq<char>)
    ensures
        is_blank(s) <==> trim(s).len() == 0,
    decreases s.len(),
{
    if s.len() > 0 && is_space(s[0]) {
        lemma_trim_blank(s.drop_first());
        if is_blank(s.drop_first()) {
            assert forall|i: int| 0 <= i < s.len() implies is_space(#[trigger] s[i]) by {
                if i > 0 {
                    assert(s.drop_first()[i - 1] == s[i]);
                }
            }
        } else {
            let i = choose|i: int| 0 <= i < s.drop_first().len() && !is_space(#[trigger] s.drop_first()[i]);
            assert(s[i + 1] == s.drop_first()[i]);
        }
    } else if s.len() > 0 {
        lemma_trim_end_keeps(s, 0);
    }
}

/// A character that is not white space survives `trim_end` where it stands.
proof fn lemma_trim_end_keeps(s: Seq<char>, i: int)
    requires
        0 <= i < s.len(),
        !is_space(s[i]),
    ensures
        i < trim_end(s).len(),
        trim_end(s)[i] == s[i],
    decreases s.len(),
{
    if is_space(s.last()) {
        lemma_trim_end_keeps(s.drop_last(), i);
    }
}

/// The bounds of what `trim` leaves: the first and one past the last kept position.
#[verifier::loop_isolation(false)]
fn trim_bounds(chars: &Vec<char>) -> (r: (usize, usize))
    ensures
        r.0 <= r.1 <= chars@.len(),
        trim(chars@) == chars@.subrange(r.0 as int, r.1 as int),
        trim_start(chars@) == chars@.subrange(r.0 as int, chars@.len() as int),
{
    let mut from: usize = 0;
    while from < chars.len() && space(chars[from])
        invariant
            from <= chars@.len(),
            forall|j: int| 0 <= j < from ==> is_space(#[trigger] chars@[j]),
        decreases chars.len() - from,
    {
        from += 1;
    }
    proof {
        lemma_trim_start_at(chars@, from as int);
    }
    let mut to: usize = chars.len();
    while to > from && space(chars[to - 1])
        invariant
            from <= to <= chars@.len(),
            forall|j: int| to <= j < chars@.len() ==> is_space(#[trigger] chars@[j]),
        decreases to,
    {
        to -= 1;
    }
    proof {
        let rest = chars@.skip(from as int);
        assert forall|j: int| to - from <= j < rest.len() implies is_space(#[trigger] rest[j]) by {
            assert(rest[j] == chars@[j + from]);
        }
        lemma_trim_end_at(rest, to - from);
        assert(rest.take(to - from) == chars@.subrange(from as int, to as int));
    }
    (from, to)
}

/// `s` without white space at either end.
pub fn trimmed(s: &str) -> (r: String)
    ensures
        r@ == trim(s@),
{
    let chars = chars_of(s);
    let (from, to) = trim_bounds(&chars);
    text_of(&chars, from, to)
}

/// `s` without its leading white space.
pub fn trimmed_start(s: &str) -> (r: String)
    ensures
        r@ == trim_start(s@),
{
    let chars = chars_of(s);
    let (from, to) = trim_bounds(&chars);
    text_of(&chars, from, chars.len())
}

/// `s` without its trailing white space.
#[verifier::loop_isolation(false)]
pub fn trimmed_end(s: &str) -> (r: String)
    ensures
        r@ == trim_end(s@),
{
    let chars = chars_of(s);
    let mut to: usize = chars.len();
    while to > 0 && space(chars[to - 1])
        invariant
            to <= chars@.len(),
            forall|j: int| to <= j < chars@.len() ==> is_space(#[trigger] chars@[j]),
        decreases to,
    {
        to -= 1;
    }
    proof {
        lemma_trim_end_at(chars@, to as int);
        assert(chars@.take(to as int) == chars@.subrange(0, to as int));
    }
    text_of(&chars, 0, to)
}

/// Whether `s` is empty or nothing but white space.
pub fn blank(s: &str) -> (r: bool)
    ensures
        r == is_blank(s@),
        r == (trim(s@).len() == 0),
{
    proof {
        lemma_trim_blank(s@);
    }
    trimmed(s).as_str().is_empty()
}

// ─── searching ───

/// `sub` stands in `s` at position `i`.
pub open spec fn occurs_at(s: Seq<char>, sub: Seq<char>, i: int) -> bool {
    0 <= i && i + sub.len() <= s.len() && s.subrange(i, i + sub.len()) == sub
}

/// `sub` stands somewhere in `s`.
pub open spec fn has(s: Seq<char>, sub: Seq<char>) -> bool {
    exists|i: int| occurs_at(s, sub, i)
}

/// The first position of `c` in `s`; the length of `s` where it does not stand there.
pub open spec fn first_of(s: Seq<char>, c: char) -> int
    decreases s.len(),
{
    if s.len() == 0 || s[0] == c {
        0
    } else {
        1 + first_of(s.drop_first(), c)
    }
}

/// The last position of `c` in `s`; -1 where it does not stand there.
pub open spec fn last_of(s: Seq<char>, c: char) -> int
    decreases s.len(),
{
    if s.len() == 0 || s.last() == c {
        s.len() - 1
    } else {
        last_of(s.drop_last(), c)
    }
}

/// `first_of` is the one position with no `c` before it that holds `c` or is the end.
pub proof fn lemma_first_of(s: Seq<char>, c: char, n: int)
    requires
        0 <= n <= s.len(),
        forall|j: int| 0 <= j < n ==> #[trigger] s[j] != c,
        n < s.len() ==> s[n] == c,
    ensures
        first_of(s, c) == n,
    decreases n,
{
    if n > 0 {
        assert(s[0] != c);
        lemma_first_of(s.drop_first(), c, n - 1);
    }
}

/// What `first_of` finds.
pub proof fn lemma_first_of_is(s: Seq<char>, c: char)
    ensures
        0 <= first_of(s, c) <= s.len(),
        forall|j: int| 0 <= j < first_of(s, c) ==> #[trigger] s[j] != c,
        first_of(s, c) < s.len() ==> s[first_of(s, c)] == c,
    decreases s.len(),
{
    if s.len() > 0 && s[0] != c {
        lemma_first_of_is(s.drop_first(), c);
        assert forall|j: int| 0 <= j < first_of(s, c) implies #[trigger] s[j] != c by {
            if j > 0 {
                assert(s.drop_first()[j - 1] == s[j]);
            }
        }
    }
}

/// `last_of` is the one position with no `c` behind it that holds `c` or is -1.
pub proof fn lemma_last_of(s: Seq<char>, c: char, n: int)
    requires
        -1 <= n < s.len(),
        forall|j: int| n < j < s.len() ==> #[trigger] s[j] != c,
        n >= 0 ==> s[n] == c,
    ensures
        last_of(s, c) == n,
    decreases s.len() - n,
{
    if n < s.len() - 1 {
        assert(s.last() != c);
        lemma_last_of(s.drop_last(), c, n);
    }
}

/// What `last_of` finds.
pub proof fn lemma_last_of_is(s: Seq<char>, c: char)
    ensures
        -1 <= last_of(s, c) < s.len(),
        last_of(s, c) >= 0 ==> s[last_of(s, c)] == c,
    decreases s.len(),
{
    if s.len() > 0 && s.last() != c {
        lemma_last_of_is(s.drop_last(), c);
    }
}

/// The first position of `c`, or the length.
pub fn find_char(chars: &Vec<char>, c: char) -> (r: usize)
    ensures
        r == first_of(chars@, c),
        r <= chars@.len(),
        forall|j: int| 0 <= j < r ==> #[trigger] chars@[j] != c,
        r < chars@.len() ==> chars@[r as int] == c,
{
    let mut i: usize = 0;
    while i < chars.len() && chars[i] != c
        invariant
            i <= chars@.len(),
            forall|j: int| 0 <= j < i ==> #[trigger] chars@[j] != c,
        decreases chars.len() - i,
    {
        i += 1;
    }
    proof {
        lemma_first_of(chars@, c, i as int);
    }
    i
}

/// The position of the last `c`, if there is one.
pub fn rfind_char(chars: &Vec<char>, c: char) -> (r: Option<usize>)
    ensures
        match r {
            Some(i) => i == last_of(chars@, c) && i < chars@.len(),
            None => last_of(chars@, c) == -1,
        },
{
    let mut i: usize = chars.len();
    while i > 0 && chars[i - 1] != c
        invariant
            i <= chars@.len(),
            forall|j: int| i <= j < chars@.len() ==> #[trigger] chars@[j] != c,
        decreases i,
    {
        i -= 1;
    }
    proof {
        lemma_last_of(chars@, c, i - 1);
    }
    if i > 0 {
        Some(i - 1)
    } else {
        None
    }
}

/// Whether `sub` stands in `chars` at `at`.
#[verifier::loop_isolation(false)]
fn stands_at(chars: &Vec<char>, sub: &Vec<char>, at: usize) -> (r: bool)
    requires
        at + sub@.len() <= chars@.len(),
    ensures
        r == occurs_at(chars@, sub@, at as int),
{
    let total: usize = chars.len();
    let mut j: usize = 0;
    while j < sub.len()
        invariant
            j <= sub@.len(),
            forall|k: int| 0 <= k < j ==> #[trigger] sub@[k] == chars@[at + k],
        decreases sub.len() - j,
    {
        if chars[at + j] != sub[j] {
            assert(chars@.subrange(at as int, at + sub@.len())[j as int] != sub@[j as int]);
            return false;
        }
        j += 1;
    }
    assert(chars@.subrange(at as int, at + sub@.len()) =~= sub@);
    true
}

/// Whether `sub` stands somewhere in `s`.
#[verifier::loop_isolation(false)]
pub fn contains(s: &str, sub: &str) -> (r: bool)
    ensures
        r == has(s@, sub@),
{
    let chars = chars_of(s);
    let needle = chars_of(sub);
    if needle.len() > chars.len() {
        return false;
    }
    let last: usize = chars.len() - needle.len();
    let mut i: usize = 0;
    while i <= last
        invariant
            i <= last + 1,
            forall|j: int| 0 <= j < i ==> !#[trigger] occurs_at(chars@, needle@, j),
        decreases last + 1 - i,
    {
        if stands_at(&chars, &needle, i) {
            return true;
        }
        if i == last {
            return false;
        }
        i += 1;
    }
    false
}

/// Whether `s` begins with `prefix`.
pub open spec fn begins(s: Seq<char>, prefix: Seq<char>) -> bool {
    occurs_at(s, prefix, 0)
}

/// What follows `prefix` in `s`, where `s` begins with it.
pub fn after_prefix(s: &str, prefix: &str) -> (r: Option<String>)
    ensures
        match r {
            Some(rest) => begins(s@, prefix@) && rest@ == s@.skip(prefix@.len() as int),
            None => !begins(s@, prefix@),
        },
{
    let chars = chars_of(s);
    let needle = chars_of(prefix);
    if needle.len() <= chars.len() && stands_at(&chars, &needle, 0) {
        let rest = text_of(&chars, needle.len(), chars.len());
        assert(chars@.subrange(needle@.len() as int, chars@.len() as int) == s@.skip(
            prefix@.len() as int,
        ));
        Some(rest)
    } else {
        None
    }
}

// ─── splitting ───

/// The pieces of `s` between the occurrences of `c`.
pub open spec fn pieces(s: Seq<char>, c: char) -> Seq<Seq<char>>
    decreases s.len(),
    via pieces_terminates
{
    let i = first_of(s, c);
    if i >= s.len() {
        seq![s]
    } else {
        seq![s.take(i)] + pieces(s.skip(i + 1), c)
    }
}

#[via_fn]
proof fn pieces_terminates(s: Seq<char>, c: char) {
    lemma_first_of_is(s, c);
}

/// The pieces of `s` between the occurrences of `c`.
#[verifier::loop_isolation(false)]
pub fn split(s: &str, c: char) -> (r: Vec<String>)
    ensures
        views(r@) == pieces(s@, c),
        r@.len() > 0,
{
    let chars = chars_of(s);
    let mut out: Vec<String> = Vec::new();
    let mut from: usize = 0;
    assert(chars@.skip(0) == chars@);
    assert(views(out@) + pieces(chars@, c) == pieces(chars@, c));
    loop
        invariant
            from <= chars@.len(),
            views(out@) + pieces(chars@.skip(from as int), c) == pieces(chars@, c),
        decreases chars.len() - from,
    {
        let mut to: usize = from;
        while to < chars.len() && chars[to] != c
            invariant
                from <= to <= chars@.len(),
                forall|j: int| from <= j < to ==> #[trigger] chars@[j] != c,
            decreases chars.len() - to,
        {
            to += 1;
        }
        let ghost rest = chars@.skip(from as int);
        proof {
            assert forall|j: int| 0 <= j < to - from implies #[trigger] rest[j] != c by {
                assert(rest[j] == chars@[from + j]);
            }
            lemma_first_of(rest, c, to - from);
            assert(rest.take(to - from) == chars@.subrange(from as int, to as int));
        }
        let ghost before = views(out@);
        let piece = text_of(&chars, from, to);
        out.push(piece);
        assert(views(out@) == before.push(piece@));
        if to == chars.len() {
            assert(rest.take(to - from) == rest);
            assert(views(out@) == before + seq![rest]);
            return out;
        }
        proof {
            assert(rest.skip(to - from + 1) == chars@.skip(to + 1));
            let tail = pieces(chars@.skip(to + 1), c);
            assert(pieces(rest, c) == seq![rest.take(to - from)] + tail);
            assert(before + (seq![piece@] + tail) == before.push(piece@) + tail);
        }
        from = to + 1;
    }
}

// ─── numbers ───

/// The decimal digits of `n`, without leading zeros.
pub open spec fn dec(n: nat) -> Seq<char>
    decreases n,
{
    if n < 10 {
        seq![digit_char(n)]
    } else {
        dec(n / 10).push(digit_char(n % 10))
    }
}

/// The decimal digits of `n`, with a minus sign before those of a negative number.
pub open spec fn dec_int(n: int) -> Seq<char> {
    if n < 0 {
        seq!['-'] + dec((-n) as nat)
    } else {
        dec(n as nat)
    }
}

/// `n` with at least two digits.
pub open spec fn dec2(n: nat) -> Seq<char> {
    if n < 10 {
        seq!['0'] + dec(n)
    } else {
        dec(n)
    }
}

/// Every character is a decimal digit, and there is one.
pub open spec fn all_digits(s: Seq<char>) -> bool {
    s.len() > 0 && forall|i: int| 0 <= i < s.len() ==> is_digit(#[trigger] s[i])
}

/// The number that the digits `s` stand for.
pub open spec fn value(s: Seq<char>) -> nat
    decreases s.len(),
{
    if s.len() == 0 {
        0
    } else {
        (value(s.drop_last()) * 10 + (s.last() as int - 48)) as nat
    }
}

/// `s` read as a whole number of at most `max`: digits, after at most one plus sign.
pub open spec fn read_nat(s: Seq<char>, max: nat) -> Option<nat> {
    let digits = if s.len() > 0 && s[0] == '+' {
        s.skip(1)
    } else {
        s
    };
    if all_digits(digits) && value(digits) <= max {
        Some(value(digits))
    } else {
        None
    }
}

/// `s` read as a whole number that fits in 64 bits with a sign.
pub open spec fn read_int(s: Seq<char>) -> Option<int> {
    if s.len() > 0 && s[0] == '-' {
        let digits = s.skip(1);
        if all_digits(digits) && value(digits) <= 0x8000_0000_0000_0000 {
            Some(-value(digits))
        } else {
            None
        }
    } else {
        match read_nat(s, 0x7fff_ffff_ffff_ffff) {
            Some(n) => Some(n as int),
            None => None,
        }
    }
}

proof fn lemma_value_monotone(s: Seq<char>, n: int)
    requires
        0 <= n <= s.len(),
        forall|i: int| 0 <= i < s.len() ==> is_digit(#[trigger] s[i]),
    ensures
        value(s.take(n)) <= value(s),
    decreases s.len() - n,
{
    if n < s.len() {
        lemma_value_monotone(s, n + 1);
        assert(s.take(n + 1).drop_last() == s.take(n));
        assert(is_digit(s[n]));
    } else {
        assert(s.take(n) == s);
    }
}

/// Reading the digits of `n` gives back `n`.
pub proof fn lemma_value_of_dec(n: nat)
    ensures
        all_digits(dec(n)),
        value(dec(n)) == n,
        dec(n).len() >= 1,
    decreases n,
{
    if n < 10 {
        assert(dec(n).drop_last() == Seq::<char>::empty());
        assert(value(dec(n).drop_last()) == 0);
    } else {
        lemma_value_of_dec(n / 10);
        assert(dec(n).drop_last() == dec(n / 10));
        assert forall|i: int| 0 <= i < dec(n).len() implies is_digit(#[trigger] dec(n)[i]) by {
            if i < dec(n).len() - 1 {
                assert(dec(n)[i] == dec(n / 10)[i]);
            }
        }
    }
}

/// Writing a number and reading it back gives the number, wherever it is not too large.
pub proof fn lemma_read_of_dec(n: nat, max: nat)
    requires
        n <= max,
    ensures
        read_nat(dec(n), max) == Some(n),
{
    lemma_value_of_dec(n);
    assert(is_digit(dec(n)[0]));
}

/// A number below `10^k` has at most `k` digits.
pub proof fn lemma_dec_len(n: nat, k: nat)
    requires
        k >= 1,
        n < vstd::arithmetic::power::pow(10, k),
    ensures
        dec(n).len() <= k,
    decreases k,
{
    vstd::arithmetic::power::lemma_pow1(10);
    if n >= 10 {
        if k == 1 {
            assert(n < 10);
        } else {
            vstd::arithmetic::power::lemma_pow_adds(10, 1, (k - 1) as nat);
            assert(n / 10 < vstd::arithmetic::power::pow(10, (k - 1) as nat));
            lemma_dec_len(n / 10, (k - 1) as nat);
        }
    }
}

/// The digits `chars[from..]` as a number, where they are digits and it is at most `max`.
#[verifier::loop_isolation(false)]
fn digits_value(chars: &Vec<char>, from: usize, max: u64) -> (r: Option<u64>)
    requires
        from <= chars@.len(),
    ensures
        match r {
            Some(n) => all_digits(chars@.skip(from as int)) && n == value(chars@.skip(from as int))
                && n <= max,
            None => !all_digits(chars@.skip(from as int)) || value(chars@.skip(from as int)) > max,
        },
{
    let ghost digits = chars@.skip(from as int);
    if from == chars.len() {
        return None;
    }
    // Digits are looked at before the value may leave the range, so that a number that is too
    // large and a text that is no number are told from each other only by the result.
    let mut k: usize = from;
    while k < chars.len()
        invariant
            from <= k <= chars@.len(),
            forall|j: int| 0 <= j < k - from ==> is_digit(#[trigger] digits[j]),
        decreases chars.len() - k,
    {
        if !digit(chars[k]) {
            assert(!is_digit(digits[k - from]));
            return None;
        }
        k += 1;
    }
    let mut n: u64 = 0;
    let mut i: usize = from;
    assert(digits.take(0) == Seq::<char>::empty());
    while i < chars.len()
        invariant
            from <= i <= chars@.len(),
            n == value(digits.take(i - from)),
            n <= max,
        decreases chars.len() - i,
    {
        assert(is_digit(digits[i - from]));
        let d: u64 = (chars[i] as u32 - 48) as u64;
        proof {
            assert(digits.take(i - from + 1).drop_last() == digits.take(i - from));
            assert(value(digits.take(i - from + 1)) == n * 10 + d);
            lemma_value_monotone(digits, i - from + 1);
        }
        if n > max / 10 || d > max - n * 10 {
            return None;
        }
        n = n * 10 + d;
        i += 1;
    }
    assert(digits.take(digits.len() as int) == digits);
    Some(n)
}

/// `s` as a whole number of at most `max`.
pub fn parse_nat(s: &str, max: u64) -> (r: Option<u64>)
    ensures
        match r {
            Some(n) => read_nat(s@, max as nat) == Some(n as nat),
            None => read_nat(s@, max as nat) is None,
        },
{
    let chars = chars_of(s);
    if chars.len() > 0 && chars[0] == '+' {
        digits_value(&chars, 1, max)
    } else {
        assert(chars@.skip(0) == chars@);
        digits_value(&chars, 0, max)
    }
}

/// `s` as a whole number that fits in 32 bits.
pub fn parse_u32(s: &str) -> (r: Option<u32>)
    ensures
        match r {
            Some(n) => read_nat(s@, u32::MAX as nat) == Some(n as nat),
            None => read_nat(s@, u32::MAX as nat) is None,
        },
{
    match parse_nat(s, u32::MAX as u64) {
        Some(n) => Some(n as u32),
        None => None,
    }
}

/// `s` as a whole number with an optional sign.
pub fn parse_i64(s: &str) -> (r: Option<i64>)
    ensures
        match r {
            Some(n) => read_int(s@) == Some(n as int),
            None => read_int(s@) is None,
        },
{
    let chars = chars_of(s);
    if chars.len() > 0 && chars[0] == '-' {
        match digits_value(&chars, 1, 0x8000_0000_0000_0000) {
            Some(n) => if n == 0x8000_0000_0000_0000 {
                Some(i64::MIN)
            } else {
                Some(-(n as i64))
            },
            None => None,
        }
    } else {
        match parse_nat(s, 0x7fff_ffff_ffff_ffff) {
            Some(n) => Some(n as i64),
            None => None,
        }
    }
}

/// Adds the decimal digits of `n` to `out`.
pub fn push_dec(out: &mut String, n: u64)
    ensures
        final(out)@ == old(out)@ + dec(n as nat),
    decreases n,
{
    if n >= 10 {
        push_dec(out, n / 10);
    }
    let d: u8 = 48 + (n % 10) as u8;
    out.push(d as char);
    proof {
        if n >= 10 {
            assert(old(out)@ + dec(n as nat / 10).push(digit_char(n as nat % 10)) == (old(out)@
                + dec(n as nat / 10)).push(digit_char(n as nat % 10)));
        }
    }
}

/// Adds `n` to `out`, with a minus sign where it is negative.
pub fn push_int(out: &mut String, n: i64)
    ensures
        final(out)@ == old(out)@ + dec_int(n as int),
{
    if n < 0 {
        out.push('-');
        let magnitude: u64 = if n == i64::MIN {
            0x8000_0000_0000_0000
        } else {
            (-n) as u64
        };
        push_dec(out, magnitude);
        assert(old(out)@.push('-') + dec((-n) as nat) == old(out)@ + (seq!['-'] + dec((-n) as nat)));
    } else {
        push_dec(out, n as u64);
    }
}

/// Adds `n` to `out` with at least two digits.
pub fn push_dec2(out: &mut String, n: u64)
    ensures
        final(out)@ == old(out)@ + dec2(n as nat),
{
    if n < 10 {
        out.push('0');
        push_dec(out, n);
        assert(old(out)@.push('0') + dec(n as nat) == old(out)@ + (seq!['0'] + dec(n as nat)));
    } else {
        push_dec(out, n);
    }
}

/// The decimal digits of `n`.
pub fn decimal(n: u64) -> (r: String)
    ensures
        r@ == dec(n as nat),
{
    let mut r = String::new();
    push_dec(&mut r, n);
    assert(Seq::<char>::empty() + dec(n as nat) == dec(n as nat));
    r
}

/// `n` with at least two digits.
pub fn decimal2(n: u64) -> (r: String)
    ensures
        r@ == dec2(n as nat),
{
    let mut r = String::new();
    push_dec2(&mut r, n);
    assert(Seq::<char>::empty() + dec2(n as nat) == dec2(n as nat));
    r
}

/// `n` with a minus sign where it is negative.
pub fn decimal_int(n: i64) -> (r: String)
    ensures
        r@ == dec_int(n as int),
{
    let mut r = String::new();
    push_int(&mut r, n);
    assert(Seq::<char>::empty() + dec_int(n as int) == dec_int(n as int));
    r
}

// ─── putting together ───

/// The parts of `list` with `sep` between them.
pub open spec fn joined(list: Seq<Seq<char>>, sep: Seq<char>) -> Seq<char>
    decreases list.len(),
{
    if list.len() == 0 {
        Seq::empty()
    } else if list.len() == 1 {
        list[0]
    } else {
        joined(list.drop_last(), sep) + sep + list.last()
    }
}

/// The strings of `list` with `sep` between them.
#[verifier::loop_isolation(false)]
pub fn join(list: &Vec<String>, sep: &str) -> (r: String)
    ensures
        r@ == joined(views(list@), sep@),
{
    let mut r = String::new();
    let mut i: usize = 0;
    let ghost all = views(list@);
    assert(all.take(0) == Seq::<Seq<char>>::empty());
    while i < list.len()
        invariant
            i <= list@.len(),
            r@ == joined(all.take(i as int), sep@),
        decreases list.len() - i,
    {
        if i > 0 {
            r.append(sep);
        }
        r.append(list[i].as_str());
        proof {
            let next = all.take(i + 1);
            assert(next.drop_last() == all.take(i as int));
            assert(next.last() == list@[i as int]@);
            if i == 0 {
                assert(Seq::<char>::empty() + list@[0]@ == list@[0]@);
            }
        }
        i += 1;
    }
    assert(all.take(list@.len() as int) == all);
    r
}

/// `s` cut to `max` characters: at most `max` as it stands, otherwise one fewer and an ellipsis.
pub open spec fn shortened(s: Seq<char>, max: nat) -> Seq<char> {
    if s.len() <= max {
        s
    } else {
        s.take(if max == 0 {
            0
        } else {
            max - 1
        }).push('…')
    }
}

/// `s` in lower case by `str::to_lowercase`.
pub uninterp spec fn lowercased(s: Seq<char>) -> Seq<char>;

/// An ASCII letter in lower case; anything else as it is.
pub open spec fn ascii_lower(c: char) -> char {
    if 'A' <= c <= 'Z' {
        (c as u32 + 32) as char
    } else {
        c
    }
}

/// `str::to_lowercase`: the lower case of a text by the tables of Unicode, given the name
/// `lowercased`. Of a text that is all ASCII it changes the capital letters and nothing else.
#[verifier::external_body]
pub(crate) fn lowercase(s: &str) -> (r: String)
    ensures
        r@ == lowercased(s@),
        (forall|i: int| 0 <= i < s@.len() ==> (#[trigger] s@[i]) < '\u{80}') ==> r@ == s@.map_values(
            |c: char| ascii_lower(c),
        ),
{
    s.to_lowercase()
}

/// `s` cut to `max` characters: at most `max` as it stands, otherwise one fewer and an ellipsis.
pub fn shorten(s: &str, max: usize) -> (r: String)
    ensures
        r@ == shortened(s@, max as nat),
{
    let chars = chars_of(s);
    if chars.len() <= max {
        return copy(s);
    }
    let to: usize = if max == 0 {
        0
    } else {
        max - 1
    };
    let mut r = text_of(&chars, 0, to);
    r.push('…');
    assert(chars@.subrange(0, to as int) =~= chars@.take(to as int));
    r
}

// ─── what stands in a text ───

/// A text stands in itself.
pub broadcast proof fn lemma_has_itself(s: Seq<char>)
    ensures
        #[trigger] has(s, s),
{
    assert(s.subrange(0, s.len() as int) =~= s);
    assert(occurs_at(s, s, 0));
}

/// What stands in the first part of a text stands in the text.
pub broadcast proof fn lemma_has_before(s: Seq<char>, t: Seq<char>, sub: Seq<char>)
    requires
        has(s, sub),
    ensures
        #[trigger] has(s + t, sub),
{
    let i = choose|i: int| occurs_at(s, sub, i);
    assert((s + t).subrange(i, i + sub.len()) =~= s.subrange(i, i + sub.len()));
    assert(occurs_at(s + t, sub, i));
}

/// What stands in the second part of a text stands in the text.
pub broadcast proof fn lemma_has_behind(s: Seq<char>, t: Seq<char>, sub: Seq<char>)
    requires
        has(t, sub),
    ensures
        #[trigger] has(s + t, sub),
{
    let i = choose|i: int| occurs_at(t, sub, i);
    assert((s + t).subrange(s.len() + i, s.len() + i + sub.len()) =~= t.subrange(i, i + sub.len()));
    assert(occurs_at(s + t, sub, s.len() + i));
}

/// What stands in a text that is put together.
pub broadcast group group_has {
    lemma_has_itself,
    lemma_has_before,
    lemma_has_behind,
}

/// Each text of a list stands in the list that is written with something between.
pub proof fn lemma_joined_has(list: Seq<Seq<char>>, sep: Seq<char>, i: int)
    requires
        0 <= i < list.len(),
    ensures
        has(joined(list, sep), list[i]),
    decreases list.len(),
{
    broadcast use group_has;

    if list.len() > 1 && i < list.len() - 1 {
        lemma_joined_has(list.drop_last(), sep, i);
        assert(list.drop_last()[i] == list[i]);
        assert(has(joined(list.drop_last(), sep) + sep + list.last(), list[i]));
    }
}

/// A list that is written with something between begins with its first text.
pub proof fn lemma_joined_begins(list: Seq<Seq<char>>, sep: Seq<char>)
    requires
        list.len() > 0,
    ensures
        begins(joined(list, sep), list[0]),
    decreases list.len(),
{
    let all = joined(list, sep);
    if list.len() == 1 {
        assert(all.subrange(0, list[0].len() as int) =~= list[0]);
    } else {
        lemma_joined_begins(list.drop_last(), sep);
        let front = joined(list.drop_last(), sep);
        assert(list.drop_last()[0] == list[0]);
        assert(all.subrange(0, list[0].len() as int) =~= front.subrange(0, list[0].len() as int));
    }
}

/// What stands in a part of a text stands in the text.
pub proof fn lemma_has_through(s: Seq<char>, mid: Seq<char>, sub: Seq<char>)
    requires
        has(s, mid),
        has(mid, sub),
    ensures
        has(s, sub),
{
    let i = choose|i: int| occurs_at(s, mid, i);
    let j = choose|j: int| occurs_at(mid, sub, j);
    assert(s.subrange(i + j, i + j + sub.len()) =~= s.subrange(i, i + mid.len()).subrange(j, j + sub.len()));
    assert(occurs_at(s, sub, i + j));
}

/// A text that is cut has at most so many characters and begins as it did; one that fits stays.
pub proof fn law_shortened_fits(s: Seq<char>, max: nat)
    requires
        max > 0,
    ensures
        shortened(s, max).len() <= max,
        s.len() <= max ==> shortened(s, max) == s,
        s.len() > max ==> shortened(s, max).last() == '…' && shortened(s, max).drop_last() == s.take(max - 1),
{
    if s.len() > max {
        assert(shortened(s, max).drop_last() =~= s.take(max - 1));
    }
}

/// Numbers below a hundred are written with two digits where two are asked for.
pub proof fn law_two_digits(n: nat)
    requires
        n < 100,
    ensures
        dec2(n).len() == 2,
        all_digits(dec2(n)),
        value(dec2(n)) == n,
{
    reveal_with_fuel(dec, 3);
    reveal_with_fuel(value, 4);
    lemma_value_of_dec(n);
    let s = dec2(n);
    assert(s.drop_last().drop_last() =~= Seq::<char>::empty());
    if n < 10 {
        assert(s =~= seq!['0', digit_char(n)]);
        assert(s.drop_last() =~= seq!['0']);
        assert(value(s.drop_last()) == 0);
    }
}

/// What stands between two parts of a text stands in it.
pub proof fn lemma_has_middle(before: Seq<char>, told: Seq<char>, after: Seq<char>)
    ensures
        has(before + told + after, told),
{
    lemma_has_itself(told);
    lemma_has_behind(before, told, told);
    lemma_has_before(before + told, after, told);
}

} // verus!
