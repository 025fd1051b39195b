//! Reading files that set environment variables.
//!
//! A line that begins with `#` is a comment, a leading `export` is passed over, and a value may stand in
//! single or double quotes. What the environment already holds is never replaced.
use crate::text::{
    after_prefix, begins, chars_of, copy, find_char, first_of, is_space, pieces, same, space, split, text_of, trim, trim_end, trim_start, trimmed, trimmed_end,
    trimmed_start, views,
};
use vstd::prelude::*;

verus! {

/// A name and a value.
pub open spec fn pair_views(list: Seq<(String, String)>) -> Seq<(Seq<char>, Seq<char>)> {
    list.map_values(|p: (String, String)| (p.0@, p.1@))
}

/// A letter, a digit or an underscore.
pub open spec fn is_key_char(c: char) -> bool {
    ('a' <= c && c <= 'z') || ('A' <= c && c <= 'Z') || ('0' <= c && c <= '9') || c == '_'
}

/// A name: at least one letter, digit or underscore, and nothing else.
pub open spec fn is_key(s: Seq<char>) -> bool {
    s.len() > 0 && forall|i: int| 0 <= i < s.len() ==> is_key_char(#[trigger] s[i])
}

fn valid_key(s: &str) -> (r: bool)
    ensures
        r == is_key(s@),
{
    let chars = chars_of(s);
    if chars.len() == 0 {
        return false;
    }
    let mut i: usize = 0;
    while i < chars.len()
        invariant
            i <= chars@.len(),
            chars@ == s@,
            forall|j: int| 0 <= j < i ==> is_key_char(#[trigger] s@[j]),
        decreases chars.len() - i,
    {
        let c = chars[i];
        if !(('a' <= c && c <= 'z') || ('A' <= c && c <= 'Z') || ('0' <= c && c <= '9') || c == '_') {
            assert(!is_key_char(s@[i as int]));
            return false;
        }
        i += 1;
    }
    true
}

/// What a backslash and the character behind it stand for.
pub open spec fn meant(c: char) -> char {
    if c == 'n' {
        '\n'
    } else if c == 't' {
        '\t'
    } else if c == 'r' {
        '\r'
    } else {
        c
    }
}

/// A text with its escapes resolved; a backslash at the end stands for itself.
pub open spec fn unescaped(s: Seq<char>) -> Seq<char>
    decreases s.len(),
{
    if s.len() == 0 {
        Seq::empty()
    } else if s[0] != '\\' {
        seq![s[0]] + unescaped(s.skip(1))
    } else if s.len() == 1 {
        seq!['\\']
    } else {
        seq![meant(s[1])] + unescaped(s.skip(2))
    }
}

fn unescape(chars: &Vec<char>) -> (r: String)
    ensures
        r@ == unescaped(chars@),
{
    let ghost all = chars@;
    let mut r = String::new();
    let mut i: usize = 0;
    assert(all.skip(0) =~= all);
    assert(r@ + unescaped(all) =~= unescaped(all));
    while i < chars.len()
        invariant
            i <= chars@.len(),
            all == chars@,
            r@ + unescaped(all.skip(i as int)) == unescaped(all),
        decreases chars.len() - i,
    {
        let ghost before = r@;
        let ghost rest = all.skip(i as int);
        let c = chars[i];
        if c != '\\' {
            r.push(c);
            assert(rest.skip(1) =~= all.skip(i + 1));
            assert(r@ + unescaped(all.skip(i + 1)) =~= before + unescaped(rest));
            i += 1;
        } else if chars.len() - i == 1 {
            r.push('\\');
            assert(r@ =~= before + unescaped(rest));
            return r;
        } else {
            let next = chars[i + 1];
            let m = if next == 'n' {
                '\n'
            } else if next == 't' {
                '\t'
            } else if next == 'r' {
                '\r'
            } else {
                next
            };
            r.push(m);
            assert(rest.skip(2) =~= all.skip(i + 2));
            assert(r@ + unescaped(all.skip(i + 2)) =~= before + unescaped(rest));
            i += 2;
        }
    }
    assert(unescaped(all.skip(i as int)) =~= Seq::<char>::empty());
    assert(r@ =~= unescaped(all));
    r
}

/// Where a comment begins behind a value: at the first white space that a `#` follows; at the end where
/// there is none.
pub open spec fn comment_at(s: Seq<char>) -> int
    decreases s.len(),
{
    if s.len() < 2 {
        s.len() as int
    } else if is_space(s[0]) && s[1] == '#' {
        0
    } else {
        1 + comment_at(s.skip(1))
    }
}

fn find_comment(chars: &Vec<char>) -> (r: usize)
    ensures
        r == comment_at(chars@),
        r <= chars@.len(),
{
    let ghost all = chars@;
    let n: usize = chars.len();
    let mut i: usize = 0;
    assert(all.skip(0) =~= all);
    while n - i >= 2
        invariant
            i <= n,
            n == chars@.len(),
            all == chars@,
            comment_at(all) == i + comment_at(all.skip(i as int)),
        decreases n - i,
    {
        if space(chars[i]) && chars[i + 1] == '#' {
            return i;
        }
        assert(all.skip(i as int).skip(1) =~= all.skip(i + 1));
        i += 1;
    }
    n
}

/// `s` stands between two of `quote`.
pub open spec fn quoted(s: Seq<char>, quote: char) -> bool {
    s.len() >= 2 && s[0] == quote && s.last() == quote
}

/// A value as it is meant: what stands between quotes, with its escapes resolved between double ones;
/// without quotes what stands before a comment.
pub open spec fn unquoted(raw: Seq<char>) -> Seq<char> {
    if quoted(raw, '"') {
        unescaped(raw.subrange(1, raw.len() - 1))
    } else if quoted(raw, '\'') {
        raw.subrange(1, raw.len() - 1)
    } else if comment_at(raw) < raw.len() {
        trim_end(raw.take(comment_at(raw)))
    } else {
        raw
    }
}

fn unquote(raw: &str) -> (r: String)
    ensures
        r@ == unquoted(raw@),
{
    let chars = chars_of(raw);
    let n: usize = chars.len();
    if n >= 2 && chars[0] == '"' && chars[n - 1] == '"' {
        let inner = text_of(&chars, 1, n - 1);
        assert(inner@ =~= raw@.subrange(1, raw@.len() - 1));
        return unescape(&chars_of(inner.as_str()));
    }
    if n >= 2 && chars[0] == '\'' && chars[n - 1] == '\'' {
        let inner = text_of(&chars, 1, n - 1);
        assert(inner@ =~= raw@.subrange(1, raw@.len() - 1));
        return inner;
    }
    let at: usize = find_comment(&chars);
    if at < n {
        let value = text_of(&chars, 0, at);
        assert(value@ =~= raw@.take(at as int));
        trimmed_end(value.as_str())
    } else {
        copy(raw)
    }
}

/// `s` without the byte order marks that it begins with.
pub open spec fn without_marks(s: Seq<char>) -> Seq<char>
    decreases s.len(),
{
    if s.len() > 0 && s[0] == '\u{feff}' {
        without_marks(s.skip(1))
    } else {
        s
    }
}

fn strip_marks(line: &str) -> (r: String)
    ensures
        r@ == without_marks(line@),
{
    let chars = chars_of(line);
    let ghost all = chars@;
    let n: usize = chars.len();
    let mut i: usize = 0;
    assert(all.skip(0) =~= all);
    while i < n && chars[i] == '\u{feff}'
        invariant
            i <= n,
            n == chars@.len(),
            all == chars@,
            without_marks(all) == without_marks(all.skip(i as int)),
        decreases n - i,
    {
        assert(all.skip(i as int).skip(1) =~= all.skip(i + 1));
        i += 1;
    }
    let r = text_of(&chars, i, n);
    assert(r@ =~= all.skip(i as int));
    r
}

/// The name and the value that a line sets, if it sets one.
pub open spec fn entry_of(line: Seq<char>) -> Option<(Seq<char>, Seq<char>)> {
    let line = trim(without_marks(line));
    let set = trim_start(
        if begins(line, "export "@) {
            line.skip(7)
        } else {
            line
        },
    );
    let at = first_of(set, '=');
    if line.len() == 0 || line[0] == '#' || at >= set.len() || !is_key(trim(set.take(at))) {
        None
    } else {
        Some((trim(set.take(at)), unquoted(trim(set.skip(at + 1)))))
    }
}

fn parse_line(raw: &str) -> (r: Option<(String, String)>)
    ensures
        match (r, entry_of(raw@)) {
            (Some((a, b)), Some((x, y))) => a@ == x && b@ == y,
            (None, None) => true,
            _ => false,
        },
{
    let line = trimmed(strip_marks(raw).as_str());
    let chars = chars_of(line.as_str());
    if chars.len() == 0 || chars[0] == '#' {
        return None;
    }
    proof {
        reveal_strlit("export ");
    }
    let rest = match after_prefix(line.as_str(), "export ") {
        Some(rest) => rest,
        None => line,
    };
    let set = trimmed_start(rest.as_str());
    let chars = chars_of(set.as_str());
    let n: usize = chars.len();
    let at: usize = find_char(&chars, '=');
    if at >= n {
        return None;
    }
    let before = text_of(&chars, 0, at);
    let behind = text_of(&chars, at + 1, n);
    assert(before@ =~= set@.take(at as int));
    assert(behind@ =~= set@.skip(at + 1));
    let key = trimmed(before.as_str());
    if !valid_key(key.as_str()) {
        return None;
    }
    let value = trimmed(behind.as_str());
    Some((key, unquote(value.as_str())))
}

/// What the lines set, in their order.
pub open spec fn entries_of(lines: Seq<Seq<char>>) -> Seq<(Seq<char>, Seq<char>)>
    decreases lines.len(),
{
    if lines.len() == 0 {
        Seq::empty()
    } else {
        match entry_of(lines.last()) {
            Some(entry) => entries_of(lines.drop_last()).push(entry),
            None => entries_of(lines.drop_last()),
        }
    }
}

/// The names and values that a file sets, in its order.
pub fn parse(content: &str) -> (r: Vec<(String, String)>)
    ensures
        pair_views(r@) == entries_of(pieces(content@, '\n')),
{
    let lines = split(content, '\n');
    let ghost all = views(lines@);
    let mut r: Vec<(String, String)> = Vec::new();
    let mut i: usize = 0;
    assert(all.take(0) =~= Seq::<Seq<char>>::empty());
    assert(pair_views(r@) =~= Seq::<(Seq<char>, Seq<char>)>::empty());
    while i < lines.len()
        invariant
            i <= lines@.len(),
            all == views(lines@),
            pair_views(r@) == entries_of(all.take(i as int)),
        decreases lines.len() - i,
    {
        assert(all[i as int] == lines@[i as int]@);
        assert(all.take(i + 1).drop_last() =~= all.take(i as int));
        assert(all.take(i + 1).last() == all[i as int]);
        match parse_line(lines[i].as_str()) {
            Some(entry) => {
                let ghost had = pair_views(r@);
                r.push(entry);
                assert(pair_views(r@) =~= had.push((entry.0@, entry.1@)));
            },
            None => {},
        }
        i += 1;
    }
    assert(all.take(i as int) =~= all);
    r
}

/// The list has that name.
pub open spec fn sets(list: Seq<(Seq<char>, Seq<char>)>, name: Seq<char>) -> bool {
    exists|i: int| 0 <= i < list.len() && (#[trigger] list[i]).0 == name
}

/// The names and values to be set, where the names `there` are set already: of two values for one name
/// the first.
pub open spec fn new_ones(list: Seq<(Seq<char>, Seq<char>)>, there: Seq<Seq<char>>) -> Seq<(Seq<char>, Seq<char>)>
    decreases list.len(),
{
    if list.len() == 0 {
        Seq::empty()
    } else {
        let before = new_ones(list.drop_last(), there);
        let (name, value) = list.last();
        if there.contains(name) || sets(before, name) {
            before
        } else {
            before.push((name, value))
        }
    }
}

fn listed(names: &Vec<String>, name: &str) -> (r: bool)
    ensures
        r == views(names@).contains(name@),
{
    let ghost all = views(names@);
    let mut i: usize = 0;
    while i < names.len()
        invariant
            i <= names@.len(),
            all == views(names@),
            forall|j: int| 0 <= j < i ==> #[trigger] all[j] != name@,
        decreases names.len() - i,
    {
        assert(all[i as int] == names@[i as int]@);
        if same(names[i].as_str(), name) {
            return true;
        }
        i += 1;
    }
    false
}

fn already_set(list: &Vec<(String, String)>, name: &str) -> (r: bool)
    ensures
        r == sets(pair_views(list@), name@),
{
    let ghost all = pair_views(list@);
    let mut i: usize = 0;
    while i < list.len()
        invariant
            i <= list@.len(),
            all == pair_views(list@),
            forall|j: int| 0 <= j < i ==> (#[trigger] all[j]).0 != name@,
        decreases list.len() - i,
    {
        assert(all[i as int] == (list@[i as int].0@, list@[i as int].1@));
        if same(list[i].0.as_str(), name) {
            assert(all[i as int].0 == name@);
            return true;
        }
        i += 1;
    }
    false
}

/// The names and values of a file that are to be set, where the names `there` are set already.
pub fn to_set(pairs: &Vec<(String, String)>, there: &Vec<String>) -> (r: Vec<(String, String)>)
    ensures
        pair_views(r@) == new_ones(pair_views(pairs@), views(there@)),
{
    let ghost all = pair_views(pairs@);
    let mut r: Vec<(String, String)> = Vec::new();
    let mut i: usize = 0;
    assert(all.take(0) =~= Seq::<(Seq<char>, Seq<char>)>::empty());
    assert(pair_views(r@) =~= Seq::<(Seq<char>, Seq<char>)>::empty());
    while i < pairs.len()
        invariant
            i <= pairs@.len(),
            all == pair_views(pairs@),
            pair_views(r@) == new_ones(all.take(i as int), views(there@)),
        decreases pairs.len() - i,
    {
        let name = pairs[i].0.as_str();
        assert(all[i as int] == (pairs@[i as int].0@, pairs@[i as int].1@));
        assert(all.take(i + 1).drop_last() =~= all.take(i as int));
        assert(all.take(i + 1).last() == all[i as int]);
        if !listed(there, name) && !already_set(&r, name) {
            let ghost had = pair_views(r@);
            r.push((pairs[i].0.clone(), pairs[i].1.clone()));
            assert(pair_views(r@) =~= had.push(all[i as int]));
        }
        i += 1;
    }
    assert(all.take(i as int) =~= all);
    r
}

/// What the environment holds is not replaced, and everything else that a file names is set.
pub proof fn law_environment_wins(list: Seq<(Seq<char>, Seq<char>)>, there: Seq<Seq<char>>, name: Seq<char>)
    ensures
        sets(new_ones(list, there), name) <==> sets(list, name) && !there.contains(name),
    decreases list.len(),
{
    if list.len() > 0 {
        let rest = list.drop_last();
        let before = new_ones(rest, there);
        let after = new_ones(list, there);
        law_environment_wins(rest, there, name);
        if sets(rest, name) {
            let i = choose|i: int| 0 <= i < rest.len() && (#[trigger] rest[i]).0 == name;
            assert(list[i].0 == name);
        }
        if sets(before, name) {
            let i = choose|i: int| 0 <= i < before.len() && (#[trigger] before[i]).0 == name;
            assert(after[i].0 == name);
        }
        if list.last().0 == name {
            assert(list[list.len() - 1].0 == name);
            if !there.contains(name) && !sets(before, name) {
                assert(after[after.len() - 1].0 == name);
            }
        }
        if sets(list, name) && list.last().0 != name {
            let i = choose|i: int| 0 <= i < list.len() && (#[trigger] list[i]).0 == name;
            assert(rest[i].0 == name);
        }
        if sets(after, name) {
            let i = choose|i: int| 0 <= i < after.len() && (#[trigger] after[i]).0 == name;
            if i < before.len() {
                assert(before[i].0 == name);
            }
        }
    }
}

/// A line of a name, a sign and a value sets that name to that value.
pub proof fn law_line_sets_its_name(key: Seq<char>, value: Seq<char>)
    requires
        is_key(key),
        trim(key) == key,
        value.len() > 0,
        trim(value) == value,
        trim(key + seq!['='] + value) == key + seq!['='] + value,
        value[0] != '"' && value[0] != '\'',
        comment_at(value) >= value.len(),
    ensures
        entry_of(key + seq!['='] + value) == Some((key, value)),
{
    let line = key + seq!['='] + value;
    let n = key.len() as int;
    assert(line[0] == key[0]);
    assert(is_key_char(key[0]));
    reveal_strlit("export ");
    assert(!begins(line, "export "@)) by {
        if begins(line, "export "@) {
            assert(line.subrange(0, 7)[6] == line[6]);
            assert("export "@[6] == ' ');
            assert(line.subrange(0, 7)[0] == line[0]);
            if n > 6 {
                assert(line[6] == key[6]);
                assert(is_key_char(key[6]));
            } else {
                assert(line.subrange(0, 7)[n] == line[n]);
                assert(line[n] == '=');
                assert("export "@[n] != '=');
            }
        }
    }
    assert forall|j: int| 0 <= j < n implies #[trigger] line[j] != '=' by {
        assert(line[j] == key[j]);
        assert(is_key_char(key[j]));
    }
    assert(line[n] == '=');
    crate::text::lemma_first_of(line, '=', n);
    assert(line.take(n) =~= key);
    assert(line.skip(n + 1) =~= value);
    assert(trim_start(line) == line);
}

/// A line that begins with a comment, and one without a sign, set nothing; a name is made of letters, digits and
/// underscores.
pub proof fn law_comments_set_nothing(line: Seq<char>)
    ensures
        trim(without_marks(line)).len() > 0 && trim(without_marks(line))[0] == '#' ==> entry_of(line) is None,
        trim(without_marks(line)).len() == 0 ==> entry_of(line) is None,
        entry_of(line) matches Some((key, _)) ==> is_key(key),
{
}

/// What stands between single quotes is taken as it is, and so is what stands between double quotes, but for what
/// follows a backslash.
pub proof fn law_quotes_keep_the_value(s: Seq<char>)
    ensures
        unquoted(seq!['\''] + s + seq!['\'']) == s,
        (forall|i: int| 0 <= i < s.len() ==> #[trigger] s[i] != '\\') ==> unquoted(seq!['"'] + s + seq!['"']) == s,
{
    let single = seq!['\''] + s + seq!['\''];
    assert(single.subrange(1, single.len() - 1) =~= s);
    assert(single[0] == '\'' && single.last() == '\'');
    let double = seq!['"'] + s + seq!['"'];
    assert(double.subrange(1, double.len() - 1) =~= s);
    assert(double[0] == '"' && double.last() == '"');
    if forall|i: int| 0 <= i < s.len() ==> #[trigger] s[i] != '\\' {
        lemma_nothing_to_unescape(s);
    }
}

proof fn lemma_nothing_to_unescape(s: Seq<char>)
    requires
        forall|i: int| 0 <= i < s.len() ==> #[trigger] s[i] != '\\',
    ensures
        unescaped(s) == s,
    decreases s.len(),
{
    if s.len() > 0 {
        let rest = s.skip(1);
        assert forall|i: int| 0 <= i < rest.len() implies #[trigger] rest[i] != '\\' by {
            assert(rest[i] == s[i + 1]);
        }
        lemma_nothing_to_unescape(rest);
        assert(s[0] != '\\');
        assert(seq![s[0]] + rest =~= s);
    }
}

/// A comment after a value begins at the first white space with a number sign behind it; without one the value is whole.
pub proof fn law_comment_begins_behind_white_space(s: Seq<char>)
    ensures
        0 <= comment_at(s) <= s.len(),
        comment_at(s) < s.len() ==> comment_at(s) + 1 < s.len() && is_space(s[comment_at(s)]) && s[comment_at(s) + 1] == '#',
        forall|j: int| 0 <= j < comment_at(s) && j + 1 < s.len() ==> !(is_space(#[trigger] s[j]) && s[j + 1] == '#'),
    decreases s.len(),
{
    if s.len() >= 2 && !(is_space(s[0]) && s[1] == '#') {
        let rest = s.skip(1);
        law_comment_begins_behind_white_space(rest);
        assert forall|j: int| 0 <= j < comment_at(s) && j + 1 < s.len() implies !(is_space(#[trigger] s[j]) && s[j + 1] == '#') by {
            if j > 0 {
                assert(rest[j - 1] == s[j] && rest[j] == s[j + 1]);
            }
        }
    }
}

/// Of several lines that set one name the first counts.
pub proof fn law_first_line_counts(list: Seq<(Seq<char>, Seq<char>)>, there: Seq<Seq<char>>, i: int)
    requires
        0 <= i < list.len(),
        !there.contains(list[i].0),
        forall|k: int| 0 <= k < i ==> (#[trigger] list[k]).0 != list[i].0,
    ensures
        new_ones(list, there).contains(list[i]),
    decreases list.len(),
{
    let front = list.drop_last();
    let before = new_ones(front, there);
    let all = new_ones(list, there);
    if i < list.len() - 1 {
        law_first_line_counts(front, there, i);
        let at = choose|at: int| 0 <= at < before.len() && before[at] == list[i];
        assert(all[at] == list[i]);
    } else {
        law_environment_wins(front, there, list[i].0);
        assert(!sets(front, list[i].0)) by {
            if sets(front, list[i].0) {
                let k = choose|k: int| 0 <= k < front.len() && (#[trigger] front[k]).0 == list[i].0;
                assert(list[k].0 == list[i].0);
            }
        }
        assert(all[all.len() - 1] == list[i]);
    }
}

} // verus!
