//! Bytes in hexadecimal and percent notation, keyed hashes and random bytes.
use crate::text::{chars_of, text_of};
use hmac::{KeyInit, Mac};
use vstd::prelude::*;
use vstd::utf8::{decode_utf8, encode_utf8, valid_utf8};

verus! {

// ─── hexadecimal ───

/// The value of a hexadecimal digit.
pub open spec fn hex_digit(c: char) -> Option<nat> {
    if '0' <= c <= '9' {
        Some((c as nat - 48) as nat)
    } else if 'a' <= c <= 'f' {
        Some((c as nat - 87) as nat)
    } else if 'A' <= c <= 'F' {
        Some((c as nat - 55) as nat)
    } else {
        None
    }
}

/// The number that two characters write in base 16; a plus sign may stand in the place of the first.
pub open spec fn hex_pair(a: char, b: char) -> Option<nat> {
    match (hex_digit(a), hex_digit(b)) {
        (Some(x), Some(y)) => Some(16 * x + y),
        (None, Some(y)) => if a == '+' {
            Some(y)
        } else {
            None
        },
        _ => None,
    }
}

/// The bytes that `s` writes in hexadecimal, two characters each.
pub open spec fn hex_bytes(s: Seq<char>) -> Option<Seq<u8>>
    decreases s.len(),
{
    if s.len() == 0 {
        Some(Seq::empty())
    } else if s.len() == 1 {
        None
    } else {
        match (hex_pair(s[0], s[1]), hex_bytes(s.skip(2))) {
            (Some(first), Some(rest)) => Some(seq![first as u8] + rest),
            _ => None,
        }
    }
}

/// The lower-case hexadecimal digit for `d` below 16.
pub open spec fn hex_char(d: nat) -> char {
    if d < 10 {
        (48 + d) as char
    } else {
        (87 + d) as char
    }
}

/// `bytes` in lower-case hexadecimal.
pub open spec fn hex_text(bytes: Seq<u8>) -> Seq<char>
    decreases bytes.len(),
{
    if bytes.len() == 0 {
        Seq::empty()
    } else {
        hex_text(bytes.drop_last()).push(hex_char((bytes.last() / 16) as nat)).push(
            hex_char((bytes.last() % 16) as nat),
        )
    }
}

proof fn lemma_hex_text_front(b: u8, rest: Seq<u8>)
    ensures
        hex_text(seq![b] + rest) == seq![hex_char((b / 16) as nat), hex_char((b % 16) as nat)] + hex_text(rest),
    decreases rest.len(),
{
    let all = seq![b] + rest;
    if rest.len() == 0 {
        assert(all.drop_last() == Seq::<u8>::empty());
        assert(hex_text(all.drop_last()) == Seq::<char>::empty());
        assert(all.last() == b);
        assert(hex_text(all) =~= seq![hex_char((b / 16) as nat), hex_char((b % 16) as nat)] + hex_text(rest));
    } else {
        lemma_hex_text_front(b, rest.drop_last());
        assert(all.drop_last() == seq![b] + rest.drop_last());
        assert(all.last() == rest.last());
        assert(hex_text(all) =~= seq![hex_char((b / 16) as nat), hex_char((b % 16) as nat)] + hex_text(rest));
    }
}

/// Writing bytes in hexadecimal and reading them back gives the bytes.
pub proof fn law_hex_reads_back(bytes: Seq<u8>)
    ensures
        hex_bytes(hex_text(bytes)) == Some(bytes),
        hex_text(bytes).len() == 2 * bytes.len(),
        forall|i: int| 0 <= i < hex_text(bytes).len() ==> hex_digit(#[trigger] hex_text(bytes)[i]) is Some,
    decreases bytes.len(),
{
    if bytes.len() > 0 {
        let b = bytes[0];
        let rest = bytes.drop_first();
        law_hex_reads_back(rest);
        lemma_hex_text_front(b, rest);
        assert(bytes == seq![b] + rest);
        let t = hex_text(bytes);
        assert(t.skip(2) == hex_text(rest));
        assert(hex_digit(hex_char((b / 16) as nat)) == Some((b / 16) as nat));
        assert(hex_digit(hex_char((b % 16) as nat)) == Some((b % 16) as nat));
        assert(hex_pair(t[0], t[1]) == Some(b as nat));
        assert forall|i: int| 0 <= i < t.len() implies hex_digit(#[trigger] t[i]) is Some by {
            if i >= 2 {
                assert(t[i] == hex_text(rest)[i - 2]);
            }
        }
    } else {
        assert(bytes == Seq::<u8>::empty());
        assert(hex_text(bytes) == Seq::<char>::empty());
    }
}

fn digit_value(c: char) -> (r: Option<u8>)
    ensures
        match (r, hex_digit(c)) {
            (Some(x), Some(y)) => x == y && x < 16,
            (None, None) => true,
            _ => false,
        },
{
    if '0' <= c && c <= '9' {
        Some((c as u32 - 48) as u8)
    } else if 'a' <= c && c <= 'f' {
        Some((c as u32 - 87) as u8)
    } else if 'A' <= c && c <= 'F' {
        Some((c as u32 - 55) as u8)
    } else {
        None
    }
}

fn pair_value(a: char, b: char) -> (r: Option<u8>)
    ensures
        match (r, hex_pair(a, b)) {
            (Some(x), Some(y)) => x == y,
            (None, None) => true,
            _ => false,
        },
{
    match (digit_value(a), digit_value(b)) {
        (Some(x), Some(y)) => Some(16 * x + y),
        (None, Some(y)) => if a == '+' {
            Some(y)
        } else {
            None
        },
        _ => None,
    }
}

/// The bytes that `raw` writes in hexadecimal.
pub fn decode_hex(raw: &str) -> (r: Option<Vec<u8>>)
    ensures
        match r {
            Some(bytes) => hex_bytes(raw@) == Some(bytes@),
            None => hex_bytes(raw@) is None,
        },
{
    let chars = chars_of(raw);
    let mut out: Vec<u8> = Vec::new();
    let mut i: usize = 0;
    assert(chars@.skip(0) == chars@);
    while i < chars.len()
        invariant
            i <= chars@.len(),
            chars@ == raw@,
            match hex_bytes(chars@.skip(i as int)) {
                Some(rest) => hex_bytes(chars@) == Some(out@ + rest),
                None => hex_bytes(chars@) is None,
            },
        decreases chars.len() - i,
    {
        let ghost rest = chars@.skip(i as int);
        if chars.len() - i == 1 {
            return None;
        }
        assert(rest[0] == chars@[i as int] && rest[1] == chars@[i + 1]);
        match pair_value(chars[i], chars[i + 1]) {
            Some(byte) => {
                let ghost before = out@;
                out.push(byte);
                i += 2;
                assert(rest.skip(2) == chars@.skip(i as int));
                proof {
                    match hex_bytes(chars@.skip(i as int)) {
                        Some(more) => {
                            assert(before + (seq![byte] + more) == out@ + more);
                        },
                        None => {},
                    }
                }
            },
            None => {
                return None;
            },
        }
    }
    assert(out@ + Seq::<u8>::empty() == out@);
    Some(out)
}

/// `bytes` in lower-case hexadecimal.
pub fn hex(bytes: &[u8]) -> (r: String)
    ensures
        r@ == hex_text(bytes@),
{
    let mut chars: Vec<char> = Vec::new();
    let mut i: usize = 0;
    assert(bytes@.take(0) == Seq::<u8>::empty());
    while i < bytes.len()
        invariant
            i <= bytes@.len(),
            chars@ == hex_text(bytes@.take(i as int)),
        decreases bytes.len() - i,
    {
        let b: u8 = bytes[i];
        assert(bytes@.take(i + 1).drop_last() == bytes@.take(i as int));
        chars.push(low_digit(b / 16));
        chars.push(low_digit(b % 16));
        i += 1;
    }
    assert(bytes@.take(i as int) == bytes@);
    assert(chars@.subrange(0, chars@.len() as int) == chars@);
    text_of(&chars, 0, chars.len())
}

fn low_digit(d: u8) -> (r: char)
    requires
        d < 16,
    ensures
        r == hex_char(d as nat),
{
    if d < 10 {
        (48 + d) as char
    } else {
        (87 + d) as char
    }
}

// ─── percent notation ───

/// The bytes of a query string with `%XX` and `+` resolved; a `%` without two hexadecimal digits
/// stands for itself.
pub open spec fn unescaped(b: Seq<u8>) -> Seq<u8>
    decreases b.len(),
{
    if b.len() == 0 {
        Seq::empty()
    } else if b[0] == 37 && b.len() > 2 && hex_pair(b[1] as char, b[2] as char) is Some {
        seq![hex_pair(b[1] as char, b[2] as char)->0 as u8] + unescaped(b.skip(3))
    } else if b[0] == 43 {
        seq![32u8] + unescaped(b.skip(1))
    } else {
        seq![b[0]] + unescaped(b.skip(1))
    }
}

/// The text that bytes stand for by `String::from_utf8_lossy`.
pub uninterp spec fn utf8_lossy(bytes: Seq<u8>) -> Seq<char>;

/// The text that a part of a query string stands for.
pub open spec fn query_text(raw: Seq<char>) -> Seq<char> {
    utf8_lossy(unescaped(encode_utf8(raw)))
}

/// `String::from_utf8_lossy`: valid UTF-8 is decoded; what stands for anything else is given the
/// name `utf8_lossy` and not described further.
#[verifier::external_body]
fn lossy(bytes: &[u8]) -> (r: String)
    ensures
        r@ == utf8_lossy(bytes@),
        valid_utf8(bytes@) ==> r@ == decode_utf8(bytes@),
{
    String::from_utf8_lossy(bytes).into_owned()
}

/// The bytes of a query string with `%XX` and `+` resolved.
pub fn unescape(bytes: &[u8]) -> (r: Vec<u8>)
    ensures
        r@ == unescaped(bytes@),
{
    let mut out: Vec<u8> = Vec::new();
    let mut i: usize = 0;
    assert(bytes@.skip(0) == bytes@);
    assert(out@ + unescaped(bytes@) == unescaped(bytes@));
    while i < bytes.len()
        invariant
            i <= bytes@.len(),
            out@ + unescaped(bytes@.skip(i as int)) == unescaped(bytes@),
        decreases bytes.len() - i,
    {
        let ghost rest = bytes@.skip(i as int);
        let ghost before = out@;
        assert(rest.skip(1) == bytes@.skip(i + 1));
        if bytes[i] == 37 && bytes.len() - i > 2 {
            assert(rest[1] == bytes@[i + 1] && rest[2] == bytes@[i + 2]);
            match pair_value(bytes[i + 1] as char, bytes[i + 2] as char) {
                Some(byte) => {
                    assert(rest.skip(3) == bytes@.skip(i + 3));
                    out.push(byte);
                    i += 3;
                    assert(out@ + unescaped(bytes@.skip(i as int)) =~= before + unescaped(rest));
                },
                None => {
                    out.push(37);
                    i += 1;
                    assert(out@ + unescaped(bytes@.skip(i as int)) =~= before + unescaped(rest));
                },
            }
        } else if bytes[i] == 43 {
            out.push(32);
            i += 1;
            assert(out@ + unescaped(bytes@.skip(i as int)) =~= before + unescaped(rest));
        } else {
            out.push(bytes[i]);
            i += 1;
            assert(out@ + unescaped(bytes@.skip(i as int)) =~= before + unescaped(rest));
        }
    }
    assert(out@ + unescaped(bytes@.skip(i as int)) =~= out@);
    out
}

/// The text that a part of a query string stands for.
pub fn percent_decode(raw: &str) -> (r: String)
    ensures
        r@ == query_text(raw@),
        valid_utf8(unescaped(encode_utf8(raw@))) ==> r@ == decode_utf8(unescaped(encode_utf8(raw@))),
{
    let out = unescape(raw.as_bytes());
    lossy(out.as_slice())
}

// ─── keyed hashes ───

/// HMAC-SHA256 of a message under a key.
pub uninterp spec fn hmac_sha256(key: Seq<u8>, message: Seq<u8>) -> Seq<u8>;

/// `hmac::Hmac<sha2::Sha256>` fed with one message and finalized: 32 bytes that depend on the key and
/// the message alone. Keys of any length are taken.
#[verifier::external_body]
pub(crate) fn hmac(key: &[u8], message: &[u8]) -> (r: Vec<u8>)
    ensures
        r@ == hmac_sha256(key@, message@),
        r@.len() == 32,
{
    let mut mac = hmac::Hmac::<sha2::Sha256>::new_from_slice(key).expect("HMAC takes keys of any length");
    mac.update(message);
    mac.finalize().into_bytes().to_vec()
}

/// `hmac::Mac::verify_slice` on `hmac::Hmac<sha2::Sha256>`: whether the tag is the HMAC-SHA256 of the
/// message, in a time that does not depend on where they differ.
#[verifier::external_body]
pub(crate) fn tag_matches(key: &[u8], message: &[u8], tag: &[u8]) -> (r: bool)
    ensures
        r == (tag@ == hmac_sha256(key@, message@)),
{
    let mut mac = hmac::Hmac::<sha2::Sha256>::new_from_slice(key).expect("HMAC takes keys of any length");
    mac.update(message);
    mac.verify_slice(tag).is_ok()
}

/// Two lists of bytes, combined by exclusive or.
pub open spec fn xor_bytes(a: Seq<u8>, b: Seq<u8>) -> Seq<u8> {
    Seq::new(a.len(), |i: int| a[i] ^ b[i])
}

/// The `n`th hash in the chain of PBKDF2 (from 1).
pub open spec fn chain(password: Seq<u8>, salt: Seq<u8>, n: nat) -> Seq<u8>
    decreases n,
{
    if n <= 1 {
        hmac_sha256(password, salt + seq![0u8, 0u8, 0u8, 1u8])
    } else {
        hmac_sha256(password, chain(password, salt, (n - 1) as nat))
    }
}

/// The first block of PBKDF2 with HMAC-SHA256: the first `n` hashes of the chain, combined.
pub open spec fn derived_key(password: Seq<u8>, salt: Seq<u8>, n: nat) -> Seq<u8>
    decreases n,
{
    if n <= 1 {
        chain(password, salt, 1)
    } else {
        xor_bytes(derived_key(password, salt, (n - 1) as nat), chain(password, salt, n))
    }
}

/// The first block of PBKDF2 with HMAC-SHA256; no iterations count as one.
pub fn pbkdf2(password: &[u8], salt: &[u8], iterations: u32) -> (r: Vec<u8>)
    ensures
        r@ == derived_key(password@, salt@, iterations as nat),
        r@.len() == 32,
{
    let mut block: Vec<u8> = Vec::new();
    block.extend_from_slice(salt);
    block.push(0);
    block.push(0);
    block.push(0);
    block.push(1);
    assert(block@ =~= salt@ + seq![0u8, 0u8, 0u8, 1u8]);
    let mut current = hmac(password, block.as_slice());
    let mut output = hmac(password, block.as_slice());
    let mut round: u32 = 1;
    while round < iterations
        invariant
            1 <= round,
            round <= iterations || round == 1,
            current@ == chain(password@, salt@, round as nat),
            current@.len() == 32,
            output@ == derived_key(password@, salt@, round as nat),
            output@.len() == 32,
        decreases iterations - round,
    {
        current = hmac(password, current.as_slice());
        let ghost before = output@;
        let mut i: usize = 0;
        while i < 32
            invariant
                i <= 32,
                current@.len() == 32,
                output@.len() == 32,
                before.len() == 32,
                forall|k: int| 0 <= k < i ==> output@[k] == before[k] ^ current@[k],
                forall|k: int| i <= k < 32 ==> output@[k] == before[k],
            decreases 32 - i,
        {
            let mixed: u8 = output[i] ^ current[i];
            output[i] = mixed;
            i += 1;
        }
        assert(output@ =~= xor_bytes(before, current@));
        round += 1;
    }
    output
}

/// Whether two lists of bytes are equal, in a time that does not depend on where they differ.
pub fn constant_time_eq(left: &[u8], right: &[u8]) -> (r: bool)
    ensures
        r == (left@ == right@),
{
    if left.len() != right.len() {
        return false;
    }
    let mut acc: u8 = 0;
    let mut i: usize = 0;
    assert(left@.take(0) =~= right@.take(0));
    while i < left.len()
        invariant
            i <= left@.len(),
            left@.len() == right@.len(),
            (acc == 0) == (left@.take(i as int) == right@.take(i as int)),
        decreases left.len() - i,
    {
        let a: u8 = left[i];
        let b: u8 = right[i];
        let next: u8 = acc | (a ^ b);
        assert((next == 0) == (acc == 0 && a == b)) by (bit_vector)
            requires
                next == acc | (a ^ b),
        ;
        proof {
            let l = left@.take(i as int);
            let r = right@.take(i as int);
            assert(left@.take(i + 1) =~= l.push(a));
            assert(right@.take(i + 1) =~= r.push(b));
            if l.push(a) == r.push(b) {
                assert(l.push(a).drop_last() =~= l);
                assert(r.push(b).drop_last() =~= r);
                assert(l.push(a).last() == a);
                assert(r.push(b).last() == b);
            }
        }
        acc = next;
        i += 1;
    }
    assert(left@.take(i as int) == left@);
    assert(right@.take(i as int) == right@);
    acc == 0
}

// ─── random bytes ───

/// `len` bytes from the secure random generator of `rustls::crypto::aws_lc_rs`, or nothing where the
/// system has none to give. Which bytes they are is left to chance.
#[verifier::external_body]
pub(crate) fn random_bytes(len: usize) -> (r: Option<Vec<u8>>)
    ensures
        r is Some ==> r->0@.len() == len,
{
    let mut bytes = vec![0u8; len];
    match rustls::crypto::aws_lc_rs::default_provider().secure_random.fill(&mut bytes) {
        Ok(()) => Some(bytes),
        Err(_) => None,
    }
}

/// A percent sign with two hexadecimal digits stands for the byte of that number, a plus sign for a space, and all other
/// bytes for themselves.
pub proof fn law_percent_signs_stand_for_bytes(byte: u8, rest: Seq<u8>, other: u8)
    ensures
        unescaped(seq![37u8, hex_char((byte / 16) as nat) as u8, hex_char((byte % 16) as nat) as u8] + rest) == seq![byte] + unescaped(rest),
        unescaped(seq![43u8] + rest) == seq![32u8] + unescaped(rest),
        other != 37 && other != 43 ==> unescaped(seq![other] + rest) == seq![other] + unescaped(rest),
{
    let (x, y) = ((byte / 16) as nat, (byte % 16) as nat);
    let (a, b) = (hex_char(x) as u8, hex_char(y) as u8);
    let s = seq![37u8, a, b] + rest;
    assert(s[0] == 37 && s[1] == a && s[2] == b);
    assert(a as char == hex_char(x) && b as char == hex_char(y));
    assert(hex_digit(hex_char(x)) == Some(x) && hex_digit(hex_char(y)) == Some(y));
    assert(s.skip(3) =~= rest);
    let p = seq![43u8] + rest;
    assert(p[0] == 43 && p.skip(1) =~= rest);
    let o = seq![other] + rest;
    assert(o[0] == other && o.skip(1) =~= rest);
}

} // verus!
