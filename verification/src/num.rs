//! Decimal rendering and parsing of version numbers.
//!
//! Versions appear in two places: as the contents of the version pointer file
//! (bytes) and as the suffix of checkpoint and log file names (characters).
//! Both directions are verified against the spec-level digit sequences below,
//! with round-trip lemmas.

use vstd::prelude::*;

verus! {

/// The canonical decimal digit characters of `v`, most significant first,
/// without leading zeroes (`0` is rendered as `"0"`).
pub open spec fn dec_chars(v: nat) -> Seq<char>
    decreases v,
{
    if v < 10 {
        seq![((48 + v) as u8) as char]
    } else {
        dec_chars(v / 10).push(((48 + v % 10) as u8) as char)
    }
}

/// The canonical decimal digit bytes of `v`, most significant first.
pub open spec fn dec_bytes(v: nat) -> Seq<u8>
    decreases v,
{
    if v < 10 {
        seq![(48 + v) as u8]
    } else {
        dec_bytes(v / 10).push((48 + v % 10) as u8)
    }
}

pub open spec fn is_digit_char(c: char) -> bool {
    48 <= (c as u32) <= 57
}

pub open spec fn all_digit_chars(s: Seq<char>) -> bool {
    forall|i: int| 0 <= i < s.len() ==> is_digit_char(#[trigger] s[i])
}

pub open spec fn is_digit_byte(b: u8) -> bool {
    48 <= b <= 57
}

pub open spec fn all_digit_bytes(s: Seq<u8>) -> bool {
    forall|i: int| 0 <= i < s.len() ==> is_digit_byte(#[trigger] s[i])
}

/// The numeric value of a digit-character sequence, most significant first.
pub open spec fn digits_val_chars(s: Seq<char>) -> int
    decreases s.len(),
{
    if s.len() == 0 {
        0
    } else {
        digits_val_chars(s.drop_last()) * 10 + (s.last() as u32 - 48)
    }
}

/// The numeric value of a digit-byte sequence, most significant first.
pub open spec fn digits_val_bytes(s: Seq<u8>) -> int
    decreases s.len(),
{
    if s.len() == 0 {
        0
    } else {
        digits_val_bytes(s.drop_last()) * 10 + (s.last() - 48)
    }
}

/// What a character sequence parses to as a `u64`: a nonempty run of decimal
/// digits whose value fits, and nothing else.
pub open spec fn parse_dec_chars(s: Seq<char>) -> Option<u64> {
    if s.len() > 0 && all_digit_chars(s) && digits_val_chars(s) <= u64::MAX {
        Some(digits_val_chars(s) as u64)
    } else {
        None
    }
}

/// What a byte sequence parses to as a `u64`.
pub open spec fn parse_dec_bytes(s: Seq<u8>) -> Option<u64> {
    if s.len() > 0 && all_digit_bytes(s) && digits_val_bytes(s) <= u64::MAX {
        Some(digits_val_bytes(s) as u64)
    } else {
        None
    }
}

pub proof fn lemma_dec_chars_digits(v: nat)
    ensures
        dec_chars(v).len() > 0,
        all_digit_chars(dec_chars(v)),
    decreases v,
{
    if v >= 10 {
        lemma_dec_chars_digits(v / 10);
        assert forall|i: int| 0 <= i < dec_chars(v).len() implies is_digit_char(
            #[trigger] dec_chars(v)[i],
        ) by {
            if i < dec_chars(v / 10).len() {
                assert(dec_chars(v)[i] == dec_chars(v / 10)[i]);
            }
        }
    }
}

proof fn lemma_dec_bytes_digits(v: nat)
    ensures
        dec_bytes(v).len() > 0,
        all_digit_bytes(dec_bytes(v)),
    decreases v,
{
    if v >= 10 {
        lemma_dec_bytes_digits(v / 10);
        assert forall|i: int| 0 <= i < dec_bytes(v).len() implies is_digit_byte(
            #[trigger] dec_bytes(v)[i],
        ) by {
            if i < dec_bytes(v / 10).len() {
                assert(dec_bytes(v)[i] == dec_bytes(v / 10)[i]);
            }
        }
    }
}

proof fn lemma_dec_chars_val(v: nat)
    ensures
        digits_val_chars(dec_chars(v)) == v,
    decreases v,
{
    if v < 10 {
        assert(dec_chars(v).drop_last() =~= Seq::<char>::empty());
        assert(digits_val_chars(Seq::<char>::empty()) == 0);
        assert((((48 + v) as u8) as char) as u32 == 48 + v);
        assert(dec_chars(v).last() == ((48 + v) as u8) as char);
        assert(digits_val_chars(dec_chars(v)) == digits_val_chars(dec_chars(v).drop_last()) * 10
            + (dec_chars(v).last() as u32 - 48));
    } else {
        lemma_dec_chars_val(v / 10);
        assert(dec_chars(v).drop_last() =~= dec_chars(v / 10));
        assert((((48 + v % 10) as u8) as char) as u32 == 48 + v % 10);
        vstd::arithmetic::div_mod::lemma_fundamental_div_mod(v as int, 10);
    }
}

proof fn lemma_dec_bytes_val(v: nat)
    ensures
        digits_val_bytes(dec_bytes(v)) == v,
    decreases v,
{
    if v < 10 {
        assert(dec_bytes(v).drop_last() =~= Seq::<u8>::empty());
        assert(digits_val_bytes(Seq::<u8>::empty()) == 0);
        assert(dec_bytes(v).last() == (48 + v) as u8);
        assert(digits_val_bytes(dec_bytes(v)) == digits_val_bytes(dec_bytes(v).drop_last()) * 10
            + (dec_bytes(v).last() - 48));
    } else {
        lemma_dec_bytes_val(v / 10);
        assert(dec_bytes(v).drop_last() =~= dec_bytes(v / 10));
        vstd::arithmetic::div_mod::lemma_fundamental_div_mod(v as int, 10);
    }
}

/// Rendering a version and parsing it back yields the version: the character
/// direction, used for file names.
pub proof fn lemma_parse_dec_chars_round_trip(v: u64)
    ensures
        parse_dec_chars(dec_chars(v as nat)) == Some(v),
{
    lemma_dec_chars_digits(v as nat);
    lemma_dec_chars_val(v as nat);
}

/// Rendering a version and parsing it back yields the version: the byte
/// direction, used for the version pointer file.
pub proof fn lemma_parse_dec_bytes_round_trip(v: u64)
    ensures
        parse_dec_bytes(dec_bytes(v as nat)) == Some(v),
{
    lemma_dec_bytes_digits(v as nat);
    lemma_dec_bytes_val(v as nat);
}

/// The value of a run of digits only grows as more digits follow.
proof fn lemma_digits_val_bytes_prefix_monotone(s: Seq<u8>, n: int)
    requires
        0 <= n <= s.len(),
        all_digit_bytes(s),
    ensures
        digits_val_bytes(s.take(n)) <= digits_val_bytes(s),
        digits_val_bytes(s) >= 0,
    decreases s.len() - n,
{
    if n == s.len() {
        assert(s.take(n) =~= s);
        lemma_digits_val_bytes_nonneg(s);
    } else {
        lemma_digits_val_bytes_prefix_monotone(s, n + 1);
        assert(s.take(n + 1).drop_last() =~= s.take(n));
        assert(s.take(n + 1).last() == s[n]);
        lemma_digits_val_bytes_nonneg(s.take(n));
    }
}

proof fn lemma_digits_val_bytes_nonneg(s: Seq<u8>)
    requires
        all_digit_bytes(s),
    ensures
        digits_val_bytes(s) >= 0,
    decreases s.len(),
{
    if s.len() > 0 {
        assert(all_digit_bytes(s.drop_last())) by {
            assert(forall|i: int|
                0 <= i < s.drop_last().len() ==> s.drop_last()[i] == #[trigger] s[i]);
        }
        lemma_digits_val_bytes_nonneg(s.drop_last());
    }
}

/// Renders `v` in decimal as a string of digit characters.
pub fn u64_to_dec_string(v: u64) -> (r: String)
    ensures
        r@ == dec_chars(v as nat),
    decreases v,
{
    if v < 10 {
        digit_str(v).to_owned()
    } else {
        let mut s = u64_to_dec_string(v / 10);
        s.append(digit_str(v % 10));
        assert(s@ =~= dec_chars(v as nat));
        s
    }
}

/// Renders `v` in decimal as a vector of digit bytes.
pub fn u64_to_dec_vec(v: u64) -> (r: Vec<u8>)
    ensures
        r@ == dec_bytes(v as nat),
    decreases v,
{
    if v < 10 {
        let mut r: Vec<u8> = Vec::new();
        r.push(48 + (v as u8));
        assert(r@ =~= dec_bytes(v as nat));
        r
    } else {
        let mut r = u64_to_dec_vec(v / 10);
        r.push(48 + ((v % 10) as u8));
        assert(r@ =~= dec_bytes(v as nat));
        r
    }
}

fn digit_str(d: u64) -> (r: &'static str)
    requires
        d < 10,
    ensures
        r@ == seq![((48 + d) as u8) as char],
{
    proof {
        reveal_strlit("0");
        reveal_strlit("1");
        reveal_strlit("2");
        reveal_strlit("3");
        reveal_strlit("4");
        reveal_strlit("5");
        reveal_strlit("6");
        reveal_strlit("7");
        reveal_strlit("8");
        reveal_strlit("9");
    }
    let r = match d {
        0 => "0",
        1 => "1",
        2 => "2",
        3 => "3",
        4 => "4",
        5 => "5",
        6 => "6",
        7 => "7",
        8 => "8",
        _ => "9",
    };
    assert(r@ =~= seq![((48 + d) as u8) as char]);
    r
}

/// Parses the contents of the version pointer file.
pub fn parse_version_bytes(b: &[u8]) -> (r: Option<u64>)
    ensures
        r == parse_dec_bytes(b@),
{
    if b.len() == 0 {
        return None;
    }
    let mut acc: u64 = 0;
    let mut i: usize = 0;
    while i < b.len()
        invariant
            0 <= i <= b@.len(),
            all_digit_bytes(b@.take(i as int)),
            acc == digits_val_bytes(b@.take(i as int)),
        decreases b@.len() - i,
    {
        let c = b[i];
        if c < 48 || c > 57 {
            assert(!is_digit_byte(b@[i as int]));
            return None;
        }
        let step = match acc.checked_mul(10) {
            Some(x) => x,
            None => {
                proof {
                    overflow_means_unparseable(b@, i as int);
                }
                return None;
            },
        };
        let next = match step.checked_add((c - 48) as u64) {
            Some(x) => x,
            None => {
                proof {
                    overflow_means_unparseable(b@, i as int);
                }
                return None;
            },
        };
        acc = next;
        proof {
            assert(b@.take(i + 1).drop_last() =~= b@.take(i as int));
            assert(b@.take(i + 1).last() == b@[i as int]);
        }
        i = i + 1;
    }
    assert(b@.take(i as int) =~= b@);
    Some(acc)
}

/// If the value of the digits up to and including position `i` already
/// exceeds `u64::MAX`, the whole sequence is unparseable.
proof fn overflow_means_unparseable(s: Seq<u8>, i: int)
    requires
        0 <= i < s.len(),
        all_digit_bytes(s.take(i)),
        is_digit_byte(s[i]),
        digits_val_bytes(s.take(i)) * 10 + (s[i] - 48) > u64::MAX,
    ensures
        parse_dec_bytes(s) is None,
{
    if all_digit_bytes(s) {
        assert(s.take(i + 1).drop_last() =~= s.take(i));
        assert(s.take(i + 1).last() == s[i]);
        lemma_digits_val_bytes_prefix_monotone(s, i + 1);
    }
}

/// Parses the characters of `s` from position `from` (a character index) to
/// the end as a decimal number.
pub fn parse_dec_chars_from(s: &str, from: usize, len: usize) -> (r: Option<u64>)
    requires
        from <= len,
        len == s@.len(),
    ensures
        r == parse_dec_chars(s@.skip(from as int)),
{
    if from == len {
        assert(s@.skip(from as int).len() == 0);
        return None;
    }
    let ghost t = s@.skip(from as int);
    let mut acc: u64 = 0;
    let mut i: usize = from;
    while i < len
        invariant
            from <= i <= len,
            len == s@.len(),
            t == s@.skip(from as int),
            all_digit_chars(t.take(i - from)),
            acc == digits_val_chars(t.take(i - from)),
        decreases len - i,
    {
        let c = s.get_char(i);
        assert(c == t[i - from]);
        let cv = c as u32;
        if cv < 48 || cv > 57 {
            assert(!is_digit_char(t[i - from]));
            return None;
        }
        let step = match acc.checked_mul(10) {
            Some(x) => x,
            None => {
                proof {
                    overflow_chars_means_unparseable(t, i - from);
                }
                return None;
            },
        };
        let next = match step.checked_add((cv - 48) as u64) {
            Some(x) => x,
            None => {
                proof {
                    overflow_chars_means_unparseable(t, i - from);
                }
                return None;
            },
        };
        acc = next;
        proof {
            assert(t.take(i - from + 1).drop_last() =~= t.take(i - from));
            assert(t.take(i - from + 1).last() == t[i - from]);
        }
        i = i + 1;
    }
    assert(t.take(i - from) =~= t);
    Some(acc)
}

proof fn lemma_digits_val_chars_nonneg(s: Seq<char>)
    requires
        all_digit_chars(s),
    ensures
        digits_val_chars(s) >= 0,
    decreases s.len(),
{
    if s.len() > 0 {
        assert(all_digit_chars(s.drop_last())) by {
            assert(forall|i: int|
                0 <= i < s.drop_last().len() ==> s.drop_last()[i] == #[trigger] s[i]);
        }
        lemma_digits_val_chars_nonneg(s.drop_last());
    }
}

proof fn lemma_digits_val_chars_prefix_monotone(s: Seq<char>, n: int)
    requires
        0 <= n <= s.len(),
        all_digit_chars(s),
    ensures
        digits_val_chars(s.take(n)) <= digits_val_chars(s),
        digits_val_chars(s) >= 0,
    decreases s.len() - n,
{
    if n == s.len() {
        assert(s.take(n) =~= s);
        lemma_digits_val_chars_nonneg(s);
    } else {
        lemma_digits_val_chars_prefix_monotone(s, n + 1);
        assert(s.take(n + 1).drop_last() =~= s.take(n));
        assert(s.take(n + 1).last() == s[n]);
        lemma_digits_val_chars_nonneg(s.take(n));
    }
}

proof fn overflow_chars_means_unparseable(s: Seq<char>, i: int)
    requires
        0 <= i < s.len(),
        all_digit_chars(s.take(i)),
        is_digit_char(s[i]),
        digits_val_chars(s.take(i)) * 10 + (s[i] as u32 - 48) > u64::MAX,
    ensures
        parse_dec_chars(s) is None,
{
    if all_digit_chars(s) {
        assert(s.take(i + 1).drop_last() =~= s.take(i));
        assert(s.take(i + 1).last() == s[i]);
        lemma_digits_val_chars_prefix_monotone(s, i + 1);
    }
}

} // verus!
