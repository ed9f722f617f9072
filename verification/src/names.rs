//! The file names of a store directory and the retention rule over them.
//!
//! A store directory holds the version pointer file, its transient staging
//! copy, and one checkpoint and one log file per version, named by a fixed
//! prefix, a dot, and the decimal version.

use vstd::prelude::*;

use crate::num::{dec_chars, parse_dec_chars, u64_to_dec_string, parse_dec_chars_from,
    lemma_parse_dec_chars_round_trip, lemma_dec_chars_digits, is_digit_char};

verus! {

pub open spec fn version_name() -> Seq<char> {
    "version"@
}

pub open spec fn staging_name() -> Seq<char> {
    "new_version"@
}

pub open spec fn checkpoint_name(v: u64) -> Seq<char> {
    "checkpoint."@ + dec_chars(v as nat)
}

pub open spec fn log_name(v: u64) -> Seq<char> {
    "logfile."@ + dec_chars(v as nat)
}

/// The index of the last `'.'` in `s`, or `-1` if there is none.
pub open spec fn last_dot(s: Seq<char>) -> int
    decreases s.len(),
{
    if s.len() == 0 {
        -1
    } else if s.last() == '.' {
        s.len() - 1
    } else {
        last_dot(s.drop_last())
    }
}

/// A file name is outdated at current version `cur` when it is the staging
/// pointer file, or a checkpoint or log file whose decimal suffix parses to a
/// version strictly below `cur`.
pub open spec fn outdated_name(name: Seq<char>, cur: u64) -> bool {
    if name == staging_name() {
        true
    } else {
        let i = last_dot(name);
        &&& i >= 0
        &&& (name.take(i) == "checkpoint"@ || name.take(i) == "logfile"@)
        &&& (match parse_dec_chars(name.skip(i + 1)) {
            Some(w) => w < cur,
            None => false,
        })
    }
}

proof fn lemma_last_dot_facts(s: Seq<char>)
    ensures
        -1 <= last_dot(s) < s.len(),
        last_dot(s) >= 0 ==> s[last_dot(s)] == '.',
        forall|j: int| last_dot(s) < j < s.len() ==> s[j] != '.',
    decreases s.len(),
{
    if s.len() > 0 && s.last() != '.' {
        lemma_last_dot_facts(s.drop_last());
        assert(forall|j: int| 0 <= j < s.len() - 1 ==> s.drop_last()[j] == #[trigger] s[j]);
    }
}

/// Pins `last_dot` down from a witness: a dot at `i` with no dot after it.
proof fn lemma_last_dot_at(s: Seq<char>, i: int)
    requires
        0 <= i < s.len(),
        s[i] == '.',
        forall|j: int| i < j < s.len() ==> s[j] != '.',
    ensures
        last_dot(s) == i,
    decreases s.len(),
{
    if i == s.len() - 1 {
    } else {
        assert(s.last() != '.');
        assert(forall|j: int| 0 <= j < s.len() - 1 ==> s.drop_last()[j] == #[trigger] s[j]);
        lemma_last_dot_at(s.drop_last(), i);
    }
}

/// Decomposes a canonical checkpoint file name into its prefix and suffix.
pub proof fn lemma_checkpoint_name_parts(v: u64)
    ensures
        last_dot(checkpoint_name(v)) == 10,
        checkpoint_name(v).take(10) == "checkpoint"@,
        checkpoint_name(v).skip(11) == dec_chars(v as nat),
        checkpoint_name(v).len() >= 12,
        checkpoint_name(v)[0] == 'c',
{
    reveal_strlit("checkpoint.");
    reveal_strlit("checkpoint");
    lemma_dec_chars_digits(v as nat);
    let s = checkpoint_name(v);
    assert forall|j: int| 10 < j < s.len() implies s[j] != '.' by {
        if j >= 11 {
            assert(is_digit_char(dec_chars(v as nat)[j - 11]));
            assert(('.' as u32) == 46);
        }
    }
    lemma_last_dot_at(s, 10);
    assert(s.take(10) =~= "checkpoint"@);
    assert(s.skip(11) =~= dec_chars(v as nat));
}

/// Decomposes a canonical log file name into its prefix and suffix.
pub proof fn lemma_log_name_parts(v: u64)
    ensures
        last_dot(log_name(v)) == 7,
        log_name(v).take(7) == "logfile"@,
        log_name(v).skip(8) == dec_chars(v as nat),
        log_name(v).len() >= 9,
        log_name(v)[0] == 'l',
{
    reveal_strlit("logfile.");
    reveal_strlit("logfile");
    lemma_dec_chars_digits(v as nat);
    let s = log_name(v);
    assert forall|j: int| 7 < j < s.len() implies s[j] != '.' by {
        if j >= 8 {
            assert(is_digit_char(dec_chars(v as nat)[j - 8]));
            assert(('.' as u32) == 46);
        }
    }
    lemma_last_dot_at(s, 7);
    assert(s.take(7) =~= "logfile"@);
    assert(s.skip(8) =~= dec_chars(v as nat));
}

/// The four kinds of store file names never collide across kinds, and the
/// version-numbered ones are outdated exactly below the current version.
pub proof fn lemma_store_names(v: u64, cur: u64)
    ensures
        checkpoint_name(v) != version_name(),
        checkpoint_name(v) != staging_name(),
        log_name(v) != version_name(),
        log_name(v) != staging_name(),
        checkpoint_name(v) != log_name(v),
        version_name() != staging_name(),
        outdated_name(checkpoint_name(v), cur) <==> v < cur,
        outdated_name(log_name(v), cur) <==> v < cur,
        !outdated_name(version_name(), cur),
        outdated_name(staging_name(), cur),
{
    reveal_strlit("version");
    reveal_strlit("new_version");
    reveal_strlit("checkpoint");
    reveal_strlit("logfile");
    lemma_checkpoint_name_parts(v);
    lemma_log_name_parts(v);
    lemma_parse_dec_chars_round_trip(v);
    assert(checkpoint_name(v)[0] == 'c' && log_name(v)[0] == 'l');
    assert(version_name()[0] == 'v' && staging_name()[0] == 'n');
    assert("checkpoint"@ != "logfile"@) by {
        assert("checkpoint"@.len() != "logfile"@.len());
    }
    // the version pointer file has no dot, so it is not version-numbered
    assert(last_dot(version_name()) == -1) by {
        lemma_last_dot_facts(version_name());
        if last_dot(version_name()) >= 0 {
            assert(version_name()[last_dot(version_name())] == '.');
        }
    }
}

/// Two checkpoint names with the same suffix value are the same name; used to
/// tell names of different versions apart.
pub proof fn lemma_numbered_name_injective(v: u64, w: u64)
    ensures
        v != w ==> checkpoint_name(v) != checkpoint_name(w),
        v != w ==> log_name(v) != log_name(w),
{
    if checkpoint_name(v) == checkpoint_name(w) {
        lemma_checkpoint_name_parts(v);
        lemma_checkpoint_name_parts(w);
        lemma_parse_dec_chars_round_trip(v);
        lemma_parse_dec_chars_round_trip(w);
        assert(checkpoint_name(v).skip(11) == checkpoint_name(w).skip(11));
    }
    if log_name(v) == log_name(w) {
        lemma_log_name_parts(v);
        lemma_log_name_parts(w);
        lemma_parse_dec_chars_round_trip(v);
        lemma_parse_dec_chars_round_trip(w);
        assert(log_name(v).skip(8) == log_name(w).skip(8));
    }
}

/// Compares two string slices by contents.
pub fn str_eq(a: &str, b: &str) -> (r: bool)
    ensures
        r == (a@ == b@),
{
    let x = a.to_owned();
    let y = b.to_owned();
    x == y
}

pub fn make_version_name() -> (r: String)
    ensures
        r@ == version_name(),
{
    "version".to_owned()
}

pub fn make_staging_name() -> (r: String)
    ensures
        r@ == staging_name(),
{
    "new_version".to_owned()
}

pub fn make_checkpoint_name(v: u64) -> (r: String)
    ensures
        r@ == checkpoint_name(v),
{
    let mut s = "checkpoint.".to_owned();
    let d = u64_to_dec_string(v);
    s.append(d.as_str());
    s
}

pub fn make_log_name(v: u64) -> (r: String)
    ensures
        r@ == log_name(v),
{
    let mut s = "logfile.".to_owned();
    let d = u64_to_dec_string(v);
    s.append(d.as_str());
    s
}

/// Decides `outdated_name` for an arbitrary file name.
pub fn name_outdated(filename: &str, cur: u64) -> (r: bool)
    ensures
        r == outdated_name(filename@, cur),
{
    if str_eq(filename, "new_version") {
        return true;
    }
    let len = filename.unicode_len();
    // scan for the last dot
    let mut i: usize = len;
    let mut found = false;
    let mut dot: usize = 0;
    while i > 0 && !found
        invariant
            0 <= i <= len,
            len == filename@.len(),
            !found ==> forall|j: int| i <= j < len ==> filename@[j] != '.',
            found ==> 0 <= dot < len && filename@[dot as int] == '.' && forall|j: int|
                dot < j < len ==> filename@[j] != '.',
        decreases 2 * i + (if found { 0int } else { 1int }),
    {
        let c = filename.get_char(i - 1);
        if c == '.' {
            found = true;
            dot = i - 1;
        } else {
            i = i - 1;
        }
    }
    proof {
        lemma_last_dot_facts(filename@);
    }
    if !found {
        proof {
            if last_dot(filename@) >= 0 {
                assert(filename@[last_dot(filename@)] == '.');
            }
        }
        return false;
    }
    proof {
        lemma_last_dot_at(filename@, dot as int);
    }
    let base = filename.substring_char(0, dot);
    assert(base@ == filename@.take(dot as int));
    if !(str_eq(base, "checkpoint") || str_eq(base, "logfile")) {
        return false;
    }
    match parse_dec_chars_from(filename, dot + 1, len) {
        Some(w) => w < cur,
        None => false,
    }
}

} // verus!
