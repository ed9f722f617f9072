//! The default serialization strategy: JSON, one update record per line.
//!
//! A checkpoint file is one JSON array of key/value pairs.  A log file is a
//! sequence of lines, each the JSON encoding of one update record followed by
//! a newline.  JSON escapes control characters inside strings, so a record's
//! encoding never contains a raw newline byte: the format is self-delimiting,
//! append-friendly, and a torn final record only truncates parsing.
//!
//! The JSON encoding itself is done by serde_json behind the four trusted
//! wrappers below; the line framing around it is verified.

use vstd::prelude::*;

use crate::errors::StoreError;
use crate::kv::{KeyValueStore, KeyValueStoreUpdateParams, KvPairs, KvUpdateOp};
use crate::names::str_eq;
use crate::traits::DataFormat;

verus! {

/// The bytes serde_json produces for a list of string pairs.
pub uninterp spec fn json_of_pairs(ps: KvPairs) -> Seq<u8>;

/// The pairs serde_json parses back out of a checkpoint file, if any.
pub uninterp spec fn json_pairs_of(b: Seq<u8>) -> Option<KvPairs>;

/// The bytes serde_json produces for one record triple.
pub uninterp spec fn json_of_record(t: (Seq<char>, Seq<char>, Seq<char>)) -> Seq<u8>;

/// The record triple serde_json parses back out of one log line, if any.
pub uninterp spec fn json_record_of(b: Seq<u8>) -> Option<(Seq<char>, Seq<char>, Seq<char>)>;

/// Relies on serde_json::to_vec for `Vec<(String, String)>`: it cannot fail
/// for this type (its serializers for sequences, tuples and strings report no
/// errors), it is a function of the pairs alone, its output is nonempty, and
/// serde_json::from_slice parses the output back to equal pairs.
#[verifier::external_body]
fn json_encode_pairs(v: &Vec<(String, String)>) -> (r: Vec<u8>)
    ensures
        r@ == json_of_pairs(v.deep_view()),
        json_pairs_of(r@) == Some(v.deep_view()),
        r@.len() > 0,
{
    serde_json::to_vec(v).expect("serializing string pairs cannot fail")
}

/// Relies on serde_json::from_slice for `Vec<(String, String)>`: what a byte
/// string parses to is a function of the bytes alone.
#[verifier::external_body]
fn json_decode_pairs(b: &[u8]) -> (r: Option<Vec<(String, String)>>)
    ensures
        (match r {
            Some(p) => json_pairs_of(b@) == Some(p.deep_view()),
            None => json_pairs_of(b@) is None,
        }),
{
    serde_json::from_slice::<Vec<(String, String)>>(b).ok()
}

/// Relies on serde_json::to_vec for `(String, String, String)`: it cannot
/// fail for this type, it is a function of the triple alone, its output is
/// nonempty and free of raw newline bytes (serde_json escapes all control
/// characters inside strings, and its structural bytes are punctuation), and
/// serde_json::from_slice parses the output back to an equal triple.
#[verifier::external_body]
fn json_encode_record(t: &(String, String, String)) -> (r: Vec<u8>)
    ensures
        r@ == json_of_record(t.deep_view()),
        json_record_of(r@) == Some(t.deep_view()),
        r@.len() > 0,
        forall|i: int| 0 <= i < r@.len() ==> r@[i] != 10u8,
{
    serde_json::to_vec(t).expect("serializing a string triple cannot fail")
}

/// Relies on serde_json::from_slice for `(String, String, String)`: what a
/// byte string parses to is a function of the bytes alone.
#[verifier::external_body]
fn json_decode_record(b: &[u8]) -> (r: Option<(String, String, String)>)
    ensures
        (match r {
            Some(t) => json_record_of(b@) == Some(t.deep_view()),
            None => json_record_of(b@) is None,
        }),
{
    serde_json::from_slice::<(String, String, String)>(b).ok()
}

/// The triple a record is written as: operation name, key, value.
pub open spec fn op_to_triple(a: KvUpdateOp) -> (Seq<char>, Seq<char>, Seq<char>) {
    match a {
        KvUpdateOp::Insert(k, v) => ("insert"@, k, v),
        KvUpdateOp::InsertWithCheck(k, v) => ("insert_with_check"@, k, v),
    }
}

/// The operation a parsed triple denotes, if its name is known.
pub open spec fn op_of_triple(t: (Seq<char>, Seq<char>, Seq<char>)) -> Option<KvUpdateOp> {
    if t.0 == "insert"@ {
        Some(KvUpdateOp::Insert(t.1, t.2))
    } else if t.0 == "insert_with_check"@ {
        Some(KvUpdateOp::InsertWithCheck(t.1, t.2))
    } else {
        None
    }
}

proof fn lemma_op_triple_round(a: KvUpdateOp)
    ensures
        op_of_triple(op_to_triple(a)) == Some(a),
{
    reveal_strlit("insert");
    reveal_strlit("insert_with_check");
    assert("insert"@.len() != "insert_with_check"@.len());
}

/// The index of the first newline byte, or `-1` if there is none.
pub open spec fn find_nl(b: Seq<u8>) -> int
    decreases b.len(),
{
    if b.len() == 0 {
        -1
    } else if b[0] == 10 {
        0
    } else {
        let r = find_nl(b.skip(1));
        if r < 0 {
            -1
        } else {
            1 + r
        }
    }
}

proof fn lemma_find_nl_first(b: Seq<u8>)
    ensures
        -1 <= find_nl(b) < b.len(),
        find_nl(b) >= 0 ==> b[find_nl(b)] == 10,
        forall|k: int| 0 <= k < find_nl(b) ==> b[k] != 10,
        find_nl(b) == -1 ==> forall|k: int| 0 <= k < b.len() ==> b[k] != 10,
    decreases b.len(),
{
    if b.len() > 0 && b[0] != 10 {
        lemma_find_nl_first(b.skip(1));
        assert(forall|k: int| 0 <= k < b.len() - 1 ==> b.skip(1)[k] == #[trigger] b[k + 1]);
        assert forall|k: int| 0 <= k < find_nl(b) implies b[k] != 10 by {
            if k > 0 {
                assert(b.skip(1)[k - 1] != 10);
            }
        }
        if find_nl(b) == -1 {
            assert forall|k: int| 0 <= k < b.len() implies b[k] != 10 by {
                if k > 0 {
                    assert(b.skip(1)[k - 1] != 10);
                }
            }
        }
    }
}

/// Pins `find_nl` down from a witness: a newline at `j` with none before it.
proof fn lemma_find_nl_at(b: Seq<u8>, j: int)
    requires
        0 <= j < b.len(),
        b[j] == 10,
        forall|k: int| 0 <= k < j ==> b[k] != 10,
    ensures
        find_nl(b) == j,
    decreases j,
{
    if j > 0 {
        assert(forall|k: int| 0 <= k < b.len() - 1 ==> b.skip(1)[k] == b[k + 1]);
        lemma_find_nl_at(b.skip(1), j - 1);
    }
}

/// What one log line parses to: a record triple with a known operation name.
pub open spec fn jf_parse_line(line: Seq<u8>) -> Option<KvUpdateOp> {
    match json_record_of(line) {
        Some(t) => op_of_triple(t),
        None => None,
    }
}

/// The records of a log file, line by line: empty lines are skipped, and the
/// first malformed line ends parsing, keeping what came before it.  A final
/// fragment without a newline is parsed as a line too.
pub open spec fn jf_parse_records(b: Seq<u8>) -> Seq<KvUpdateOp>
    decreases b.len(),
    via jf_parse_records_decreases
{
    let i = find_nl(b);
    if i < 0 {
        if b.len() == 0 {
            Seq::empty()
        } else {
            match jf_parse_line(b) {
                Some(op) => seq![op],
                None => Seq::empty(),
            }
        }
    } else {
        let line = b.take(i);
        let rest = b.skip(i + 1);
        if line.len() == 0 {
            jf_parse_records(rest)
        } else {
            match jf_parse_line(line) {
                Some(op) => seq![op] + jf_parse_records(rest),
                None => Seq::empty(),
            }
        }
    }
}

#[via_fn]
proof fn jf_parse_records_decreases(b: Seq<u8>) {
    lemma_find_nl_first(b);
}

/// Whether every byte of a log file belongs to a well-formed, newline
/// terminated record or empty line.
pub open spec fn jf_log_complete(b: Seq<u8>) -> bool
    decreases b.len(),
    via jf_log_complete_decreases
{
    let i = find_nl(b);
    if i < 0 {
        b.len() == 0
    } else {
        let line = b.take(i);
        (line.len() == 0 || jf_parse_line(line) is Some) && jf_log_complete(b.skip(i + 1))
    }
}

#[via_fn]
proof fn jf_log_complete_decreases(b: Seq<u8>) {
    lemma_find_nl_first(b);
}

/// Appending one well-formed record line to a complete log extends its
/// records by exactly that one, and keeps the log complete.
pub proof fn lemma_append_record(lg: Seq<u8>, json: Seq<u8>, op: KvUpdateOp)
    requires
        jf_log_complete(lg),
        json.len() > 0,
        forall|i: int| 0 <= i < json.len() ==> json[i] != 10,
        jf_parse_line(json) == Some(op),
    ensures
        jf_parse_records(lg + (json + seq![10u8])) =~= jf_parse_records(lg).push(op),
        jf_log_complete(lg + (json + seq![10u8])),
    decreases lg.len(),
{
    let rec = json + seq![10u8];
    let whole = lg + rec;
    let i = find_nl(lg);
    lemma_find_nl_first(lg);
    if i < 0 {
        assert(lg.len() == 0);
        assert(whole =~= rec);
        assert(forall|k: int| 0 <= k < json.len() ==> rec[k] == json[k]);
        assert(rec[json.len() as int] == 10);
        lemma_find_nl_at(rec, json.len() as int);
        assert(rec.take(json.len() as int) =~= json);
        assert(rec.skip(json.len() as int + 1) =~= Seq::<u8>::empty());
        assert(jf_parse_records(Seq::<u8>::empty()) =~= Seq::<KvUpdateOp>::empty());
        assert(jf_parse_records(whole) =~= seq![op]);
        assert(jf_parse_records(lg) =~= Seq::<KvUpdateOp>::empty());
        assert(jf_log_complete(Seq::<u8>::empty()));
    } else {
        assert(forall|k: int| 0 <= k < lg.len() ==> whole[k] == lg[k]);
        lemma_find_nl_at(whole, i);
        assert(whole.take(i) =~= lg.take(i));
        assert(whole.skip(i + 1) =~= lg.skip(i + 1) + rec);
        lemma_append_record(lg.skip(i + 1), json, op);
        let line = lg.take(i);
        if line.len() == 0 {
            assert(jf_parse_records(whole) =~= jf_parse_records(lg.skip(i + 1) + rec));
            assert(jf_parse_records(lg) =~= jf_parse_records(lg.skip(i + 1)));
        } else {
            let op0 = jf_parse_line(line)->0;
            assert(jf_parse_records(whole) =~= seq![op0] + jf_parse_records(lg.skip(i + 1) + rec));
            assert(jf_parse_records(lg) =~= seq![op0] + jf_parse_records(lg.skip(i + 1)));
            assert(seq![op0] + jf_parse_records(lg.skip(i + 1)).push(op) =~= (seq![op0]
                + jf_parse_records(lg.skip(i + 1))).push(op));
        }
    }
}

/// A trailing fragment that holds no newline and parses to no record does
/// not change what a complete log parses to: replay stops at the torn tail
/// and keeps everything before it.
pub proof fn lemma_bad_tail(lg: Seq<u8>, tail: Seq<u8>)
    requires
        jf_log_complete(lg),
        tail.len() > 0,
        forall|i: int| 0 <= i < tail.len() ==> tail[i] != 10,
        jf_parse_line(tail) is None,
    ensures
        jf_parse_records(lg + tail) =~= jf_parse_records(lg),
        !jf_log_complete(lg + tail),
    decreases lg.len(),
{
    let whole = lg + tail;
    let i = find_nl(lg);
    lemma_find_nl_first(lg);
    if i < 0 {
        assert(lg.len() == 0);
        assert(whole =~= tail);
        lemma_find_nl_first(tail);
        if find_nl(tail) >= 0 {
            assert(tail[find_nl(tail)] == 10);
        }
        assert(jf_parse_records(whole) =~= Seq::<KvUpdateOp>::empty());
        assert(jf_parse_records(lg) =~= Seq::<KvUpdateOp>::empty());
    } else {
        assert(forall|k: int| 0 <= k < lg.len() ==> whole[k] == lg[k]);
        lemma_find_nl_at(whole, i);
        assert(whole.take(i) =~= lg.take(i));
        assert(whole.skip(i + 1) =~= lg.skip(i + 1) + tail);
        lemma_bad_tail(lg.skip(i + 1), tail);
        let line = lg.take(i);
        if line.len() == 0 {
        } else {
            let op0 = jf_parse_line(line)->0;
            assert(jf_parse_records(whole) =~= seq![op0] + jf_parse_records(lg.skip(i + 1) + tail));
            assert(jf_parse_records(lg) =~= seq![op0] + jf_parse_records(lg.skip(i + 1)));
        }
    }
}

/// The triple one update record is written as.
fn params_to_triple(p: &KeyValueStoreUpdateParams) -> (t: (String, String, String))
    ensures
        t.deep_view() == op_to_triple(p@),
{
    match p {
        KeyValueStoreUpdateParams::Insert(k, v) => ("insert".to_owned(), k.clone(), v.clone()),
        KeyValueStoreUpdateParams::InsertWithCheck(k, v) => (
            "insert_with_check".to_owned(),
            k.clone(),
            v.clone(),
        ),
    }
}

/// The update record a parsed triple denotes, if its operation name is known.
fn triple_to_params(t: (String, String, String)) -> (r: Option<KeyValueStoreUpdateParams>)
    ensures
        (match r {
            Some(p) => op_of_triple(t.deep_view()) == Some(p@),
            None => op_of_triple(t.deep_view()) is None,
        }),
{
    if str_eq(t.0.as_str(), "insert") {
        Some(KeyValueStoreUpdateParams::Insert(t.1, t.2))
    } else if str_eq(t.0.as_str(), "insert_with_check") {
        Some(KeyValueStoreUpdateParams::InsertWithCheck(t.1, t.2))
    } else {
        None
    }
}

/// Parses one log line into an update record.
fn parse_line(line: &[u8]) -> (r: Option<KeyValueStoreUpdateParams>)
    ensures
        (match r {
            Some(p) => jf_parse_line(line@) == Some(p@),
            None => jf_parse_line(line@) is None,
        }),
{
    match json_decode_record(line) {
        Some(t) => triple_to_params(t),
        None => None,
    }
}

/// The default serialization strategy: JSON checkpoints and JSON-line logs.
#[derive(Debug)]
pub struct JsonFormat;

impl DataFormat for JsonFormat {
    type Data = KeyValueStore;

    open spec fn data_ok(s: KvPairs) -> bool {
        true
    }

    open spec fn spec_data_bytes(s: KvPairs) -> Seq<u8> {
        json_of_pairs(s)
    }

    open spec fn spec_parse_data(b: Seq<u8>) -> Option<KvPairs> {
        json_pairs_of(b)
    }

    open spec fn record_ok(a: KvUpdateOp) -> bool {
        true
    }

    open spec fn spec_record_bytes(a: KvUpdateOp) -> Seq<u8> {
        json_of_record(op_to_triple(a)) + seq![10u8]
    }

    open spec fn spec_parse_records(b: Seq<u8>) -> Seq<KvUpdateOp> {
        jf_parse_records(b)
    }

    open spec fn log_complete(b: Seq<u8>) -> bool {
        jf_log_complete(b)
    }

    proof fn lemma_empty_log() {
        assert(find_nl(Seq::<u8>::empty()) == -1);
        assert(jf_parse_records(Seq::<u8>::empty()) =~= Seq::<KvUpdateOp>::empty());
        assert(jf_log_complete(Seq::<u8>::empty()));
    }

    fn new() -> Self {
        JsonFormat
    }

    fn serialize_data(&self, data: &KeyValueStore) -> (r: Result<Vec<u8>, StoreError>) {
        Ok(json_encode_pairs(data.pairs()))
    }

    fn deserialize_data(&self, input: &[u8]) -> (r: Result<KeyValueStore, StoreError>) {
        match json_decode_pairs(input) {
            Some(p) => Ok(KeyValueStore::from_pairs(p)),
            None => Err(StoreError::CorruptCheckpoint),
        }
    }

    fn serialize_params(&self, params: &KeyValueStoreUpdateParams) -> (r: Result<
        Vec<u8>,
        StoreError,
    >) {
        let t = params_to_triple(params);
        let mut b = json_encode_record(&t);
        let ghost json = b@;
        b.push(10u8);
        proof {
            lemma_op_triple_round(params@);
            assert(jf_parse_line(json) == Some(params@));
            assert(b@ =~= json + seq![10u8]);
            assert forall|lg: Seq<u8>| #[trigger] jf_log_complete(lg) implies jf_parse_records(
                lg + b@,
            ) =~= jf_parse_records(lg).push(params@) && jf_log_complete(lg + b@) by {
                lemma_append_record(lg, json, params@);
                assert(lg + b@ =~= lg + (json + seq![10u8]));
            }
        }
        Ok(b)
    }

    fn deserialize_params(&self, input: &[u8]) -> (r: (Vec<KeyValueStoreUpdateParams>, bool)) {
        let mut out: Vec<KeyValueStoreUpdateParams> = Vec::new();
        let mut pos: usize = 0;
        let len = input.len();
        proof {
            assert(input@.skip(0) =~= input@);
            assert(out@.map_values(|a: KeyValueStoreUpdateParams| a@) =~= Seq::<
                KvUpdateOp,
            >::empty());
            assert(out@.map_values(|a: KeyValueStoreUpdateParams| a@) + jf_parse_records(input@)
                =~= jf_parse_records(input@));
        }
        loop
            invariant
                0 <= pos <= len,
                len == input@.len(),
                jf_parse_records(input@) =~= out@.map_values(|a: KeyValueStoreUpdateParams| a@)
                    + jf_parse_records(input@.skip(pos as int)),
                jf_log_complete(input@) == jf_log_complete(input@.skip(pos as int)),
            decreases len - pos,
        {
            let ghost rest = input@.skip(pos as int);
            let ghost outv = out@.map_values(|a: KeyValueStoreUpdateParams| a@);
            if pos == len {
                proof {
                    assert(rest =~= Seq::<u8>::empty());
                    assert(jf_parse_records(Seq::<u8>::empty()) =~= Seq::<KvUpdateOp>::empty());
                    assert(jf_log_complete(Seq::<u8>::empty()));
                    assert(outv + jf_parse_records(rest) =~= outv);
                }
                return (out, true);
            }
            let mut j: usize = pos;
            while j < len && input[j] != 10
                invariant
                    pos <= j <= len,
                    len == input@.len(),
                    forall|k: int| pos <= k < j ==> input@[k] != 10,
                decreases len - j,
            {
                j = j + 1;
            }
            if j == len {
                // no newline in the rest: a final fragment
                proof {
                    lemma_find_nl_first(rest);
                    if find_nl(rest) >= 0 {
                        assert(rest[find_nl(rest)] == input@[find_nl(rest) + pos]);
                    }
                    assert(find_nl(rest) == -1);
                }
                let line = vstd::slice::slice_subrange(input, pos, len);
                proof {
                    assert(line@ =~= rest);
                }
                match parse_line(line) {
                    Some(op) => {
                        proof {
                            assert(jf_parse_records(rest) =~= seq![op@]);
                            assert(outv + seq![op@] =~= out@.push(op).map_values(
                                |a: KeyValueStoreUpdateParams| a@,
                            ));
                        }
                        out.push(op);
                        return (out, false);
                    },
                    None => {
                        proof {
                            assert(jf_parse_records(rest) =~= Seq::<KvUpdateOp>::empty());
                            assert(outv + jf_parse_records(rest) =~= outv);
                            assert(!jf_log_complete(rest));
                        }
                        return (out, false);
                    },
                }
            } else {
                proof {
                    assert(input@[j as int] == 10);
                    assert(rest[j - pos] == input@[j as int]);
                    assert forall|k: int| 0 <= k < j - pos implies rest[k] != 10 by {
                        assert(rest[k] == input@[k + pos]);
                    }
                    lemma_find_nl_at(rest, j - pos);
                    assert(rest.skip(j - pos + 1) =~= input@.skip(j + 1));
                }
                if j > pos {
                    let line = vstd::slice::slice_subrange(input, pos, j);
                    proof {
                        assert(line@ =~= rest.take(j - pos));
                    }
                    match parse_line(line) {
                        Some(op) => {
                            proof {
                                assert(jf_parse_records(rest) =~= seq![op@] + jf_parse_records(
                                    input@.skip(j + 1),
                                ));
                                assert(outv + (seq![op@] + jf_parse_records(input@.skip(j + 1)))
                                    =~= (outv + seq![op@]) + jf_parse_records(input@.skip(j + 1)));
                                assert(outv + seq![op@] =~= out@.push(op).map_values(
                                    |a: KeyValueStoreUpdateParams| a@,
                                ));
                            }
                            out.push(op);
                        },
                        None => {
                            proof {
                                assert(jf_parse_records(rest) =~= Seq::<KvUpdateOp>::empty());
                                assert(outv + jf_parse_records(rest) =~= outv);
                                assert(!jf_log_complete(rest));
                            }
                            return (out, false);
                        },
                    }
                } else {
                    proof {
                        assert(rest.take(0).len() == 0);
                        assert(jf_parse_records(rest) =~= jf_parse_records(input@.skip(j + 1)));
                        assert(jf_log_complete(rest) == jf_log_complete(input@.skip(j + 1)));
                    }
                }
                pos = j + 1;
            }
        }
    }
}

} // verus!
