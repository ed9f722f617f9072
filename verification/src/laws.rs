//! Crash-tolerance laws of the engine over the default format.
//!
//! These proof functions state, over the recovery function itself, what the
//! store guarantees about damaged directories.

use vstd::prelude::*;

use crate::engine::spec_recover;
use crate::json::{jf_log_complete, jf_parse_line, jf_parse_records, lemma_bad_tail, JsonFormat};
use crate::kv::KeyValueStore;
use crate::names::{checkpoint_name, log_name, lemma_checkpoint_name_parts,
    lemma_log_name_parts, lemma_numbered_name_injective, lemma_store_names, staging_name,
    version_name};

verus! {

/// Truncated-tail tolerance: if the current log file consists of a complete,
/// well-formed prefix followed by a torn fragment — no newline, not a
/// parseable record, the shape a crash mid-append leaves behind — then the
/// directory recovers exactly as if the fragment were not there: the records
/// of the prefix are replayed and the tail is ignored.
pub proof fn lemma_recover_ignores_torn_tail(
    d: Map<Seq<char>, Seq<u8>>,
    v: u64,
    lg: Seq<u8>,
    tail: Seq<u8>,
)
    requires
        d.contains_key(log_name(v)),
        d[log_name(v)] == lg + tail,
        jf_log_complete(lg),
        tail.len() > 0,
        forall|i: int| 0 <= i < tail.len() ==> tail[i] != 10,
        jf_parse_line(tail) is None,
    ensures
        spec_recover::<KeyValueStore, JsonFormat>(d) == spec_recover::<KeyValueStore, JsonFormat>(
            d.insert(log_name(v), lg),
        ),
{
    lemma_bad_tail(lg, tail);
    assert(jf_parse_records(lg + tail) =~= jf_parse_records(lg));
    let d2 = d.insert(log_name(v), lg);
    lemma_store_names(v, v);
    // the version pointer and staging files are not the log file, so the
    // recovered version is the same in both directories
    assert(d2.contains_key(version_name()) == d.contains_key(version_name()));
    assert(d2.contains_key(staging_name()) == d.contains_key(staging_name()));
    if d.contains_key(version_name()) {
        assert(d2[version_name()] == d[version_name()]);
    }
    if d.contains_key(staging_name()) {
        assert(d2[staging_name()] == d[staging_name()]);
    }
    match crate::engine::effective_version_bytes(d) {
        None => {},
        Some(vb) => {
            match crate::num::parse_dec_bytes(vb) {
                None => {},
                Some(w) => {
                    // checkpoints are never log files, and logs of different
                    // versions have different names
                    lemma_store_names(w, w);
                    assert(checkpoint_name(w) != log_name(v)) by {
                        lemma_checkpoint_name_parts(w);
                        lemma_log_name_parts(v);
                        assert(checkpoint_name(w)[0] == 'c' && log_name(v)[0] == 'l');
                    }
                    assert(d2.contains_key(checkpoint_name(w)) == d.contains_key(
                        checkpoint_name(w),
                    ));
                    if d.contains_key(checkpoint_name(w)) {
                        assert(d2[checkpoint_name(w)] == d[checkpoint_name(w)]);
                    }
                    if w != v {
                        lemma_numbered_name_injective(v, w);
                        if d.contains_key(log_name(w)) {
                            assert(d2[log_name(w)] == d[log_name(w)]);
                        }
                    }
                },
            }
        },
    }
}

} // verus!
