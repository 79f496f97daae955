//! What may be deleted once a version of the state is superseded for good.
//!
//! Blobs are deleted only after the state that no longer names them is the one
//! that the consensus store holds, and versions of the state only after a full
//! copy of a later one is written and named there.

use crate::model::BatchView;
use crate::state::State;
use vstd::prelude::*;

verus! {

/// Whether one of the batches names the part `key`.
pub open spec fn names_part(trace: Seq<BatchView>, key: Seq<char>) -> bool {
    exists|i: int, j: int|
        0 <= i < trace.len() && 0 <= j < trace[i].parts.len() && #[trigger] trace[i].parts[j]
            == key
}

/// Whether a key is among those of a list.
pub open spec fn lists_key(keys: Seq<String>, key: Seq<char>) -> bool {
    exists|i: int| 0 <= i < keys.len() && (#[trigger] keys[i])@ == key
}

/// Whether the trace of a state names the part `key`.
pub fn state_names_part(state: &State, key: &String) -> (named: bool)
    ensures
        named == names_part(state@.trace, key@),
{
    let n = state.trace_len();
    let mut i: usize = 0;
    while i < n
        invariant
            n == state@.trace.len(),
            i <= n,
            forall|a: int, b: int|
                0 <= a < i && 0 <= b < state@.trace[a].parts.len()
                    ==> #[trigger] state@.trace[a].parts[b] != key@,
        decreases n - i,
    {
        let batch = state.batch(i);
        let mut j: usize = 0;
        while j < batch.parts.len()
            invariant
                n == state@.trace.len(),
                i < n,
                batch@ == state@.trace[i as int],
                j <= batch.parts.len(),
                forall|b: int| 0 <= b < j ==> #[trigger] state@.trace[i as int].parts[b] != key@,
            decreases batch.parts.len() - j,
        {
            if batch.parts[j] == *key {
                assert(state@.trace[i as int].parts[j as int] == key@);
                return true;
            }
            j += 1;
        }
        i += 1;
    }
    false
}

/// The parts that an earlier version of the state names and a later one does
/// not: the blobs that nothing refers to once the later one is the head.
pub fn unreferenced_parts(earlier: &State, later: &State) -> (keys: Vec<String>)
    ensures
        forall|key: Seq<char>|
            #![trigger lists_key(keys@, key)]
            lists_key(keys@, key) <==> names_part(earlier@.trace, key) && !names_part(
                later@.trace,
                key,
            ),
{
    let mut keys: Vec<String> = Vec::new();
    let n = earlier.trace_len();
    let mut i: usize = 0;
    while i < n
        invariant
            n == earlier@.trace.len(),
            i <= n,
            forall|key: Seq<char>|
                #![trigger lists_key(keys@, key)]
                lists_key(keys@, key) <==> (exists|a: int, b: int|
                    0 <= a < i && 0 <= b < earlier@.trace[a].parts.len()
                        && #[trigger] earlier@.trace[a].parts[b] == key) && !names_part(
                    later@.trace,
                    key,
                ),
        decreases n - i,
    {
        let batch = earlier.batch(i);
        let mut j: usize = 0;
        while j < batch.parts.len()
            invariant
                n == earlier@.trace.len(),
                i < n,
                batch@ == earlier@.trace[i as int],
                j <= batch.parts.len(),
                forall|key: Seq<char>|
                    #![trigger lists_key(keys@, key)]
                    lists_key(keys@, key) <==> ((exists|a: int, b: int|
                        0 <= a < i && 0 <= b < earlier@.trace[a].parts.len()
                            && #[trigger] earlier@.trace[a].parts[b] == key) || (exists|b: int|
                        0 <= b < j && #[trigger] earlier@.trace[i as int].parts[b] == key))
                        && !names_part(later@.trace, key),
            decreases batch.parts.len() - j,
        {
            let part = &batch.parts[j];
            let ghost before = keys@;
            let ghost this = earlier@.trace[i as int].parts[j as int];
            assert(part@ == this);
            let gone = !state_names_part(later, part);
            if gone {
                keys.push(part.clone());
            }
            proof {
                assert forall|key: Seq<char>|
                    #![trigger lists_key(keys@, key)]
                    lists_key(keys@, key) <==> ((exists|a: int, b: int|
                        0 <= a < i && 0 <= b < earlier@.trace[a].parts.len()
                            && #[trigger] earlier@.trace[a].parts[b] == key) || (exists|b: int|
                        0 <= b < j + 1 && #[trigger] earlier@.trace[i as int].parts[b] == key))
                        && !names_part(later@.trace, key) by {
                    let in_before = lists_key(before, key);
                    if lists_key(keys@, key) {
                        let k = choose|k: int| 0 <= k < keys@.len() && (#[trigger] keys@[k])@ == key;
                        if k < before.len() {
                            assert(before[k]@ == key);
                            assert(in_before);
                            if exists|b: int|
                                0 <= b < j && #[trigger] earlier@.trace[i as int].parts[b] == key {
                                let b = choose|b: int|
                                    0 <= b < j && #[trigger] earlier@.trace[i as int].parts[b]
                                        == key;
                                assert(0 <= b < j + 1);
                            }
                        } else {
                            assert(key == this);
                            assert(earlier@.trace[i as int].parts[j as int] == key);
                        }
                    }
                    if ((exists|a: int, b: int|
                        0 <= a < i && 0 <= b < earlier@.trace[a].parts.len()
                            && #[trigger] earlier@.trace[a].parts[b] == key) || (exists|b: int|
                        0 <= b < j + 1 && #[trigger] earlier@.trace[i as int].parts[b] == key))
                        && !names_part(later@.trace, key) {
                        if exists|b: int|
                            0 <= b < j + 1 && #[trigger] earlier@.trace[i as int].parts[b] == key {
                            let b = choose|b: int|
                                0 <= b < j + 1 && #[trigger] earlier@.trace[i as int].parts[b]
                                    == key;
                            if b == j {
                                assert(gone);
                                assert(keys@[keys@.len() - 1]@ == key);
                            } else {
                                assert(in_before);
                            }
                        } else {
                            assert(in_before);
                        }
                        if in_before {
                            let k = choose|k: int|
                                0 <= k < before.len() && (#[trigger] before[k])@ == key;
                            assert(keys@[k]@ == key);
                        }
                    }
                }
            }
            j += 1;
        }
        proof {
            assert forall|key: Seq<char>|
                #![trigger lists_key(keys@, key)]
                lists_key(keys@, key) <==> (exists|a: int, b: int|
                    0 <= a < i + 1 && 0 <= b < earlier@.trace[a].parts.len()
                        && #[trigger] earlier@.trace[a].parts[b] == key) && !names_part(
                    later@.trace,
                    key,
                ) by {
                if lists_key(keys@, key) {
                    if exists|b: int|
                        0 <= b < j && #[trigger] earlier@.trace[i as int].parts[b] == key {
                        let b = choose|b: int|
                            0 <= b < j && #[trigger] earlier@.trace[i as int].parts[b] == key;
                        assert(0 <= i < i + 1 && earlier@.trace[i as int].parts[b] == key);
                    } else {
                        let (a, b) = choose|a: int, b: int|
                            0 <= a < i && 0 <= b < earlier@.trace[a].parts.len()
                                && #[trigger] earlier@.trace[a].parts[b] == key;
                        assert(0 <= a < i + 1);
                    }
                }
                if exists|a: int, b: int|
                    0 <= a < i + 1 && 0 <= b < earlier@.trace[a].parts.len()
                        && #[trigger] earlier@.trace[a].parts[b] == key {
                    let (a, b) = choose|a: int, b: int|
                        0 <= a < i + 1 && 0 <= b < earlier@.trace[a].parts.len()
                            && #[trigger] earlier@.trace[a].parts[b] == key;
                    if a == i {
                        assert(0 <= b < j && earlier@.trace[i as int].parts[b] == key);
                    }
                }
            }
        }
        i += 1;
    }
    keys
}

/// Whether the version `seqno` of the state may be deleted from the consensus
/// store, given the version of the latest full copy that the head names: the
/// versions before that copy may.
pub fn truncatable(seqno: u64, rollup_seqno: Option<u64>) -> (may: bool)
    ensures
        may == (rollup_seqno is Some && seqno < rollup_seqno->Some_0),
{
    match rollup_seqno {
        Some(rollup) => seqno < rollup,
        None => false,
    }
}

} // verus!
