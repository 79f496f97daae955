//! What a reader makes of the updates that it has fetched.
//!
//! A snapshot as of a time shows the updates at or before that time, all of them
//! moved to that time, and consolidated: updates of the same key and value are
//! added up, and those that add up to nothing are left out. Updates are
//! consolidated by `differential_dataflow`.

use vstd::prelude::*;

verus! {

/// One update of a shard: a key and a value, both encoded, the time of the
/// update, and by how much it changes the count of the key and value.
#[derive(Debug, Clone, PartialEq, Eq, PartialOrd, Ord)]
pub struct Update {
    pub key: Vec<u8>,
    pub val: Vec<u8>,
    pub ts: u64,
    pub diff: i64,
}

impl View for Update {
    type V = (Seq<u8>, Seq<u8>, u64, i64);

    open spec fn view(&self) -> (Seq<u8>, Seq<u8>, u64, i64) {
        (self.key@, self.val@, self.ts, self.diff)
    }
}

/// The mathematical value of a list of updates.
pub open spec fn updates_view(updates: Seq<Update>) -> Seq<(Seq<u8>, Seq<u8>, u64, i64)> {
    updates.map_values(|u: Update| u@)
}

/// What `differential_dataflow::consolidation::consolidate_updates` makes of a
/// list of updates.
pub uninterp spec fn consolidated(updates: Seq<(Seq<u8>, Seq<u8>, u64, i64)>) -> Seq<
    (Seq<u8>, Seq<u8>, u64, i64),
>;

/// The diffs of the updates of one key and value at one time, added up.
pub open spec fn accumulated(
    updates: Seq<(Seq<u8>, Seq<u8>, u64, i64)>,
    key: Seq<u8>,
    val: Seq<u8>,
    ts: u64,
) -> int
    decreases updates.len(),
{
    if updates.len() == 0 {
        0
    } else {
        accumulated(updates.drop_last(), key, val, ts) + (if updates.last().0 == key
            && updates.last().1 == val && updates.last().2 == ts {
            updates.last().3 as int
        } else {
            0
        })
    }
}

/// The diffs of the updates of one key and value at or before a time, added up.
pub open spec fn accumulated_up_to(
    updates: Seq<(Seq<u8>, Seq<u8>, u64, i64)>,
    key: Seq<u8>,
    val: Seq<u8>,
    as_of: u64,
) -> int
    decreases updates.len(),
{
    if updates.len() == 0 {
        0
    } else {
        accumulated_up_to(updates.drop_last(), key, val, as_of) + (if updates.last().0 == key
            && updates.last().1 == val && updates.last().2 <= as_of {
            updates.last().3 as int
        } else {
            0
        })
    }
}

/// The sizes of the diffs of the updates, added up.
pub open spec fn magnitude(updates: Seq<(Seq<u8>, Seq<u8>, u64, i64)>) -> int
    decreases updates.len(),
{
    if updates.len() == 0 {
        0
    } else {
        magnitude(updates.drop_last()) + (if updates.last().3 >= 0 {
            updates.last().3 as int
        } else {
            -(updates.last().3 as int)
        })
    }
}

/// The updates at or before `as_of`, each moved to `as_of`.
pub open spec fn advanced(updates: Seq<(Seq<u8>, Seq<u8>, u64, i64)>, as_of: u64) -> Seq<
    (Seq<u8>, Seq<u8>, u64, i64),
>
    decreases updates.len(),
{
    if updates.len() == 0 {
        Seq::empty()
    } else if updates.last().2 <= as_of {
        advanced(updates.drop_last(), as_of).push(
            (updates.last().0, updates.last().1, as_of, updates.last().3),
        )
    } else {
        advanced(updates.drop_last(), as_of)
    }
}

/// No key and value occurs twice at one time.
pub open spec fn each_once(updates: Seq<(Seq<u8>, Seq<u8>, u64, i64)>) -> bool {
    forall|i: int, j: int|
        0 <= i < j < updates.len() ==> !(updates[i].0 == updates[j].0 && updates[i].1
            == updates[j].1 && updates[i].2 == updates[j].2)
}

/// Calls `differential_dataflow::consolidation::consolidate_updates` on the
/// updates as `((key, val), ts, diff)`.
///
/// Trusted: the result is the one named [`consolidated`], a function of the
/// updates alone. For each key, value and time its diffs add up to what those
/// of the updates add up to; no diff in it is zero; and no key and value occurs
/// twice at one time. Diffs are added with `+=`, which panics or wraps where a
/// sum does not fit: the sizes of the diffs together have to fit.
#[verifier::external_body]
pub(crate) fn consolidate_updates(updates: Vec<Update>) -> (r: Vec<Update>)
    requires
        magnitude(updates_view(updates@)) <= i64::MAX,
    ensures
        updates_view(r@) == consolidated(updates_view(updates@)),
        forall|key: Seq<u8>, val: Seq<u8>, ts: u64|
            #![trigger accumulated(updates_view(r@), key, val, ts)]
            accumulated(updates_view(r@), key, val, ts) == accumulated(
                updates_view(updates@),
                key,
                val,
                ts,
            ),
        forall|i: int| 0 <= i < r@.len() ==> (#[trigger] r@[i]).diff != 0,
        each_once(updates_view(r@)),
{
    let mut triples: Vec<((Vec<u8>, Vec<u8>), u64, i64)> =
        updates.into_iter().map(|u| ((u.key, u.val), u.ts, u.diff)).collect();
    differential_dataflow::consolidation::consolidate_updates(&mut triples);
    triples.into_iter().map(|((key, val), ts, diff)| Update { key, val, ts, diff }).collect()
}

/// Moving updates to a time makes the sizes of their diffs no greater.
pub proof fn lemma_advanced_magnitude(updates: Seq<(Seq<u8>, Seq<u8>, u64, i64)>, as_of: u64)
    ensures
        0 <= magnitude(advanced(updates, as_of)) <= magnitude(updates),
    decreases updates.len(),
{
    if updates.len() > 0 {
        lemma_advanced_magnitude(updates.drop_last(), as_of);
        if updates.last().2 <= as_of {
            let moved = (updates.last().0, updates.last().1, as_of, updates.last().3);
            let rest = advanced(updates.drop_last(), as_of);
            assert(rest.push(moved).drop_last() =~= rest);
            assert(rest.push(moved).last() == moved);
        }
    }
}

/// The updates that were moved to a time add up, at that time, to what the
/// updates at or before it add up to, and to nothing at any other time.
pub proof fn lemma_advanced_accumulated(
    updates: Seq<(Seq<u8>, Seq<u8>, u64, i64)>,
    as_of: u64,
    key: Seq<u8>,
    val: Seq<u8>,
    ts: u64,
)
    ensures
        accumulated(advanced(updates, as_of), key, val, ts) == (if ts == as_of {
            accumulated_up_to(updates, key, val, as_of)
        } else {
            0
        }),
    decreases updates.len(),
{
    if updates.len() > 0 {
        lemma_advanced_accumulated(updates.drop_last(), as_of, key, val, ts);
        if updates.last().2 <= as_of {
            let moved = (updates.last().0, updates.last().1, as_of, updates.last().3);
            let rest = advanced(updates.drop_last(), as_of);
            assert(rest.push(moved).drop_last() =~= rest);
            assert(rest.push(moved).last() == moved);
        }
    }
}

/// Where no key and value occurs twice at one time, the diffs of an update's
/// key, value and time add up to the diff of that update.
pub proof fn lemma_each_once_accumulated(updates: Seq<(Seq<u8>, Seq<u8>, u64, i64)>, i: int)
    requires
        each_once(updates),
        0 <= i < updates.len(),
    ensures
        accumulated(updates, updates[i].0, updates[i].1, updates[i].2) == updates[i].3,
    decreases updates.len(),
{
    let front = updates.drop_last();
    let n = updates.len() - 1;
    assert forall|a: int, b: int| 0 <= a < b < front.len() implies !(front[a].0 == front[b].0
        && front[a].1 == front[b].1 && front[a].2 == front[b].2) by {
        assert(front[a] == updates[a] && front[b] == updates[b]);
    }
    if i < n {
        assert(front[i] == updates[i]);
        lemma_each_once_accumulated(front, i);
    } else {
        lemma_absent_accumulated(front, updates[i].0, updates[i].1, updates[i].2);
    }
}

/// The diffs of a key, value and time that do not occur add up to nothing.
proof fn lemma_absent_accumulated(
    updates: Seq<(Seq<u8>, Seq<u8>, u64, i64)>,
    key: Seq<u8>,
    val: Seq<u8>,
    ts: u64,
)
    requires
        forall|a: int|
            0 <= a < updates.len() ==> !((#[trigger] updates[a]).0 == key && updates[a].1 == val
                && updates[a].2 == ts),
    ensures
        accumulated(updates, key, val, ts) == 0,
    decreases updates.len(),
{
    if updates.len() > 0 {
        assert forall|a: int| 0 <= a < updates.drop_last().len() implies !((
        #[trigger] updates.drop_last()[a]).0 == key && updates.drop_last()[a].1 == val
            && updates.drop_last()[a].2 == ts) by {
            assert(updates.drop_last()[a] == updates[a]);
        }
        lemma_absent_accumulated(updates.drop_last(), key, val, ts);
        assert(updates.last() == updates[updates.len() - 1]);
    }
}

/// Whether the sizes of the diffs of the updates together fit.
pub fn magnitude_fits(updates: &Vec<Update>) -> (fits: bool)
    ensures
        fits == (magnitude(updates_view(updates@)) <= i64::MAX),
{
    let ghost views = updates_view(updates@);
    let mut total: u64 = 0;
    let mut i: usize = 0;
    while i < updates.len()
        invariant
            i <= updates.len(),
            views == updates_view(updates@),
            total == magnitude(views.take(i as int)),
            total <= i64::MAX,
        decreases updates.len() - i,
    {
        let diff = updates[i].diff;
        let size: u64 = if diff >= 0 {
            diff as u64
        } else if diff == i64::MIN {
            9_223_372_036_854_775_808u64
        } else {
            (-diff) as u64
        };
        proof {
            assert(views.take(i + 1).drop_last() =~= views.take(i as int));
            assert(views.take(i + 1).last() == updates@[i as int]@);
            lemma_magnitude_grows(views, i + 1);
        }
        if size > 9_223_372_036_854_775_807u64 - total {
            return false;
        }
        total = total + size;
        i += 1;
    }
    proof {
        assert(views.take(i as int) =~= views);
    }
    true
}

/// The first updates have diffs of no greater size than all of them.
proof fn lemma_magnitude_grows(updates: Seq<(Seq<u8>, Seq<u8>, u64, i64)>, n: int)
    requires
        0 <= n <= updates.len(),
    ensures
        0 <= magnitude(updates.take(n)) <= magnitude(updates),
    decreases updates.len() - n,
{
    if n == updates.len() {
        assert(updates.take(n) =~= updates);
        lemma_advanced_magnitude(updates, 0);
    } else {
        lemma_magnitude_grows(updates, n + 1);
        assert(updates.take(n + 1).drop_last() =~= updates.take(n));
        lemma_advanced_magnitude(updates.take(n), 0);
    }
}

/// What a snapshot as of `as_of` shows of the updates that were written: those
/// at or before `as_of`, moved to `as_of` and consolidated.
///
/// For each key and value the snapshot holds at most one update, at `as_of`,
/// whose diff is what the diffs of the key and value at or before `as_of` add
/// up to; a key and value whose diffs add up to nothing is not in it.
pub fn snapshot_updates(written: &Vec<Update>, as_of: u64) -> (shown: Vec<Update>)
    requires
        magnitude(updates_view(written@)) <= i64::MAX,
    ensures
        updates_view(shown@) == consolidated(advanced(updates_view(written@), as_of)),
        forall|i: int| 0 <= i < shown@.len() ==> (#[trigger] shown@[i]).ts == as_of,
        forall|i: int|
            0 <= i < shown@.len() ==> (#[trigger] shown@[i]).diff != 0 && shown@[i].diff
                == accumulated_up_to(
                updates_view(written@),
                shown@[i].key@,
                shown@[i].val@,
                as_of,
            ),
        forall|key: Seq<u8>, val: Seq<u8>|
            #![trigger accumulated(updates_view(shown@), key, val, as_of)]
            accumulated(updates_view(shown@), key, val, as_of) == accumulated_up_to(
                updates_view(written@),
                key,
                val,
                as_of,
            ),
        each_once(updates_view(shown@)),
{
    let ghost views = updates_view(written@);
    let mut selected: Vec<Update> = Vec::new();
    let mut i: usize = 0;
    while i < written.len()
        invariant
            i <= written.len(),
            views == updates_view(written@),
            updates_view(selected@) == advanced(views.take(i as int), as_of),
        decreases written.len() - i,
    {
        let update = &written[i];
        let ghost before = updates_view(selected@);
        proof {
            assert(views.take(i + 1).drop_last() =~= views.take(i as int));
            assert(views.take(i + 1).last() == update@);
        }
        if update.ts <= as_of {
            selected.push(
                Update { key: update.key.clone(), val: update.val.clone(), ts: as_of, diff: update.diff },
            );
            proof {
                assert(updates_view(selected@) =~= before.push(
                    (update.key@, update.val@, as_of, update.diff),
                ));
            }
        }
        i += 1;
    }
    proof {
        assert(views.take(i as int) =~= views);
        lemma_advanced_magnitude(views, as_of);
    }
    let shown = consolidate_updates(selected);
    proof {
        let out = updates_view(shown@);
        assert forall|key: Seq<u8>, val: Seq<u8>|
            #![trigger accumulated(out, key, val, as_of)]
            accumulated(out, key, val, as_of) == accumulated_up_to(views, key, val, as_of) by {
            lemma_advanced_accumulated(views, as_of, key, val, as_of);
        }
        assert forall|i: int| 0 <= i < shown@.len() implies (#[trigger] shown@[i]).ts == as_of
            && shown@[i].diff != 0 && shown@[i].diff == accumulated_up_to(
            views,
            shown@[i].key@,
            shown@[i].val@,
            as_of,
        ) by {
            assert(out[i] == shown@[i]@);
            lemma_each_once_accumulated(out, i);
            lemma_advanced_accumulated(views, as_of, out[i].0, out[i].1, out[i].2);
            assert(accumulated(out, out[i].0, out[i].1, out[i].2) == accumulated(
                advanced(views, as_of),
                out[i].0,
                out[i].1,
                out[i].2,
            ));
        }
    }
    shown
}

/// What a snapshot as of `as_of` shows of the updates that were written, if the
/// sizes of their diffs together fit.
pub fn checked_snapshot_updates(written: &Vec<Update>, as_of: u64) -> (shown: Option<Vec<Update>>)
    ensures
        match shown {
            Some(shown) => magnitude(updates_view(written@)) <= i64::MAX && updates_view(shown@)
                == consolidated(advanced(updates_view(written@), as_of)) && each_once(
                updates_view(shown@),
            ) && (forall|i: int|
                0 <= i < shown@.len() ==> (#[trigger] shown@[i]).ts == as_of && shown@[i].diff != 0
                    && shown@[i].diff == accumulated_up_to(
                    updates_view(written@),
                    shown@[i].key@,
                    shown@[i].val@,
                    as_of,
                )) && (forall|key: Seq<u8>, val: Seq<u8>|
                #![trigger accumulated(updates_view(shown@), key, val, as_of)]
                accumulated(updates_view(shown@), key, val, as_of) == accumulated_up_to(
                    updates_view(written@),
                    key,
                    val,
                    as_of,
                )),
            None => magnitude(updates_view(written@)) > i64::MAX,
        },
{
    if magnitude_fits(written) {
        Some(snapshot_updates(written, as_of))
    } else {
        None
    }
}


/// The updates after `as_of`, in their order.
pub open spec fn after(updates: Seq<(Seq<u8>, Seq<u8>, u64, i64)>, as_of: u64) -> Seq<
    (Seq<u8>, Seq<u8>, u64, i64),
>
    decreases updates.len(),
{
    if updates.len() == 0 {
        Seq::empty()
    } else if updates.last().2 > as_of {
        after(updates.drop_last(), as_of).push(updates.last())
    } else {
        after(updates.drop_last(), as_of)
    }
}

/// What a listener that started as of `as_of` is shown of the updates of a
/// batch: those after `as_of`, as they are. The updates at or before `as_of`
/// are what a snapshot as of that time shows.
pub fn listen_updates(written: &Vec<Update>, as_of: u64) -> (shown: Vec<Update>)
    ensures
        updates_view(shown@) == after(updates_view(written@), as_of),
{
    let ghost views = updates_view(written@);
    let mut shown: Vec<Update> = Vec::new();
    let mut i: usize = 0;
    while i < written.len()
        invariant
            i <= written.len(),
            views == updates_view(written@),
            updates_view(shown@) == after(views.take(i as int), as_of),
        decreases written.len() - i,
    {
        let update = &written[i];
        let ghost before = updates_view(shown@);
        proof {
            assert(views.take(i + 1).drop_last() =~= views.take(i as int));
            assert(views.take(i + 1).last() == update@);
        }
        if update.ts > as_of {
            shown.push(
                Update {
                    key: update.key.clone(),
                    val: update.val.clone(),
                    ts: update.ts,
                    diff: update.diff,
                },
            );
            proof {
                assert(updates_view(shown@) =~= before.push(update@));
            }
        }
        i += 1;
    }
    proof {
        assert(views.take(i as int) =~= views);
    }
    shown
}

} // verus!
