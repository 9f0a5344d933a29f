use vstd::prelude::*;

use crate::ids::{all_digits, digits_val, extract_create_ms, id_le, id_lt, id_ms_part};
use crate::store::{has_entry, origin_id, spec_append, wf_log, Entry, EntryV, Log, LogV};

verus! {

/// What a maturity-gated queue does with one entry on one poll.
#[derive(Clone, Copy, PartialEq, Eq, Structural, Debug)]
pub enum MatureAction {
    /// The identifier is unparseable: the entry is permanently
    /// malformed, deleted at once, never retried.
    Drop,
    /// The entry has not aged past the threshold yet; it is skipped and
    /// will be seen again on the next poll.
    Wait,
    /// The entry is mature: the action runs now.
    Fire,
}

/// An entry is mature once its age — the clock now against the creation
/// time carried in its identifier — has reached the threshold. An entry
/// whose creation time lies in the future is not mature.
pub open spec fn is_mature(create_ms: u64, now_ms: u64, threshold_ms: u64) -> bool {
    now_ms >= create_ms + threshold_ms
}

/// The wire-format identifier has a readable creation time.
pub open spec fn parseable_create_ms(id: Seq<u8>) -> bool {
    &&& id_ms_part(id).len() > 0
    &&& all_digits(id_ms_part(id))
    &&& digits_val(id_ms_part(id)) <= u64::MAX
}

/// The decision a maturity-gated queue takes for one wire-format entry
/// on one poll tick.
pub open spec fn spec_mature_action(id: Seq<u8>, now_ms: u64, threshold_ms: u64) -> MatureAction {
    if !parseable_create_ms(id) {
        MatureAction::Drop
    } else if is_mature(digits_val(id_ms_part(id)) as u64, now_ms, threshold_ms) {
        MatureAction::Fire
    } else {
        MatureAction::Wait
    }
}

/// Decides what to do with one entry of a maturity-gated queue, from
/// its wire-format identifier and the clock. This is the whole per-entry
/// decision of the delay and timer loops; the caller performs the
/// action, the deletion, or nothing, as directed.
pub fn mature_action(id: &[u8], now_ms: u64, threshold_ms: u64) -> (r: MatureAction)
    ensures
        r == spec_mature_action(id@, now_ms, threshold_ms),
{
    match extract_create_ms(id) {
        None => MatureAction::Drop,
        Some(create_ms) => {
            if now_ms >= create_ms && now_ms - create_ms >= threshold_ms {
                MatureAction::Fire
            } else {
                MatureAction::Wait
            }
        },
    }
}

/// Maturity gating, part one: before the threshold the entry is left
/// alone on every poll — in particular, an entry created at some
/// instant is not acted on at any tick earlier than creation plus
/// threshold.
pub proof fn lemma_maturity_not_early(id: Seq<u8>, create_ms: u64, now_ms: u64, threshold_ms: u64)
    requires
        parseable_create_ms(id),
        digits_val(id_ms_part(id)) == create_ms,
        now_ms < create_ms + threshold_ms,
    ensures
        spec_mature_action(id, now_ms, threshold_ms) == MatureAction::Wait,
{
}

/// Maturity gating, part two: a loop that polls every `interval`
/// milliseconds, starting no later than the entry matures, reaches a
/// tick that fires within one interval of maturity — the scheduling
/// slack is at most one poll interval.
pub proof fn lemma_maturity_fires_within_slack(
    create_ms: u64,
    threshold_ms: u64,
    interval: int,
    first_tick: int,
)
    requires
        interval > 0,
        0 <= first_tick <= create_ms + threshold_ms,
    ensures
        exists|k: int|
            {
                &&& 0 <= k
                &&& create_ms + threshold_ms <= first_tick + #[trigger] (k * interval)
                &&& first_tick + k * interval < create_ms + threshold_ms + interval
            },
{
    let d = create_ms + threshold_ms - first_tick;
    let k = (d + interval - 1) / interval;
    vstd::arithmetic::div_mod::lemma_fundamental_div_mod(d + interval - 1, interval);
    let r = (d + interval - 1) % interval;
    vstd::arithmetic::div_mod::lemma_mod_bound(d + interval - 1, interval);
    assert(k * interval == d + interval - 1 - r);
    assert(0 <= k) by (nonlinear_arith)
        requires
            k * interval >= 0,
            interval > 0,
    {}
    assert(0 <= k && create_ms + threshold_ms <= first_tick + k * interval && first_tick + k
        * interval < create_ms + threshold_ms + interval);
}

/// The entries a maturity poll leaves in place: those not yet mature.
pub open spec fn surviving(s: Seq<EntryV>, now_ms: u64, threshold_ms: u64) -> Seq<EntryV>
    decreases s.len(),
{
    if s.len() == 0 {
        Seq::empty()
    } else if is_mature(s.last().id.ms, now_ms, threshold_ms) {
        surviving(s.drop_last(), now_ms, threshold_ms)
    } else {
        surviving(s.drop_last(), now_ms, threshold_ms).push(s.last())
    }
}

/// The entries a maturity poll acts on: those mature, in log order.
pub open spec fn matured(s: Seq<EntryV>, now_ms: u64, threshold_ms: u64) -> Seq<EntryV>
    decreases s.len(),
{
    if s.len() == 0 {
        Seq::empty()
    } else if is_mature(s.last().id.ms, now_ms, threshold_ms) {
        matured(s.drop_last(), now_ms, threshold_ms).push(s.last())
    } else {
        matured(s.drop_last(), now_ms, threshold_ms)
    }
}

/// What survives a poll is exactly what was live and not yet mature.
pub proof fn lemma_surviving_contains(s: Seq<EntryV>, now_ms: u64, threshold_ms: u64, e: EntryV)
    ensures
        surviving(s, now_ms, threshold_ms).contains(e) <==> (s.contains(e) && !is_mature(
            e.id.ms,
            now_ms,
            threshold_ms,
        )),
    decreases s.len(),
{
    if s.len() > 0 {
        lemma_surviving_contains(s.drop_last(), now_ms, threshold_ms, e);
        crate::store::lemma_contains_split_last(s, e);
        if !is_mature(s.last().id.ms, now_ms, threshold_ms) {
            crate::store::lemma_contains_split_last(
                surviving(s.drop_last(), now_ms, threshold_ms).push(s.last()),
                e,
            );
            assert(surviving(s.drop_last(), now_ms, threshold_ms).push(s.last()).drop_last()
                =~= surviving(s.drop_last(), now_ms, threshold_ms));
        }
    }
}

/// Every entry either survives a poll or fires on it: the two parts
/// together account for the whole log.
pub proof fn lemma_poll_split_len(s: Seq<EntryV>, now_ms: u64, threshold_ms: u64)
    ensures
        surviving(s, now_ms, threshold_ms).len() + matured(s, now_ms, threshold_ms).len()
            == s.len(),
    decreases s.len(),
{
    if s.len() > 0 {
        lemma_poll_split_len(s.drop_last(), now_ms, threshold_ms);
    }
}

/// What fires on a poll is exactly what was live and mature.
pub proof fn lemma_matured_contains(s: Seq<EntryV>, now_ms: u64, threshold_ms: u64, e: EntryV)
    ensures
        matured(s, now_ms, threshold_ms).contains(e) <==> (s.contains(e) && is_mature(
            e.id.ms,
            now_ms,
            threshold_ms,
        )),
    decreases s.len(),
{
    if s.len() > 0 {
        lemma_matured_contains(s.drop_last(), now_ms, threshold_ms, e);
        crate::store::lemma_contains_split_last(s, e);
        if is_mature(s.last().id.ms, now_ms, threshold_ms) {
            crate::store::lemma_contains_split_last(
                matured(s.drop_last(), now_ms, threshold_ms).push(s.last()),
                e,
            );
            assert(matured(s.drop_last(), now_ms, threshold_ms).push(s.last()).drop_last()
                =~= matured(s.drop_last(), now_ms, threshold_ms));
        }
    }
}

/// Order survives a poll: the remaining entries still strictly increase.
proof fn lemma_surviving_sorted(s: Seq<EntryV>, now_ms: u64, threshold_ms: u64, i: int, j: int)
    requires
        forall|a: int, b: int|
            0 <= a < b < s.len() ==> id_lt((#[trigger] s[a]).id, (#[trigger] s[b]).id),
        0 <= i < j < surviving(s, now_ms, threshold_ms).len(),
    ensures
        id_lt(
            surviving(s, now_ms, threshold_ms)[i].id,
            surviving(s, now_ms, threshold_ms)[j].id,
        ),
    decreases s.len(),
{
    if s.len() > 0 {
        let inner = surviving(s.drop_last(), now_ms, threshold_ms);
        if is_mature(s.last().id.ms, now_ms, threshold_ms) {
            lemma_surviving_sorted(s.drop_last(), now_ms, threshold_ms, i, j);
        } else {
            if j < inner.len() {
                lemma_surviving_sorted(s.drop_last(), now_ms, threshold_ms, i, j);
            } else {
                lemma_surviving_contains(s.drop_last(), now_ms, threshold_ms, inner[i]);
                let k = choose|k: int|
                    0 <= k < s.drop_last().len() && s.drop_last()[k] == inner[i];
                assert(s[k] == inner[i]);
                assert(s[s.len() - 1] == s.last());
            }
        }
    }
}

/// One pass of the fixed-delay queue over its log, at clock `now_ms`
/// with the configured threshold: every mature entry fires once and is
/// deleted — one-shot, terminal — and everything younger is left for a
/// later poll. Returns the fired entries, in log order, for the caller
/// to act on; deletion after the action means a crash mid-action costs
/// at most one duplicate re-execution, never a loss.
#[verifier::loop_isolation(false)]
pub fn delay_poll(log: &mut Log, now_ms: u64, threshold_ms: u64) -> (fired: Vec<Entry>)
    requires
        wf_log(old(log)@),
        old(log)@.group is None,
    ensures
        wf_log(final(log)@),
        final(log)@.group is None,
        final(log)@.last_id == old(log)@.last_id,
        final(log)@.entries == surviving(old(log)@.entries, now_ms, threshold_ms),
        fired.deep_view() == matured(old(log)@.entries, now_ms, threshold_ms),
{
    let ghost entries0 = log@.entries;
    let mut kept: Vec<Entry> = Vec::new();
    let mut fired: Vec<Entry> = Vec::new();
    let mut i: usize = 0;
    while i < log.entries.len()
        invariant
            0 <= i <= log.entries.len(),
            kept.deep_view() =~= surviving(entries0.subrange(0, i as int), now_ms, threshold_ms),
            fired.deep_view() =~= matured(entries0.subrange(0, i as int), now_ms, threshold_ms),
        decreases log.entries.len() - i,
    {
        proof {
            assert(entries0.subrange(0, i + 1).drop_last() =~= entries0.subrange(0, i as int));
            assert(entries0.subrange(0, i + 1).last() == entries0[i as int]);
        }
        let e = &log.entries[i];
        let create_ms = e.id.ms;
        let dup = crate::store::clone_entry(e);
        if now_ms >= create_ms && now_ms - create_ms >= threshold_ms {
            fired.push(dup);
        } else {
            kept.push(dup);
        }
        assert(kept.deep_view() =~= surviving(entries0.subrange(0, i + 1), now_ms, threshold_ms));
        assert(fired.deep_view() =~= matured(entries0.subrange(0, i + 1), now_ms, threshold_ms));
        i = i + 1;
    }
    proof {
        assert(entries0.subrange(0, i as int) =~= entries0);
    }
    log.entries = kept;
    proof {
        let s1 = surviving(entries0, now_ms, threshold_ms);
        assert forall|a: int, b: int|
            0 <= a < b < s1.len() implies id_lt((#[trigger] s1[a]).id, (#[trigger] s1[b]).id) by {
            lemma_surviving_sorted(entries0, now_ms, threshold_ms, a, b);
        }
        assert forall|a: int| 0 <= a < s1.len() implies id_lt(origin_id(), (#[trigger] s1[a]).id)
            && id_le(s1[a].id, old(log)@.last_id) by {
            lemma_surviving_contains(entries0, now_ms, threshold_ms, s1[a]);
            let k = choose|k: int| 0 <= k < entries0.len() && entries0[k] == s1[a];
        }
    }
    fired
}

/// The log after appending one entry per element of `fs`, oldest
/// first, all at clock `now_ms`: how the timer queue re-arms the jobs
/// that just fired.
pub open spec fn append_all(l: LogV, fs: Seq<Seq<(Seq<char>, Seq<char>)>>, now_ms: u64) -> LogV
    decreases fs.len(),
{
    if fs.len() == 0 {
        l
    } else {
        spec_append(append_all(l, fs.drop_last(), now_ms), fs.last(), now_ms)
    }
}

/// Appending only grows the log: every entry stays, the highest
/// assigned identifier never falls, and each appended entry lands
/// above everything assigned before.
pub proof fn lemma_append_all_grows(l: LogV, fs: Seq<Seq<(Seq<char>, Seq<char>)>>, now_ms: u64)
    requires
        l.last_id.seq + fs.len() <= u64::MAX,
    ensures
        append_all(l, fs, now_ms).last_id.seq <= l.last_id.seq + fs.len(),
        append_all(l, fs, now_ms).entries.len() == l.entries.len() + fs.len(),
        forall|i: int|
            0 <= i < l.entries.len() ==> append_all(l, fs, now_ms).entries[i] == (
            #[trigger] l.entries[i]),
        forall|i: int|
            l.entries.len() <= i < l.entries.len() + fs.len() ==> id_lt(
                l.last_id,
                (#[trigger] append_all(l, fs, now_ms).entries[i]).id,
            ) && (#[trigger] append_all(l, fs, now_ms).entries[i]).fields == fs[i
                - l.entries.len()],
        id_le(l.last_id, append_all(l, fs, now_ms).last_id),
        append_all(l, fs, now_ms).group == l.group,
    decreases fs.len(),
{
    if fs.len() > 0 {
        lemma_append_all_grows(l, fs.drop_last(), now_ms);
        let inner = append_all(l, fs.drop_last(), now_ms);
        let outer = append_all(l, fs, now_ms);
        assert(outer.entries == inner.entries.push(
            EntryV { id: crate::store::spec_append_id(inner, now_ms), fields: fs.last() },
        ));
        assert(id_lt(inner.last_id, outer.last_id));
        assert forall|i: int|
            l.entries.len() <= i < l.entries.len() + fs.len() implies id_lt(
            l.last_id,
            (#[trigger] outer.entries[i]).id,
        ) && outer.entries[i].fields == fs[i - l.entries.len()] by {
            if i < l.entries.len() + fs.len() - 1 {
                assert(outer.entries[i] == inner.entries[i]);
            } else {
                if id_lt(l.last_id, inner.last_id) {
                    crate::ids::lemma_id_lt_transitive(l.last_id, inner.last_id, outer.last_id);
                }
            }
        }
    }
}

/// One pass of the recurring-interval queue over its log: every mature
/// entry fires, its old entry is deleted, and a new entry with the very
/// same field map is appended — a fresh identifier with a new creation
/// time, so the cycle sustains itself at the fixed interval with no
/// external scheduler. Returns the fired entries (with their old
/// identifiers) for the caller to act on.
#[verifier::loop_isolation(false)]
pub fn timer_poll(log: &mut Log, now_ms: u64, threshold_ms: u64) -> (fired: Vec<Entry>)
    requires
        wf_log(old(log)@),
        old(log)@.group is None,
        old(log)@.last_id.seq + old(log)@.entries.len() < u64::MAX,
    ensures
        wf_log(final(log)@),
        final(log)@.group is None,
        fired.deep_view() == matured(old(log)@.entries, now_ms, threshold_ms),
        final(log)@ == append_all(
            LogV {
                entries: surviving(old(log)@.entries, now_ms, threshold_ms),
                last_id: old(log)@.last_id,
                group: old(log)@.group,
            },
            fired.deep_view().map_values(|e: EntryV| e.fields),
            now_ms,
        ),
{
    let ghost l0 = log@;
    let fired = delay_poll(log, now_ms, threshold_ms);
    let ghost lk = log@;
    let ghost fired_fields = fired.deep_view().map_values(|e: EntryV| e.fields);
    proof {
        lemma_poll_split_len(l0.entries, now_ms, threshold_ms);
    }
    let mut i: usize = 0;
    while i < fired.len()
        invariant
            0 <= i <= fired.len(),
            log@ == append_all(lk, fired_fields.subrange(0, i as int), now_ms),
            wf_log(log@),
            log@.group is None,
            log@.last_id.seq <= lk.last_id.seq + i,
            lk.last_id.seq + fired@.len() < u64::MAX,
        decreases fired.len() - i,
    {
        proof {
            assert(fired_fields.subrange(0, i + 1).drop_last() =~= fired_fields.subrange(
                0,
                i as int,
            ));
            assert(fired_fields.subrange(0, i + 1).last() == fired_fields[i as int]);
            assert(fired_fields[i as int] == fired.deep_view()[i as int].fields);
        }
        let fields = crate::store::clone_fields(&fired[i].fields);
        log.append(fields, now_ms);
        i = i + 1;
    }
    proof {
        assert(fired_fields.subrange(0, i as int) =~= fired_fields);
    }
    fired
}

/// Timer self-renewal: after the timer queue fires an entry, an entry
/// with the identical field map and a strictly greater identifier is in
/// the log, and no entry with the old identifier remains.
pub proof fn lemma_timer_self_renewal(l0: LogV, now_ms: u64, threshold_ms: u64, e: EntryV)
    requires
        wf_log(l0),
        l0.last_id.seq + l0.entries.len() < u64::MAX,
        matured(l0.entries, now_ms, threshold_ms).contains(e),
    ensures
        ({
            let fired = matured(l0.entries, now_ms, threshold_ms);
            let l1 = append_all(
                LogV {
                    entries: surviving(l0.entries, now_ms, threshold_ms),
                    last_id: l0.last_id,
                    group: l0.group,
                },
                fired.map_values(|f: EntryV| f.fields),
                now_ms,
            );
            &&& !has_entry(l1.entries, e.id)
            &&& exists|j: int|
                {
                    &&& 0 <= j < l1.entries.len()
                    &&& (#[trigger] l1.entries[j]).fields == e.fields
                    &&& id_lt(e.id, l1.entries[j].id)
                }
        }),
{
    let fired = matured(l0.entries, now_ms, threshold_ms);
    let kept = surviving(l0.entries, now_ms, threshold_ms);
    let base = LogV { entries: kept, last_id: l0.last_id, group: l0.group };
    let fs = fired.map_values(|f: EntryV| f.fields);
    let l1 = append_all(base, fs, now_ms);
    lemma_poll_split_len(l0.entries, now_ms, threshold_ms);
    lemma_append_all_grows(base, fs, now_ms);
    lemma_matured_contains(l0.entries, now_ms, threshold_ms, e);
    assert(l0.entries.contains(e));
    let ke = choose|k: int| 0 <= k < l0.entries.len() && l0.entries[k] == e;
    assert(id_le(e.id, l0.last_id));

    // The old identifier is gone: the mature entry was not kept, and
    // every appended entry lies strictly above the old high mark.
    assert forall|j: int| 0 <= j < l1.entries.len() implies (#[trigger] l1.entries[j]).id != e.id by {
        if j < kept.len() {
            assert(l1.entries[j] == kept[j]);
            lemma_surviving_contains(l0.entries, now_ms, threshold_ms, kept[j]);
            let k2 = choose|k2: int| 0 <= k2 < l0.entries.len() && l0.entries[k2] == kept[j];
            if kept[j].id == e.id {
                if k2 < ke {
                    assert(id_lt(l0.entries[k2].id, l0.entries[ke].id));
                } else if ke < k2 {
                    assert(id_lt(l0.entries[ke].id, l0.entries[k2].id));
                }
            }
        } else {
            assert(id_lt(base.last_id, l1.entries[j].id));
        }
    }

    // A renewal with the same fields sits above the old identifier.
    let fi = choose|fi: int| 0 <= fi < fired.len() && fired[fi] == e;
    let j = kept.len() + fi;
    assert(l1.entries[j].fields == fs[fi]);
    assert(fs[fi] == e.fields);
    assert(id_lt(l0.last_id, l1.entries[j].id));
    assert(id_lt(e.id, l1.entries[j].id)) by {
        if e.id != l0.last_id {
            crate::ids::lemma_id_lt_transitive(e.id, l0.last_id, l1.entries[j].id);
        }
    }
}

} // verus!
