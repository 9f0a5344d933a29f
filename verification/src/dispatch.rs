use vstd::prelude::*;

use crate::codec::{decode_mail, encode_mail, spec_decode_mail};
use crate::ids::{id_lt, EntryId};
use crate::store::{
    spec_ack, spec_append, spec_append_id, spec_delete, spec_pending, spec_read_new,
    spec_redeliver, wf_log, Log,
};

verus! {

/// Total number of attempts a mail entry is given: the initial delivery
/// plus two retries. A pending entry seen with this delivery count is
/// dropped rather than redelivered.
pub const RETRY_LIMIT: u64 = 3;

/// Whether a pending entry seen with this delivery count has used up
/// its budget: the retry coordinator then force-acknowledges it
/// instead of redelivering it.
pub fn budget_exhausted(delivery_count: u64) -> (r: bool)
    ensures
        r == (delivery_count >= RETRY_LIMIT),
{
    delivery_count >= RETRY_LIMIT
}

/// In-memory, ephemeral signal that one claimed entry needs
/// reprocessing: which entry, and which consumer holds it. Consumed
/// exactly once by the retry coordinator; never persisted — on restart
/// the entry is still safely pending in the store.
#[derive(Clone, Copy, PartialEq, Eq, Structural, Debug)]
pub struct RetryIntent {
    pub id: EntryId,
    pub consumer: u64,
}

/// What one consumer pass did.
#[derive(Clone, Copy, PartialEq, Eq, Structural, Debug)]
pub enum StepOutcome {
    /// Nothing new to deliver.
    Idle,
    /// The delivered entry was malformed: deleted at once, never retried.
    MalformedDropped { id: EntryId },
    /// The entry was decoded and the business action attempted: on
    /// success the entry was acknowledged, on failure a retry intent was
    /// queued and the entry left pending.
    Delivered { id: EntryId, acked: bool },
}

/// What one retry-coordinator pass did.
#[derive(Clone, Copy, PartialEq, Eq, Structural, Debug)]
pub enum RetryOutcome {
    /// No intent waiting.
    Idle,
    /// The intent's entry is no longer pending for that consumer
    /// (already acknowledged or deleted by a concurrent path): ignored.
    Stale { id: EntryId },
    /// The entry exhausted its retry budget: force-acknowledged and
    /// dropped, with its final delivery count.
    Dropped { id: EntryId, count: u64 },
    /// The redelivered entry turned out malformed: deleted at once.
    MalformedDropped { id: EntryId },
    /// The entry was redelivered and the business action re-attempted:
    /// on success acknowledged, on failure a fresh intent was queued.
    Delivered { id: EntryId, acked: bool },
}

/// The reliable mail-dispatch queue: one log with its consumer group,
/// plus the bounded in-process channel feeding the retry coordinator.
/// Every delivery counter and pending row lives in the store; the
/// process holds no authoritative state beyond the channel.
pub struct MailDispatch {
    pub log: Log,
    pub channel: Vec<RetryIntent>,
    pub capacity: usize,
}

/// Well-formedness of the dispatch queue: a well-formed log whose
/// consumer group exists, and a channel within its bound.
pub open spec fn wf_dispatch(d: MailDispatch) -> bool {
    &&& wf_log(d.log@)
    &&& d.log@.group is Some
    &&& d.channel@.len() <= d.capacity
}

/// One consumer pass over the queue, given the outcome `send_ok` that
/// the business action (render and send) would have: claim the next
/// never-delivered entry, decode it, and either acknowledge it, delete
/// it as malformed, or queue a retry intent.
pub open spec fn spec_consumer_step(
    l: crate::store::LogV,
    chan: Seq<RetryIntent>,
    consumer: u64,
    send_ok: bool,
) -> (crate::store::LogV, Seq<RetryIntent>, StepOutcome) {
    let (l1, delivered) = spec_read_new(l, consumer);
    match delivered {
        None => (l, chan, StepOutcome::Idle),
        Some(e) => match spec_decode_mail(e.fields) {
            None => (spec_delete(l1, e.id).0, chan, StepOutcome::MalformedDropped { id: e.id }),
            Some(_) => if send_ok {
                (spec_ack(l1, e.id).0, chan, StepOutcome::Delivered { id: e.id, acked: true })
            } else {
                (
                    l1,
                    chan.push(RetryIntent { id: e.id, consumer }),
                    StepOutcome::Delivered { id: e.id, acked: false },
                )
            },
        },
    }
}

/// One retry-coordinator pass, given the outcome `send_ok` a re-run of
/// the business action would have: take the oldest intent, look its
/// entry up in the pending list, and either ignore it (no longer
/// pending), force-acknowledge it (budget exhausted), or redeliver it
/// and re-run the same per-entry step as the consumer loop.
pub open spec fn spec_retry_step(
    l: crate::store::LogV,
    chan: Seq<RetryIntent>,
    send_ok: bool,
) -> (crate::store::LogV, Seq<RetryIntent>, RetryOutcome) {
    if chan.len() == 0 {
        (l, chan, RetryOutcome::Idle)
    } else {
        let it = chan[0];
        let rest = chan.drop_first();
        match spec_pending(l, it.consumer, it.id) {
            None => (l, rest, RetryOutcome::Stale { id: it.id }),
            Some(count) => if count >= RETRY_LIMIT {
                (spec_ack(l, it.id).0, rest, RetryOutcome::Dropped { id: it.id, count })
            } else {
                let (l1, redelivered) = spec_redeliver(l, it.consumer, it.id);
                match redelivered {
                    None => (l, rest, RetryOutcome::Stale { id: it.id }),
                    Some(e) => match spec_decode_mail(e.fields) {
                        None => (
                            spec_delete(l1, e.id).0,
                            rest,
                            RetryOutcome::MalformedDropped { id: e.id },
                        ),
                        Some(_) => if send_ok {
                            (
                                spec_ack(l1, e.id).0,
                                rest,
                                RetryOutcome::Delivered { id: e.id, acked: true },
                            )
                        } else {
                            (
                                l1,
                                rest.push(it),
                                RetryOutcome::Delivered { id: e.id, acked: false },
                            )
                        },
                    },
                }
            },
        }
    }
}

impl MailDispatch {
    /// A fresh dispatch queue over an empty log: the consumer group is
    /// created with its cursor at the end, so only entries appended from
    /// now on are delivered; the retry channel is empty with the given
    /// bound.
    pub fn new(capacity: usize) -> (r: MailDispatch)
        ensures
            wf_dispatch(r),
            r.log@.entries.len() == 0,
            r.log@.group->Some_0.pel.len() == 0,
            r.log@.group->Some_0.cursor == r.log@.last_id,
            r.channel@.len() == 0,
            r.capacity == capacity,
    {
        let mut log = Log::new();
        log.create_group_if_absent(false);
        let r = MailDispatch { log, channel: Vec::new(), capacity };
        proof {
            assert(r.channel@ =~= Seq::<RetryIntent>::empty());
        }
        r
    }

    /// Appends one mail job to the queue's log. Only the three required
    /// fields travel in the entry; the message itself is assembled at
    /// consumption time.
    pub fn enqueue_mail(&mut self, to: String, subject: String, link: String, now_ms: u64) -> (r:
        EntryId)
        requires
            wf_dispatch(*old(self)),
            old(self).log@.last_id.seq < u64::MAX,
        ensures
            wf_dispatch(*final(self)),
            r == spec_append_id(old(self).log@, now_ms),
            id_lt(old(self).log@.last_id, r),
            final(self).channel@ == old(self).channel@,
            final(self).capacity == old(self).capacity,
            final(self).log@ == spec_append(
                old(self).log@,
                final(self).log@.entries.last().fields,
                now_ms,
            ),
            final(self).log@.entries.last().id == r,
            spec_decode_mail(final(self).log@.entries.last().fields) == Some(
                crate::codec::MailJobV { to: to@, subject: subject@, link: link@ },
            ),
    {
        let fields = encode_mail(to, subject, link);
        self.log.append(fields, now_ms)
    }

    /// One pass of one consumer loop; see [`spec_consumer_step`]. The
    /// channel must have room for a possible retry intent — the loop
    /// blocks for room before processing, which is the queue's throttle
    /// on retry storms.
    pub fn consumer_step(&mut self, consumer: u64, send_ok: bool) -> (o: StepOutcome)
        requires
            wf_dispatch(*old(self)),
            old(self).channel@.len() < old(self).capacity,
        ensures
            wf_dispatch(*final(self)),
            final(self).capacity == old(self).capacity,
            (final(self).log@, final(self).channel@, o) == spec_consumer_step(
                old(self).log@,
                old(self).channel@,
                consumer,
                send_ok,
            ),
    {
        let delivered = self.log.read_new(consumer);
        match delivered {
            None => StepOutcome::Idle,
            Some(e) => {
                match decode_mail(&e.fields) {
                    None => {
                        self.log.delete(&e.id);
                        StepOutcome::MalformedDropped { id: e.id }
                    },
                    Some(_job) => {
                        if send_ok {
                            self.log.ack(&e.id);
                            StepOutcome::Delivered { id: e.id, acked: true }
                        } else {
                            self.channel.push(RetryIntent { id: e.id, consumer });
                            StepOutcome::Delivered { id: e.id, acked: false }
                        }
                    },
                }
            },
        }
    }

    /// One pass of the retry coordinator; see [`spec_retry_step`].
    /// Repeated failure queues a fresh intent instead of recursing, so
    /// the retry path is a flat loop however often an entry fails.
    pub fn retry_step(&mut self, send_ok: bool) -> (o: RetryOutcome)
        requires
            wf_dispatch(*old(self)),
        ensures
            wf_dispatch(*final(self)),
            final(self).capacity == old(self).capacity,
            (final(self).log@, final(self).channel@, o) == spec_retry_step(
                old(self).log@,
                old(self).channel@,
                send_ok,
            ),
    {
        if self.channel.len() == 0 {
            proof {
                assert(self.channel@ =~= Seq::<RetryIntent>::empty());
            }
            return RetryOutcome::Idle;
        }
        let it = self.channel.remove(0);
        proof {
            assert(self.channel@ =~= old(self).channel@.drop_first());
        }
        match self.log.pending_count(it.consumer, &it.id) {
            None => RetryOutcome::Stale { id: it.id },
            Some(count) => {
                if budget_exhausted(count) {
                    self.log.ack(&it.id);
                    RetryOutcome::Dropped { id: it.id, count }
                } else {
                    match self.log.redeliver(it.consumer, &it.id) {
                        None => RetryOutcome::Stale { id: it.id },
                        Some(e) => {
                            match decode_mail(&e.fields) {
                                None => {
                                    self.log.delete(&e.id);
                                    RetryOutcome::MalformedDropped { id: e.id }
                                },
                                Some(_job) => {
                                    if send_ok {
                                        self.log.ack(&e.id);
                                        RetryOutcome::Delivered { id: e.id, acked: true }
                                    } else {
                                        self.channel.push(it);
                                        RetryOutcome::Delivered { id: e.id, acked: false }
                                    }
                                },
                            }
                        },
                    }
                }
            },
        }
    }
}

/// A dispatch queue that has caught up: the group exists, every entry
/// delivered so far is acknowledged, and nothing is pending.
pub open spec fn quiescent(l: crate::store::LogV) -> bool {
    &&& l.group is Some
    &&& l.group->Some_0.cursor == l.last_id
    &&& l.group->Some_0.pel.len() == 0
}

/// At-least-once with bounded retry: append one well-formed mail job to
/// a caught-up queue and let the business action fail exactly twice and
/// then succeed. The consumer pass and the two coordinator passes each
/// attempt the action — the entry is processed exactly three times —
/// the third attempt acknowledges it, nothing stays pending, and no
/// further retry is scheduled.
pub proof fn lemma_at_least_once_bounded_retry(
    l0: crate::store::LogV,
    fields: Seq<(Seq<char>, Seq<char>)>,
    consumer: u64,
    now_ms: u64,
)
    requires
        wf_log(l0),
        quiescent(l0),
        l0.last_id.seq < u64::MAX,
        spec_decode_mail(fields) is Some,
    ensures
        ({
            let id = spec_append_id(l0, now_ms);
            let l1 = spec_append(l0, fields, now_ms);
            let (l2, c2, o1) = spec_consumer_step(l1, Seq::empty(), consumer, false);
            let (l3, c3, o2) = spec_retry_step(l2, c2, false);
            let (l4, c4, o3) = spec_retry_step(l3, c3, true);
            &&& o1 == (StepOutcome::Delivered { id, acked: false })
            &&& o2 == (RetryOutcome::Delivered { id, acked: false })
            &&& o3 == (RetryOutcome::Delivered { id, acked: true })
            &&& l4.group->Some_0.pel.len() == 0
            &&& c4.len() == 0
            &&& crate::store::has_entry(l4.entries, id)
        }),
{
    let id = spec_append_id(l0, now_ms);
    let l1 = spec_append(l0, fields, now_ms);
    let e = crate::store::EntryV { id, fields };
    let g0 = l0.group->Some_0;
    let cursor = g0.cursor;
    assert(l1.entries == l0.entries.push(e));
    assert(l1.entries[l0.entries.len() as int] == e);

    // The appended entry is the first one past the cursor.
    assert forall|j: int| 0 <= j < l0.entries.len() implies !id_lt(
        cursor,
        (#[trigger] l1.entries[j]).id,
    ) by {
        assert(l1.entries[j] == l0.entries[j]);
        assert(crate::ids::id_le(l0.entries[j].id, l0.last_id));
    }
    assert(id_lt(cursor, e.id));
    crate::store::lemma_first_after_at(l1.entries, cursor, l0.entries.len() as int);
    assert(crate::store::first_after(l1.entries, cursor) == Some(e));

    // Consumer pass: claim, decode, fail, queue the intent.
    let (l2, c2, o1) = spec_consumer_step(l1, Seq::empty(), consumer, false);
    let row1 = crate::store::Pending { id, consumer, count: 1 };
    let pel1 = g0.pel.push(row1);
    assert(l2.group->Some_0.pel == pel1);
    assert(pel1.len() == 1 && pel1[0] == row1);
    let it = RetryIntent { id, consumer };
    assert(c2 == Seq::empty().push(it));
    assert(c2.len() == 1 && c2[0] == it);
    assert(o1 == (StepOutcome::Delivered { id, acked: false }));

    // The appended entry is findable by its identifier.
    assert forall|j: int| 0 <= j < l0.entries.len() implies (#[trigger] l1.entries[j]).id != id by {
        assert(l1.entries[j] == l0.entries[j]);
        assert(crate::ids::id_le(l0.entries[j].id, l0.last_id));
    }
    crate::store::lemma_entry_of_at(l1.entries, id, l0.entries.len() as int);
    assert(crate::store::entry_of(l1.entries, id) == Some(e));

    // First coordinator pass: count 1, below the budget; redeliver,
    // fail again, requeue.
    let (l3, c3, o2) = spec_retry_step(l2, c2, false);
    assert(c2.drop_first() =~= Seq::<RetryIntent>::empty());
    assert(crate::store::pel_find(pel1, id) == Some(row1)) by {
        crate::store::lemma_pel_find_at(pel1, id, 0);
    }
    assert(spec_pending(l2, consumer, id) == Some(1u64));
    assert(l2.entries == l1.entries);
    let row2 = crate::store::Pending { id, consumer, count: 2 };
    let pel2 = crate::store::pel_bump(pel1, id);
    assert(pel2.len() == 1 && pel2[0] == row2);
    assert(l3.group->Some_0.pel == pel2);
    assert(c3 =~= Seq::empty().push(it));
    assert(o2 == (RetryOutcome::Delivered { id, acked: false }));

    // Second coordinator pass: count 2, still below the budget;
    // redeliver, succeed, acknowledge.
    let (l4, c4, o3) = spec_retry_step(l3, c3, true);
    assert(c3.drop_first() =~= Seq::<RetryIntent>::empty());
    assert(crate::store::pel_find(pel2, id) == Some(row2)) by {
        crate::store::lemma_pel_find_at(pel2, id, 0);
    }
    assert(spec_pending(l3, consumer, id) == Some(2u64));
    assert(l3.entries == l1.entries);
    let row3 = crate::store::Pending { id, consumer, count: 3 };
    let pel3 = crate::store::pel_bump(pel2, id);
    assert(pel3.len() == 1 && pel3[0] == row3);
    assert(o3 == (RetryOutcome::Delivered { id, acked: true }));
    assert(crate::store::pel_without(pel3, id) =~= Seq::<crate::store::Pending>::empty()) by {
        let empty_pel = Seq::<crate::store::Pending>::empty();
        assert(pel3.drop_last() =~= empty_pel);
        assert(crate::store::pel_without(empty_pel, id) =~= empty_pel);
        assert(pel3.last() == row3);
    }
    assert(l4.group->Some_0.pel.len() == 0);
    assert(c4.len() == 0);
    assert(l4.entries == l1.entries);
    assert(crate::store::has_entry(l4.entries, id)) by {
        assert(l4.entries[l0.entries.len() as int].id == id);
    }
}

/// Retry-cap enforcement: append one well-formed mail job to a
/// caught-up queue and let the business action always fail. The
/// consumer pass and two coordinator passes each deliver the entry —
/// three deliveries in all — and the next coordinator pass finds its
/// delivery count at the budget, force-acknowledges it and drops it:
/// the pending list and the channel end empty, so no further delivery
/// of the entry ever occurs. The entry itself is never requeued
/// elsewhere; only the error report tells that it was dropped.
pub proof fn lemma_retry_cap_enforcement(
    l0: crate::store::LogV,
    fields: Seq<(Seq<char>, Seq<char>)>,
    consumer: u64,
    now_ms: u64,
    last_send_ok: bool,
)
    requires
        wf_log(l0),
        quiescent(l0),
        l0.last_id.seq < u64::MAX,
        spec_decode_mail(fields) is Some,
    ensures
        ({
            let id = spec_append_id(l0, now_ms);
            let l1 = spec_append(l0, fields, now_ms);
            let (l2, c2, o1) = spec_consumer_step(l1, Seq::empty(), consumer, false);
            let (l3, c3, o2) = spec_retry_step(l2, c2, false);
            let (l4, c4, o3) = spec_retry_step(l3, c3, false);
            let (l5, c5, o4) = spec_retry_step(l4, c4, last_send_ok);
            &&& o1 == (StepOutcome::Delivered { id, acked: false })
            &&& o2 == (RetryOutcome::Delivered { id, acked: false })
            &&& o3 == (RetryOutcome::Delivered { id, acked: false })
            &&& o4 == (RetryOutcome::Dropped { id, count: RETRY_LIMIT })
            &&& l5.group->Some_0.pel.len() == 0
            &&& c5.len() == 0
            &&& spec_retry_step(l5, c5, last_send_ok).2 == RetryOutcome::Idle
        }),
{
    let id = spec_append_id(l0, now_ms);
    let l1 = spec_append(l0, fields, now_ms);
    let e = crate::store::EntryV { id, fields };
    let g0 = l0.group->Some_0;
    let cursor = g0.cursor;
    assert(l1.entries == l0.entries.push(e));
    assert(l1.entries[l0.entries.len() as int] == e);
    assert forall|j: int| 0 <= j < l0.entries.len() implies !id_lt(
        cursor,
        (#[trigger] l1.entries[j]).id,
    ) && (#[trigger] l1.entries[j]).id != id by {
        assert(l1.entries[j] == l0.entries[j]);
        assert(crate::ids::id_le(l0.entries[j].id, l0.last_id));
    }
    assert(id_lt(cursor, e.id));
    crate::store::lemma_first_after_at(l1.entries, cursor, l0.entries.len() as int);
    crate::store::lemma_entry_of_at(l1.entries, id, l0.entries.len() as int);

    let (l2, c2, o1) = spec_consumer_step(l1, Seq::empty(), consumer, false);
    let row1 = crate::store::Pending { id, consumer, count: 1 };
    let pel1 = g0.pel.push(row1);
    assert(l2.group->Some_0.pel == pel1);
    assert(pel1.len() == 1 && pel1[0] == row1);
    let it = RetryIntent { id, consumer };
    assert(c2.len() == 1 && c2[0] == it);
    assert(o1 == (StepOutcome::Delivered { id, acked: false }));

    let (l3, c3, o2) = spec_retry_step(l2, c2, false);
    assert(c2.drop_first() =~= Seq::<RetryIntent>::empty());
    crate::store::lemma_pel_find_at(pel1, id, 0);
    assert(spec_pending(l2, consumer, id) == Some(1u64));
    let row2 = crate::store::Pending { id, consumer, count: 2 };
    let pel2 = crate::store::pel_bump(pel1, id);
    assert(pel2.len() == 1 && pel2[0] == row2);
    assert(l3.group->Some_0.pel == pel2);
    assert(l3.entries == l1.entries);
    assert(c3 =~= Seq::empty().push(it));
    assert(o2 == (RetryOutcome::Delivered { id, acked: false }));

    let (l4, c4, o3) = spec_retry_step(l3, c3, false);
    assert(c3.drop_first() =~= Seq::<RetryIntent>::empty());
    crate::store::lemma_pel_find_at(pel2, id, 0);
    assert(spec_pending(l3, consumer, id) == Some(2u64));
    let row3 = crate::store::Pending { id, consumer, count: 3 };
    let pel3 = crate::store::pel_bump(pel2, id);
    assert(pel3.len() == 1 && pel3[0] == row3);
    assert(l4.group->Some_0.pel == pel3);
    assert(l4.entries == l1.entries);
    assert(c4 =~= Seq::empty().push(it));
    assert(o3 == (RetryOutcome::Delivered { id, acked: false }));

    // Fourth pass: the delivery count has reached the budget; the
    // entry is force-acknowledged, not redelivered.
    let (l5, c5, o4) = spec_retry_step(l4, c4, last_send_ok);
    assert(c4.drop_first() =~= Seq::<RetryIntent>::empty());
    crate::store::lemma_pel_find_at(pel3, id, 0);
    assert(spec_pending(l4, consumer, id) == Some(3u64));
    assert(o4 == (RetryOutcome::Dropped { id, count: RETRY_LIMIT }));
    assert(crate::store::pel_without(pel3, id) =~= Seq::<crate::store::Pending>::empty()) by {
        let empty_pel = Seq::<crate::store::Pending>::empty();
        assert(pel3.drop_last() =~= empty_pel);
        assert(crate::store::pel_without(empty_pel, id) =~= empty_pel);
        assert(pel3.last() == row3);
    }
    assert(l5.group->Some_0.pel.len() == 0);
    assert(c5.len() == 0);
}

/// Malformed entries are dropped on first delivery and never retried:
/// append an entry whose field map lacks the `subject` field (whatever
/// else it carries) to a caught-up queue. The consumer pass deletes it
/// outright — whatever the business action would have done — leaving
/// the log without the entry, nothing pending, and no retry intent.
pub proof fn lemma_malformed_entry_non_retry(
    l0: crate::store::LogV,
    fields: Seq<(Seq<char>, Seq<char>)>,
    consumer: u64,
    now_ms: u64,
    send_ok: bool,
)
    requires
        wf_log(l0),
        quiescent(l0),
        l0.last_id.seq < u64::MAX,
        crate::codec::lookup_field(fields, "subject"@) is None,
    ensures
        ({
            let id = spec_append_id(l0, now_ms);
            let l1 = spec_append(l0, fields, now_ms);
            let (l2, c2, o1) = spec_consumer_step(l1, Seq::empty(), consumer, send_ok);
            &&& o1 == (StepOutcome::MalformedDropped { id })
            &&& !crate::store::has_entry(l2.entries, id)
            &&& l2.group->Some_0.pel.len() == 0
            &&& c2.len() == 0
        }),
{
    let id = spec_append_id(l0, now_ms);
    let l1 = spec_append(l0, fields, now_ms);
    let e = crate::store::EntryV { id, fields };
    let g0 = l0.group->Some_0;
    let cursor = g0.cursor;
    assert(l1.entries == l0.entries.push(e));
    assert(l1.entries[l0.entries.len() as int] == e);
    assert forall|j: int| 0 <= j < l0.entries.len() implies !id_lt(
        cursor,
        (#[trigger] l1.entries[j]).id,
    ) by {
        assert(l1.entries[j] == l0.entries[j]);
        assert(crate::ids::id_le(l0.entries[j].id, l0.last_id));
    }
    assert(id_lt(cursor, e.id));
    crate::store::lemma_first_after_at(l1.entries, cursor, l0.entries.len() as int);
    crate::codec::lemma_decode_requires_fields(fields);

    let (l2, c2, o1) = spec_consumer_step(l1, Seq::empty(), consumer, send_ok);
    let row1 = crate::store::Pending { id, consumer, count: 1 };
    let pel1 = g0.pel.push(row1);
    assert(o1 == (StepOutcome::MalformedDropped { id }));

    // Deletion removes the entry; nothing else carried its identifier.
    let e1 = crate::store::entries_without(l1.entries, id);
    assert(l2.entries == e1);
    assert(!crate::store::has_entry(e1, id)) by {
        if crate::store::has_entry(e1, id) {
            let k = choose|k: int| 0 <= k < e1.len() && e1[k].id == id;
            crate::store::lemma_entries_without_contains(l1.entries, id, e1[k]);
        }
    }
    assert(crate::store::pel_without(pel1, id) =~= crate::store::pel_without(g0.pel, id)) by {
        assert(pel1.drop_last() =~= g0.pel);
        assert(pel1.last() == row1);
    }
    assert(crate::store::pel_without(g0.pel, id) =~= Seq::<crate::store::Pending>::empty()) by {
        assert(g0.pel =~= Seq::<crate::store::Pending>::empty());
        assert(crate::store::pel_without(Seq::<crate::store::Pending>::empty(), id)
            =~= Seq::<crate::store::Pending>::empty());
    }
    assert(l2.group->Some_0.pel.len() == 0);
    assert(c2.len() == 0);
}

} // verus!
