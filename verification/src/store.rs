use vstd::prelude::*;

use crate::ids::{id_le, id_lt, spec_next_id, EntryId};

verus! {

/// One immutable record of a log: a store-assigned identifier and an
/// ordered, application-defined mapping of string fields.
pub struct Entry {
    pub id: EntryId,
    pub fields: Vec<(String, String)>,
}

/// Mathematical image of an [`Entry`]: the field map as a sequence of
/// character-sequence pairs.
pub struct EntryV {
    pub id: EntryId,
    pub fields: Seq<(Seq<char>, Seq<char>)>,
}

impl View for Entry {
    type V = EntryV;

    open spec fn view(&self) -> EntryV {
        EntryV { id: self.id, fields: self.fields.deep_view() }
    }
}

impl DeepView for Entry {
    type V = EntryV;

    open spec fn deep_view(&self) -> EntryV {
        self.view()
    }
}

/// One row of a consumer group's pending entry list: an entry claimed by
/// a consumer and not yet acknowledged, with the number of times the
/// store has delivered it.
#[derive(Clone, Copy, PartialEq, Eq, Structural, Debug)]
pub struct Pending {
    pub id: EntryId,
    pub consumer: u64,
    pub count: u64,
}

/// A consumer group over one log: the cursor past which entries count as
/// never-delivered, and the pending entry list.
pub struct Group {
    pub cursor: EntryId,
    pub pel: Vec<Pending>,
}

/// Mathematical image of a [`Group`].
pub struct GroupV {
    pub cursor: EntryId,
    pub pel: Seq<Pending>,
}

impl View for Group {
    type V = GroupV;

    open spec fn view(&self) -> GroupV {
        GroupV { cursor: self.cursor, pel: self.pel@ }
    }
}

/// A named log of the durable store, modelled precisely: the live
/// entries in identifier order, the highest identifier ever assigned
/// (deletion never lowers it), and at most one consumer group. This
/// model is the contract the queue loops are verified against; the
/// durable store is trusted to behave like it.
pub struct Log {
    pub entries: Vec<Entry>,
    pub last_id: EntryId,
    pub group: Option<Group>,
}

/// Mathematical image of a [`Log`].
pub struct LogV {
    pub entries: Seq<EntryV>,
    pub last_id: EntryId,
    pub group: Option<GroupV>,
}

impl View for Log {
    type V = LogV;

    open spec fn view(&self) -> LogV {
        LogV {
            entries: self.entries.deep_view(),
            last_id: self.last_id,
            group: match self.group {
                Some(g) => Some(g@),
                None => None,
            },
        }
    }
}

/// The identifier below every identifier the store assigns.
pub open spec fn origin_id() -> EntryId {
    EntryId { ms: 0, seq: 0 }
}

/// Whether some live entry carries this identifier.
pub open spec fn has_entry(entries: Seq<EntryV>, id: EntryId) -> bool {
    exists|k: int| 0 <= k < entries.len() && entries[k].id == id
}

/// Well-formedness of a group, relative to its log's entries: pending
/// identifiers are distinct, belong to live entries, were all delivered
/// (so they do not exceed the cursor), and have been delivered at least
/// once.
pub open spec fn wf_group(entries: Seq<EntryV>, g: GroupV) -> bool {
    &&& forall|i: int, j: int|
        0 <= i < j < g.pel.len() ==> (#[trigger] g.pel[i]).id != (#[trigger] g.pel[j]).id
    &&& forall|i: int| 0 <= i < g.pel.len() ==> has_entry(entries, (#[trigger] g.pel[i]).id)
    &&& forall|i: int| 0 <= i < g.pel.len() ==> id_le((#[trigger] g.pel[i]).id, g.cursor)
    &&& forall|i: int| 0 <= i < g.pel.len() ==> (#[trigger] g.pel[i]).count >= 1
}

/// Well-formedness of a log: entries strictly increase in identifier
/// order, none predates the origin, none exceeds the highest assigned
/// identifier, and the group (if any) is well-formed with a cursor no
/// higher than the highest assigned identifier.
pub open spec fn wf_log(l: LogV) -> bool {
    &&& forall|i: int, j: int|
        0 <= i < j < l.entries.len() ==> id_lt(
            (#[trigger] l.entries[i]).id,
            (#[trigger] l.entries[j]).id,
        )
    &&& forall|i: int| 0 <= i < l.entries.len() ==> id_lt(origin_id(), (#[trigger] l.entries[i]).id)
    &&& forall|i: int| 0 <= i < l.entries.len() ==> id_le((#[trigger] l.entries[i]).id, l.last_id)
    &&& match l.group {
        Some(g) => wf_group(l.entries, g) && id_le(g.cursor, l.last_id),
        None => true,
    }
}

/// The identifier [`Log::append`] assigns next.
pub open spec fn spec_append_id(l: LogV, now_ms: u64) -> EntryId {
    spec_next_id(l.last_id, now_ms)
}

/// The log after appending one entry with the given fields: the new
/// entry goes to the end with a fresh, strictly larger identifier; the
/// group is untouched.
pub open spec fn spec_append(l: LogV, fields: Seq<(Seq<char>, Seq<char>)>, now_ms: u64) -> LogV {
    let id = spec_append_id(l, now_ms);
    LogV {
        entries: l.entries.push(EntryV { id, fields }),
        last_id: id,
        group: l.group,
    }
}

/// The entries with identifiers strictly above `from`, in log order:
/// what an ungrouped range read starting after `from` returns.
pub open spec fn entries_after(s: Seq<EntryV>, from: EntryId) -> Seq<EntryV>
    decreases s.len(),
{
    if s.len() == 0 {
        Seq::empty()
    } else if id_lt(from, s.last().id) {
        entries_after(s.drop_last(), from).push(s.last())
    } else {
        entries_after(s.drop_last(), from)
    }
}

/// An ungrouped read from the origin re-scans every live entry: on a
/// well-formed log, reading after the origin is reading everything.
pub proof fn lemma_entries_after_origin(s: Seq<EntryV>)
    requires
        forall|i: int| 0 <= i < s.len() ==> id_lt(origin_id(), (#[trigger] s[i]).id),
    ensures
        entries_after(s, origin_id()) == s,
    decreases s.len(),
{
    if s.len() > 0 {
        lemma_entries_after_origin(s.drop_last());
        assert(entries_after(s, origin_id()) =~= s);
    }
}

/// A sequence contains an element exactly when its front part does or
/// its last element is the one sought.
pub proof fn lemma_contains_split_last<T>(s: Seq<T>, e: T)
    requires
        s.len() > 0,
    ensures
        s.contains(e) <==> (s.drop_last().contains(e) || s.last() == e),
{
    if s.contains(e) {
        let k = choose|k: int| 0 <= k < s.len() && s[k] == e;
        if k < s.len() - 1 {
            assert(s.drop_last()[k] == e);
        }
    }
    if s.drop_last().contains(e) {
        let k = choose|k: int| 0 <= k < s.drop_last().len() && s.drop_last()[k] == e;
        assert(s[k] == e);
    }
    assert(s[s.len() - 1] == s.last());
}

/// Membership in a range read, spelled out: exactly the entries above
/// `from` appear, and none is invented.
pub proof fn lemma_entries_after_contains(s: Seq<EntryV>, from: EntryId, e: EntryV)
    ensures
        entries_after(s, from).contains(e) <==> (s.contains(e) && id_lt(from, e.id)),
    decreases s.len(),
{
    if s.len() == 0 {
        assert(!s.contains(e));
        assert(!entries_after(s, from).contains(e));
    } else {
        lemma_entries_after_contains(s.drop_last(), from, e);
        lemma_contains_split_last(s, e);
        if id_lt(from, s.last().id) {
            lemma_contains_split_last(entries_after(s.drop_last(), from).push(s.last()), e);
            assert(entries_after(s.drop_last(), from).push(s.last()).drop_last()
                =~= entries_after(s.drop_last(), from));
        }
    }
}

/// Duplicates a field map; the copy carries the same field values.
pub fn clone_fields(v: &Vec<(String, String)>) -> (r: Vec<(String, String)>)
    ensures
        r@ == v@,
{
    let mut out: Vec<(String, String)> = Vec::new();
    let mut i: usize = 0;
    while i < v.len()
        invariant
            0 <= i <= v.len(),
            out@ =~= v@.subrange(0, i as int),
        decreases v.len() - i,
    {
        let p0 = v[i].0.clone();
        let p1 = v[i].1.clone();
        assert((p0, p1) == v@[i as int]);
        out.push((p0, p1));
        assert(out@ =~= v@.subrange(0, i + 1));
        i = i + 1;
    }
    assert(v@.subrange(0, i as int) =~= v@);
    out
}

/// Duplicates an entry; the copy has the same mathematical image.
pub fn clone_entry(e: &Entry) -> (r: Entry)
    ensures
        r@ == e@,
{
    Entry { id: e.id, fields: clone_fields(&e.fields) }
}

impl Log {
    /// A fresh, empty log with no consumer group.
    pub fn new() -> (r: Log)
        ensures
            r@.entries.len() == 0,
            r@.last_id == origin_id(),
            r@.group is None,
            wf_log(r@),
    {
        let r = Log { entries: Vec::new(), last_id: EntryId { ms: 0, seq: 0 }, group: None };
        proof {
            assert(r@.entries =~= Seq::<EntryV>::empty());
        }
        r
    }

    /// Appends one entry. The store assigns the identifier: strictly
    /// above everything assigned before, so ids in one log always
    /// increase, and with the current time as its timestamp part
    /// whenever the clock has moved on.
    pub fn append(&mut self, fields: Vec<(String, String)>, now_ms: u64) -> (r: EntryId)
        requires
            wf_log(old(self)@),
            old(self)@.last_id.seq < u64::MAX,
        ensures
            r == spec_append_id(old(self)@, now_ms),
            final(self)@ == spec_append(old(self)@, fields.deep_view(), now_ms),
            id_lt(old(self)@.last_id, r),
            wf_log(final(self)@),
    {
        let id = self.last_id.next(now_ms);
        let ghost prev = self@;
        self.entries.push(Entry { id, fields });
        self.last_id = id;
        proof {
            let ev = EntryV { id, fields: self@.entries.last().fields };
            assert(self@.entries =~= prev.entries.push(ev));
            assert(self@ == spec_append(prev, ev.fields, now_ms));
            assert forall|i: int| 0 <= i < prev.entries.len() implies id_lt(
                (#[trigger] prev.entries[i]).id,
                id,
            ) by {
                assert(id_le(prev.entries[i].id, prev.last_id));
            }
            match prev.group {
                Some(g) => {
                    assert forall|i: int| 0 <= i < g.pel.len() implies has_entry(
                        self@.entries,
                        (#[trigger] g.pel[i]).id,
                    ) by {
                        let k = choose|k: int|
                            0 <= k < prev.entries.len() && prev.entries[k].id == g.pel[i].id;
                        assert(self@.entries[k].id == g.pel[i].id);
                    }
                },
                None => {},
            }
        }
        id
    }

    /// An ungrouped range read: every live entry with identifier
    /// strictly above `from`, in log order. Re-reading is idempotent;
    /// the same entries are seen on every poll until they are deleted.
    pub fn read_from(&self, from: &EntryId) -> (r: Vec<Entry>)
        ensures
            r.deep_view() == entries_after(self@.entries, *from),
    {
        let mut out: Vec<Entry> = Vec::new();
        let mut i: usize = 0;
        while i < self.entries.len()
            invariant
                0 <= i <= self.entries.len(),
                out.deep_view() =~= entries_after(
                    self@.entries.subrange(0, i as int),
                    *from,
                ),
            decreases self.entries.len() - i,
        {
            proof {
                assert(self@.entries.subrange(0, i + 1).drop_last() =~= self@.entries.subrange(
                    0,
                    i as int,
                ));
                assert(self@.entries.subrange(0, i + 1).last() == self@.entries[i as int]);
            }
            if from.lt(&self.entries[i].id) {
                let dup = clone_entry(&self.entries[i]);
                out.push(dup);
                assert(out.deep_view() =~= entries_after(
                    self@.entries.subrange(0, i + 1),
                    *from,
                ));
            }
            i = i + 1;
        }
        proof {
            assert(self@.entries.subrange(0, i as int) =~= self@.entries);
        }
        out
    }
}

/// The first entry strictly after the cursor: what a group read with the
/// "only new" semantics delivers next.
pub open spec fn first_after(s: Seq<EntryV>, c: EntryId) -> Option<EntryV>
    decreases s.len(),
{
    if s.len() == 0 {
        None
    } else if id_lt(c, s[0].id) {
        Some(s[0])
    } else {
        first_after(s.drop_first(), c)
    }
}

/// When a scan has passed `i` entries at or below the cursor and entry
/// `i` is above it, that entry is the one a group read delivers.
pub proof fn lemma_first_after_at(s: Seq<EntryV>, c: EntryId, i: int)
    requires
        0 <= i < s.len(),
        forall|j: int| 0 <= j < i ==> !id_lt(c, (#[trigger] s[j]).id),
        id_lt(c, s[i].id),
    ensures
        first_after(s, c) == Some(s[i]),
    decreases s.len(),
{
    if i > 0 {
        lemma_first_after_at(s.drop_first(), c, i - 1);
    }
}

/// A scan that finds nothing above the cursor means a group read
/// delivers nothing.
pub proof fn lemma_first_after_none(s: Seq<EntryV>, c: EntryId)
    requires
        forall|j: int| 0 <= j < s.len() ==> !id_lt(c, (#[trigger] s[j]).id),
    ensures
        first_after(s, c) is None,
    decreases s.len(),
{
    if s.len() > 0 {
        lemma_first_after_none(s.drop_first(), c);
    }
}

/// What a delivered entry is: a live entry, strictly above the cursor.
pub proof fn lemma_first_after_props(s: Seq<EntryV>, c: EntryId)
    requires
        first_after(s, c) is Some,
    ensures
        s.contains(first_after(s, c)->Some_0),
        id_lt(c, (first_after(s, c)->Some_0).id),
    decreases s.len(),
{
    if s.len() > 0 && !id_lt(c, s[0].id) {
        lemma_first_after_props(s.drop_first(), c);
        let e = first_after(s, c)->Some_0;
        let k = choose|k: int| 0 <= k < s.drop_first().len() && s.drop_first()[k] == e;
        assert(s[k + 1] == e);
    }
}

/// The pending row carrying this identifier, if any.
pub open spec fn pel_find(pel: Seq<Pending>, id: EntryId) -> Option<Pending>
    decreases pel.len(),
{
    if pel.len() == 0 {
        None
    } else if pel[0].id == id {
        Some(pel[0])
    } else {
        pel_find(pel.drop_first(), id)
    }
}

pub proof fn lemma_pel_find_at(pel: Seq<Pending>, id: EntryId, i: int)
    requires
        0 <= i < pel.len(),
        forall|j: int| 0 <= j < i ==> (#[trigger] pel[j]).id != id,
        pel[i].id == id,
    ensures
        pel_find(pel, id) == Some(pel[i]),
    decreases pel.len(),
{
    if i > 0 {
        lemma_pel_find_at(pel.drop_first(), id, i - 1);
    }
}

pub proof fn lemma_pel_find_none(pel: Seq<Pending>, id: EntryId)
    requires
        forall|j: int| 0 <= j < pel.len() ==> (#[trigger] pel[j]).id != id,
    ensures
        pel_find(pel, id) is None,
    decreases pel.len(),
{
    if pel.len() > 0 {
        lemma_pel_find_none(pel.drop_first(), id);
    }
}

/// The pending list with the row for this identifier taken out.
pub open spec fn pel_without(pel: Seq<Pending>, id: EntryId) -> Seq<Pending>
    decreases pel.len(),
{
    if pel.len() == 0 {
        Seq::empty()
    } else if pel.last().id == id {
        pel_without(pel.drop_last(), id)
    } else {
        pel_without(pel.drop_last(), id).push(pel.last())
    }
}

/// Removing a row keeps every other row and adds nothing.
pub proof fn lemma_pel_without_contains(pel: Seq<Pending>, id: EntryId, p: Pending)
    ensures
        pel_without(pel, id).contains(p) <==> (pel.contains(p) && p.id != id),
    decreases pel.len(),
{
    if pel.len() > 0 {
        lemma_pel_without_contains(pel.drop_last(), id, p);
        lemma_contains_split_last(pel, p);
        if pel.last().id != id {
            lemma_contains_split_last(pel_without(pel.drop_last(), id).push(pel.last()), p);
            assert(pel_without(pel.drop_last(), id).push(pel.last()).drop_last()
                =~= pel_without(pel.drop_last(), id));
        }
    }
}

/// The live entries with the entry carrying this identifier taken out.
pub open spec fn entries_without(s: Seq<EntryV>, id: EntryId) -> Seq<EntryV>
    decreases s.len(),
{
    if s.len() == 0 {
        Seq::empty()
    } else if s.last().id == id {
        entries_without(s.drop_last(), id)
    } else {
        entries_without(s.drop_last(), id).push(s.last())
    }
}

/// Deleting an entry keeps every other entry and adds nothing.
pub proof fn lemma_entries_without_contains(s: Seq<EntryV>, id: EntryId, e: EntryV)
    ensures
        entries_without(s, id).contains(e) <==> (s.contains(e) && e.id != id),
    decreases s.len(),
{
    if s.len() > 0 {
        lemma_entries_without_contains(s.drop_last(), id, e);
        lemma_contains_split_last(s, e);
        if s.last().id != id {
            lemma_contains_split_last(entries_without(s.drop_last(), id).push(s.last()), e);
            assert(entries_without(s.drop_last(), id).push(s.last()).drop_last()
                =~= entries_without(s.drop_last(), id));
        }
    }
}

/// The live entry carrying this identifier, if any.
pub open spec fn entry_of(s: Seq<EntryV>, id: EntryId) -> Option<EntryV>
    decreases s.len(),
{
    if s.len() == 0 {
        None
    } else if s[0].id == id {
        Some(s[0])
    } else {
        entry_of(s.drop_first(), id)
    }
}

pub proof fn lemma_entry_of_at(s: Seq<EntryV>, id: EntryId, i: int)
    requires
        0 <= i < s.len(),
        forall|j: int| 0 <= j < i ==> (#[trigger] s[j]).id != id,
        s[i].id == id,
    ensures
        entry_of(s, id) == Some(s[i]),
    decreases s.len(),
{
    if i > 0 {
        lemma_entry_of_at(s.drop_first(), id, i - 1);
    }
}

pub proof fn lemma_entry_of_none(s: Seq<EntryV>, id: EntryId)
    requires
        forall|j: int| 0 <= j < s.len() ==> (#[trigger] s[j]).id != id,
    ensures
        entry_of(s, id) is None,
    decreases s.len(),
{
    if s.len() > 0 {
        lemma_entry_of_none(s.drop_first(), id);
    }
}

/// Saturating bump of a delivery counter; redelivery counts upward and
/// never wraps.
pub open spec fn bump_count(c: u64) -> u64 {
    if c == u64::MAX {
        c
    } else {
        (c + 1) as u64
    }
}

/// The pending list after the store redelivers the row with this
/// identifier: the same rows, with that row's delivery count bumped.
pub open spec fn pel_bump(pel: Seq<Pending>, id: EntryId) -> Seq<Pending> {
    Seq::new(
        pel.len(),
        |i: int|
            if pel[i].id == id {
                Pending { id: pel[i].id, consumer: pel[i].consumer, count: bump_count(pel[i].count) }
            } else {
                pel[i]
            },
    )
}

/// Creating a group when none exists yet: the cursor starts either at
/// the origin (deliver everything already present) or at the highest
/// assigned identifier (deliver only entries appended from now on). An
/// existing group is left untouched.
pub open spec fn spec_create_group(l: LogV, from_start: bool) -> LogV {
    match l.group {
        Some(_) => l,
        None => LogV {
            entries: l.entries,
            last_id: l.last_id,
            group: Some(
                GroupV {
                    cursor: if from_start {
                        origin_id()
                    } else {
                        l.last_id
                    },
                    pel: Seq::empty(),
                },
            ),
        },
    }
}

/// A group read of one entry by `consumer`: the first entry never
/// delivered to the group is claimed — atomically with the read it
/// enters the pending list with delivery count 1 and the cursor moves
/// onto it. With nothing new, the log is untouched.
pub open spec fn spec_read_new(l: LogV, consumer: u64) -> (LogV, Option<EntryV>)
    recommends
        l.group is Some,
{
    let g = l.group->Some_0;
    match first_after(l.entries, g.cursor) {
        None => (l, None),
        Some(e) => (
            LogV {
                entries: l.entries,
                last_id: l.last_id,
                group: Some(
                    GroupV {
                        cursor: e.id,
                        pel: g.pel.push(Pending { id: e.id, consumer, count: 1 }),
                    },
                ),
            },
            Some(e),
        ),
    }
}

/// A pending-list query scoped to one consumer and one identifier: the
/// delivery count of that row, or nothing when the row is not pending
/// (or pending for another consumer).
pub open spec fn spec_pending(l: LogV, consumer: u64, id: EntryId) -> Option<u64> {
    match l.group {
        None => None,
        Some(g) => match pel_find(g.pel, id) {
            Some(p) => if p.consumer == consumer {
                Some(p.count)
            } else {
                None
            },
            None => None,
        },
    }
}

/// Acknowledging an entry: its pending row (claimed by whichever
/// consumer) leaves the pending list; the entry itself stays in the log.
/// Reports whether a row was actually pending.
pub open spec fn spec_ack(l: LogV, id: EntryId) -> (LogV, bool)
    recommends
        l.group is Some,
{
    let g = l.group->Some_0;
    (
        LogV {
            entries: l.entries,
            last_id: l.last_id,
            group: Some(GroupV { cursor: g.cursor, pel: pel_without(g.pel, id) }),
        },
        pel_find(g.pel, id) is Some,
    )
}

/// Deleting an entry: it leaves the log, and any pending row for it
/// leaves the pending list with it. Reports whether the entry was live.
pub open spec fn spec_delete(l: LogV, id: EntryId) -> (LogV, bool) {
    (
        LogV {
            entries: entries_without(l.entries, id),
            last_id: l.last_id,
            group: match l.group {
                Some(g) => Some(GroupV { cursor: g.cursor, pel: pel_without(g.pel, id) }),
                None => None,
            },
        },
        entry_of(l.entries, id) is Some,
    )
}

/// Redelivering a pending entry to the consumer holding it: the entry is
/// read again and its delivery count bumped through the same mechanism
/// as the original delivery. Nothing happens unless that exact entry is
/// pending for that exact consumer and still live.
pub open spec fn spec_redeliver(l: LogV, consumer: u64, id: EntryId) -> (LogV, Option<EntryV>)
    recommends
        l.group is Some,
{
    let g = l.group->Some_0;
    match (pel_find(g.pel, id), entry_of(l.entries, id)) {
        (Some(p), Some(e)) => if p.consumer == consumer {
            (
                LogV {
                    entries: l.entries,
                    last_id: l.last_id,
                    group: Some(GroupV { cursor: g.cursor, pel: pel_bump(g.pel, id) }),
                },
                Some(e),
            )
        } else {
            (l, None)
        },
        _ => (l, None),
    }
}

impl Log {
    /// Ensures the log's consumer group exists, without disturbing one
    /// already created; see [`spec_create_group`].
    pub fn create_group_if_absent(&mut self, from_start: bool)
        requires
            wf_log(old(self)@),
        ensures
            final(self)@ == spec_create_group(old(self)@, from_start),
            wf_log(final(self)@),
    {
        if self.group.is_none() {
            let cursor = if from_start {
                EntryId { ms: 0, seq: 0 }
            } else {
                self.last_id
            };
            self.group = Some(Group { cursor, pel: Vec::new() });
            proof {
                assert(self@.group->Some_0.pel =~= Seq::<Pending>::empty());
            }
        }
    }

    /// A group read of one entry; see [`spec_read_new`]. The returned
    /// entry (if any) is simultaneously claimed into the pending list.
    #[verifier::loop_isolation(false)]
    pub fn read_new(&mut self, consumer: u64) -> (r: Option<Entry>)
        requires
            wf_log(old(self)@),
            old(self)@.group is Some,
        ensures
            final(self)@ == spec_read_new(old(self)@, consumer).0,
            wf_log(final(self)@),
            match r {
                Some(e) => spec_read_new(old(self)@, consumer).1 == Some(e@),
                None => spec_read_new(old(self)@, consumer).1 is None,
            },
    {
        let cursor = match &self.group {
            Some(g) => g.cursor,
            None => {
                proof {
                    assert(false);
                }
                EntryId { ms: 0, seq: 0 }
            },
        };
        let ghost l0 = self@;
        let mut i: usize = 0;
        while i < self.entries.len()
            invariant
                self == old(self),
                self@ == l0,
                0 <= i <= self.entries.len(),
                forall|j: int| 0 <= j < i ==> !id_lt(cursor, (#[trigger] l0.entries[j]).id),
            decreases self.entries.len() - i,
        {
            if cursor.lt(&self.entries[i].id) {
                proof {
                    lemma_first_after_at(l0.entries, cursor, i as int);
                    lemma_first_after_props(l0.entries, cursor);
                }
                let e = clone_entry(&self.entries[i]);
                let e_id = e.id;
                match &mut self.group {
                    Some(g) => {
                        g.cursor = e_id;
                        g.pel.push(Pending { id: e_id, consumer, count: 1 });
                    },
                    None => {},
                }
                proof {
                    let g0 = l0.group->Some_0;
                    let g1 = self@.group->Some_0;
                    assert(g1.pel =~= g0.pel.push(Pending { id: e_id, consumer, count: 1 }));
                    assert(self@ == spec_read_new(l0, consumer).0);
                    assert forall|a: int, b: int|
                        0 <= a < b < g1.pel.len() implies (#[trigger] g1.pel[a]).id != (
                    #[trigger] g1.pel[b]).id by {
                        if b == g1.pel.len() - 1 {
                            assert(id_le(g0.pel[a].id, g0.cursor));
                        }
                    }
                    assert forall|a: int| 0 <= a < g1.pel.len() implies has_entry(
                        self@.entries,
                        (#[trigger] g1.pel[a]).id,
                    ) by {
                        if a == g1.pel.len() - 1 {
                            assert(self@.entries[i as int].id == e_id);
                        } else {
                            assert(has_entry(l0.entries, g0.pel[a].id));
                        }
                    }
                    assert(id_le(g1.cursor, self@.last_id)) by {
                        assert(id_le(l0.entries[i as int].id, l0.last_id));
                    }
                    assert forall|a: int| 0 <= a < g1.pel.len() implies id_le(
                        (#[trigger] g1.pel[a]).id,
                        g1.cursor,
                    ) by {
                        if a < g1.pel.len() - 1 {
                            assert(id_le(g0.pel[a].id, g0.cursor));
                        }
                    }
                }
                return Some(e);
            }
            i = i + 1;
        }
        proof {
            lemma_first_after_none(l0.entries, cursor);
        }
        None
    }

    /// A pending-list query for one consumer and one identifier; see
    /// [`spec_pending`]. Read-only: inspecting the pending list holds
    /// nothing and bumps nothing.
    #[verifier::loop_isolation(false)]
    pub fn pending_count(&self, consumer: u64, id: &EntryId) -> (r: Option<u64>)
        ensures
            r == spec_pending(self@, consumer, *id),
    {
        match &self.group {
            None => None,
            Some(g) => {
                let mut i: usize = 0;
                while i < g.pel.len()
                    invariant
                        0 <= i <= g.pel.len(),
                        forall|j: int| 0 <= j < i ==> (#[trigger] g.pel@[j]).id != *id,
                    decreases g.pel.len() - i,
                {
                    if g.pel[i].id == *id {
                        proof {
                            lemma_pel_find_at(g.pel@, *id, i as int);
                        }
                        if g.pel[i].consumer == consumer {
                            return Some(g.pel[i].count);
                        } else {
                            return None;
                        }
                    }
                    i = i + 1;
                }
                proof {
                    lemma_pel_find_none(g.pel@, *id);
                }
                None
            },
        }
    }

    /// Acknowledges an entry, removing its pending row; see
    /// [`spec_ack`]. Acknowledgement is how an entry leaves the pending
    /// list on the happy path.
    #[verifier::loop_isolation(false)]
    pub fn ack(&mut self, id: &EntryId) -> (r: bool)
        requires
            wf_log(old(self)@),
            old(self)@.group is Some,
        ensures
            final(self)@ == spec_ack(old(self)@, *id).0,
            r == spec_ack(old(self)@, *id).1,
            wf_log(final(self)@),
    {
        let ghost l0 = self@;
        let mut found = false;
        let ghost mut fidx: int = 0;
        match &mut self.group {
            Some(g) => {
                let ghost pel0 = g.pel@;
                let mut out: Vec<Pending> = Vec::new();
                let mut i: usize = 0;
                while i < g.pel.len()
                    invariant
                        g.pel@ == pel0,
                        0 <= i <= pel0.len(),
                        out@ =~= pel_without(pel0.subrange(0, i as int), *id),
                        !found ==> forall|j: int| 0 <= j < i ==> (#[trigger] pel0[j]).id != *id,
                        found ==> 0 <= fidx < i && pel0[fidx].id == *id && (forall|j: int|
                            0 <= j < fidx ==> (#[trigger] pel0[j]).id != *id),
                    decreases g.pel.len() - i,
                {
                    proof {
                        assert(pel0.subrange(0, i + 1).drop_last() =~= pel0.subrange(0, i as int));
                        assert(pel0.subrange(0, i + 1).last() == pel0[i as int]);
                    }
                    if g.pel[i].id == *id {
                        if !found {
                            found = true;
                            proof {
                                fidx = i as int;
                            }
                        }
                    } else {
                        out.push(g.pel[i]);
                    }
                    assert(out@ =~= pel_without(pel0.subrange(0, i + 1), *id));
                    i = i + 1;
                }
                proof {
                    assert(pel0.subrange(0, i as int) =~= pel0);
                    if found {
                        lemma_pel_find_at(pel0, *id, fidx);
                    } else {
                        lemma_pel_find_none(pel0, *id);
                    }
                }
                g.pel = out;
            },
            None => {},
        }
        proof {
            let g0 = l0.group->Some_0;
            assert(self@ == spec_ack(l0, *id).0);
            lemma_pel_wf_after_removal(l0.entries, g0, *id);
        }
        found
    }
}

/// Taking a row out of a well-formed pending list leaves a well-formed
/// pending list over the same entries.
proof fn lemma_pel_wf_after_removal(entries: Seq<EntryV>, g: GroupV, id: EntryId)
    requires
        wf_group(entries, g),
    ensures
        wf_group(entries, GroupV { cursor: g.cursor, pel: pel_without(g.pel, id) }),
{
    let pel1 = pel_without(g.pel, id);
    assert forall|i: int| 0 <= i < pel1.len() implies pel1.contains(pel1[i]) by {}
    assert forall|i: int, j: int|
        0 <= i < j < pel1.len() implies (#[trigger] pel1[i]).id != (#[trigger] pel1[j]).id by {
        lemma_pel_without_distinct(g.pel, id, i, j);
    }
    assert forall|i: int| 0 <= i < pel1.len() implies has_entry(entries, (#[trigger] pel1[i]).id)
        && id_le(pel1[i].id, g.cursor) && pel1[i].count >= 1 by {
        lemma_pel_without_contains(g.pel, id, pel1[i]);
        let k = choose|k: int| 0 <= k < g.pel.len() && g.pel[k] == pel1[i];
        assert(has_entry(entries, g.pel[k].id));
    }
}

/// Distinctness survives removal: two distinct positions of the pruned
/// list still carry distinct identifiers.
proof fn lemma_pel_without_distinct(pel: Seq<Pending>, id: EntryId, i: int, j: int)
    requires
        forall|a: int, b: int|
            0 <= a < b < pel.len() ==> (#[trigger] pel[a]).id != (#[trigger] pel[b]).id,
        0 <= i < j < pel_without(pel, id).len(),
    ensures
        pel_without(pel, id)[i].id != pel_without(pel, id)[j].id,
    decreases pel.len(),
{
    if pel.len() > 0 {
        let inner = pel_without(pel.drop_last(), id);
        if pel.last().id == id {
            lemma_pel_without_distinct(pel.drop_last(), id, i, j);
        } else {
            if j < inner.len() {
                lemma_pel_without_distinct(pel.drop_last(), id, i, j);
            } else {
                lemma_pel_without_contains(pel.drop_last(), id, inner[i]);
                let k = choose|k: int|
                    0 <= k < pel.drop_last().len() && pel.drop_last()[k] == inner[i];
                assert(pel[k] == inner[i]);
                assert(pel[pel.len() - 1] == pel.last());
            }
        }
    }
}

/// Order survives deletion: the pruned entries are still strictly
/// increasing.
proof fn lemma_entries_without_sorted(s: Seq<EntryV>, id: EntryId, i: int, j: int)
    requires
        forall|a: int, b: int|
            0 <= a < b < s.len() ==> id_lt((#[trigger] s[a]).id, (#[trigger] s[b]).id),
        0 <= i < j < entries_without(s, id).len(),
    ensures
        id_lt(entries_without(s, id)[i].id, entries_without(s, id)[j].id),
    decreases s.len(),
{
    if s.len() > 0 {
        let inner = entries_without(s.drop_last(), id);
        if s.last().id == id {
            lemma_entries_without_sorted(s.drop_last(), id, i, j);
        } else {
            if j < inner.len() {
                lemma_entries_without_sorted(s.drop_last(), id, i, j);
            } else {
                lemma_entries_without_contains(s.drop_last(), id, inner[i]);
                let k = choose|k: int|
                    0 <= k < s.drop_last().len() && s.drop_last()[k] == inner[i];
                assert(s[k] == inner[i]);
                assert(s[s.len() - 1] == s.last());
            }
        }
    }
}

impl Log {
    /// Deletes an entry outright; see [`spec_delete`]. Used for entries
    /// that have been fully processed (maturity queues) and for
    /// permanently malformed entries, which are never retried.
    #[verifier::loop_isolation(false)]
    pub fn delete(&mut self, id: &EntryId) -> (r: bool)
        requires
            wf_log(old(self)@),
        ensures
            final(self)@ == spec_delete(old(self)@, *id).0,
            r == spec_delete(old(self)@, *id).1,
            wf_log(final(self)@),
    {
        let ghost l0 = self@;
        let ghost entries0 = self@.entries;
        let mut found = false;
        let ghost mut fidx: int = 0;
        let mut out: Vec<Entry> = Vec::new();
        let mut i: usize = 0;
        while i < self.entries.len()
            invariant
                0 <= i <= self.entries.len(),
                out.deep_view() =~= entries_without(entries0.subrange(0, i as int), *id),
                !found ==> forall|j: int| 0 <= j < i ==> (#[trigger] entries0[j]).id != *id,
                found ==> 0 <= fidx < i && entries0[fidx].id == *id && (forall|j: int|
                    0 <= j < fidx ==> (#[trigger] entries0[j]).id != *id),
            decreases self.entries.len() - i,
        {
            proof {
                assert(entries0.subrange(0, i + 1).drop_last() =~= entries0.subrange(0, i as int));
                assert(entries0.subrange(0, i + 1).last() == entries0[i as int]);
            }
            if self.entries[i].id == *id {
                if !found {
                    found = true;
                    proof {
                        fidx = i as int;
                    }
                }
            } else {
                let dup = clone_entry(&self.entries[i]);
                out.push(dup);
            }
            assert(out.deep_view() =~= entries_without(entries0.subrange(0, i + 1), *id));
            i = i + 1;
        }
        proof {
            assert(entries0.subrange(0, i as int) =~= entries0);
            if found {
                lemma_entry_of_at(entries0, *id, fidx);
            } else {
                lemma_entry_of_none(entries0, *id);
            }
        }
        self.entries = out;
        match &mut self.group {
            Some(g) => {
                let ghost pel0 = g.pel@;
                let mut pout: Vec<Pending> = Vec::new();
                let mut k: usize = 0;
                while k < g.pel.len()
                    invariant
                        g.pel@ == pel0,
                        0 <= k <= pel0.len(),
                        pout@ =~= pel_without(pel0.subrange(0, k as int), *id),
                    decreases g.pel.len() - k,
                {
                    proof {
                        assert(pel0.subrange(0, k + 1).drop_last() =~= pel0.subrange(0, k as int));
                        assert(pel0.subrange(0, k + 1).last() == pel0[k as int]);
                    }
                    if !(g.pel[k].id == *id) {
                        pout.push(g.pel[k]);
                    }
                    assert(pout@ =~= pel_without(pel0.subrange(0, k + 1), *id));
                    k = k + 1;
                }
                proof {
                    assert(pel0.subrange(0, k as int) =~= pel0);
                }
                g.pel = pout;
            },
            None => {},
        }
        proof {
            assert(self@ == spec_delete(l0, *id).0);
            let e1 = entries_without(entries0, *id);
            assert forall|a: int, b: int|
                0 <= a < b < e1.len() implies id_lt((#[trigger] e1[a]).id, (#[trigger] e1[b]).id) by {
                lemma_entries_without_sorted(entries0, *id, a, b);
            }
            assert forall|a: int| 0 <= a < e1.len() implies id_lt(origin_id(), (#[trigger] e1[a]).id)
                && id_le(e1[a].id, l0.last_id) by {
                lemma_entries_without_contains(entries0, *id, e1[a]);
                let k = choose|k: int| 0 <= k < entries0.len() && entries0[k] == e1[a];
            }
            match l0.group {
                Some(g0) => {
                    let pel1 = pel_without(g0.pel, *id);
                    assert forall|a: int, b: int|
                        0 <= a < b < pel1.len() implies (#[trigger] pel1[a]).id != (
                    #[trigger] pel1[b]).id by {
                        lemma_pel_without_distinct(g0.pel, *id, a, b);
                    }
                    assert forall|a: int| 0 <= a < pel1.len() implies has_entry(
                        e1,
                        (#[trigger] pel1[a]).id,
                    ) && id_le(pel1[a].id, g0.cursor) && pel1[a].count >= 1 by {
                        lemma_pel_without_contains(g0.pel, *id, pel1[a]);
                        let k = choose|k: int| 0 <= k < g0.pel.len() && g0.pel[k] == pel1[a];
                        assert(has_entry(entries0, g0.pel[k].id));
                        let m = choose|m: int|
                            0 <= m < entries0.len() && entries0[m].id == pel1[a].id;
                        lemma_entries_without_contains(entries0, *id, entries0[m]);
                        assert(e1.contains(entries0[m]));
                        let w = choose|w: int| 0 <= w < e1.len() && e1[w] == entries0[m];
                    }
                },
                None => {},
            }
        }
        found
    }

    /// Redelivers a pending entry to the consumer that holds it; see
    /// [`spec_redeliver`]. The bumped delivery count is how the retry
    /// budget is enforced without any counter outside the store.
    #[verifier::loop_isolation(false)]
    pub fn redeliver(&mut self, consumer: u64, id: &EntryId) -> (r: Option<Entry>)
        requires
            wf_log(old(self)@),
            old(self)@.group is Some,
        ensures
            final(self)@ == spec_redeliver(old(self)@, consumer, *id).0,
            wf_log(final(self)@),
            match r {
                Some(e) => spec_redeliver(old(self)@, consumer, *id).1 == Some(e@),
                None => spec_redeliver(old(self)@, consumer, *id).1 is None,
            },
    {
        let ghost l0 = self@;
        let ghost g0 = l0.group->Some_0;
        // Look for the pending row with this identifier.
        let row = match &self.group {
            Some(g) => {
                let mut i: usize = 0;
                let mut row: Option<Pending> = None;
                while i < g.pel.len()
                    invariant
                        row is None,
                        0 <= i <= g.pel@.len(),
                        forall|j: int| 0 <= j < i ==> (#[trigger] g.pel@[j]).id != *id,
                    decreases g.pel.len() - i,
                {
                    if g.pel[i].id == *id {
                        proof {
                            lemma_pel_find_at(g.pel@, *id, i as int);
                        }
                        row = Some(g.pel[i]);
                        break;
                    }
                    i = i + 1;
                }
                proof {
                    if row is None {
                        lemma_pel_find_none(g.pel@, *id);
                    }
                }
                row
            },
            None => None,
        };
        let p = match row {
            Some(p) => p,
            None => {
                return None;
            },
        };
        if p.consumer != consumer {
            return None;
        }
        // The row exists, so by well-formedness the entry is live.
        proof {
            assert(has_entry(l0.entries, *id)) by {
                assert(pel_find(g0.pel, *id) == Some(p));
                lemma_pel_find_is_row(g0.pel, *id);
            }
        }
        let mut ei: usize = 0;
        let mut found_entry: Option<Entry> = None;
        while ei < self.entries.len()
            invariant
                found_entry is None,
                0 <= ei <= self.entries.len(),
                forall|j: int| 0 <= j < ei ==> (#[trigger] l0.entries[j]).id != *id,
            decreases self.entries.len() - ei,
        {
            if self.entries[ei].id == *id {
                proof {
                    lemma_entry_of_at(l0.entries, *id, ei as int);
                }
                found_entry = Some(clone_entry(&self.entries[ei]));
                break;
            }
            ei = ei + 1;
        }
        let e = match found_entry {
            Some(e) => e,
            None => {
                proof {
                    lemma_entry_of_none(l0.entries, *id);
                    let k = choose|k: int|
                        0 <= k < l0.entries.len() && l0.entries[k].id == *id;
                    assert(forall|j: int|
                        0 <= j < l0.entries.len() ==> (#[trigger] l0.entries[j]).id != *id);
                    assert(false);
                }
                return None;
            },
        };
        // Bump the delivery count of the pending row.
        match &mut self.group {
            Some(g) => {
                let ghost pel0 = g.pel@;
                let mut pout: Vec<Pending> = Vec::new();
                let mut k: usize = 0;
                while k < g.pel.len()
                    invariant
                        g.pel@ == pel0,
                        0 <= k <= pel0.len(),
                        pout@.len() == k,
                        forall|j: int| 0 <= j < k ==> pout@[j] == pel_bump(pel0, *id)[j],
                    decreases g.pel.len() - k,
                {
                    let q = g.pel[k];
                    if q.id == *id {
                        let c = if q.count == u64::MAX {
                            q.count
                        } else {
                            q.count + 1
                        };
                        pout.push(Pending { id: q.id, consumer: q.consumer, count: c });
                    } else {
                        pout.push(q);
                    }
                    k = k + 1;
                }
                proof {
                    assert(pout@ =~= pel_bump(pel0, *id));
                }
                g.pel = pout;
            },
            None => {},
        }
        proof {
            assert(self@ == spec_redeliver(l0, consumer, *id).0);
            let pel1 = pel_bump(g0.pel, *id);
            assert forall|a: int| 0 <= a < pel1.len() implies (#[trigger] pel1[a]).id == g0.pel[a].id
                && pel1[a].count >= g0.pel[a].count by {}
            assert forall|a: int| 0 <= a < pel1.len() implies has_entry(
                l0.entries,
                (#[trigger] pel1[a]).id,
            ) by {
                assert(has_entry(l0.entries, g0.pel[a].id));
            }
        }
        Some(e)
    }
}

/// The row that a pending-list search returns is a row of the list.
proof fn lemma_pel_find_is_row(pel: Seq<Pending>, id: EntryId)
    requires
        pel_find(pel, id) is Some,
    ensures
        pel.contains(pel_find(pel, id)->Some_0),
        (pel_find(pel, id)->Some_0).id == id,
    decreases pel.len(),
{
    if pel.len() > 0 && pel[0].id != id {
        lemma_pel_find_is_row(pel.drop_first(), id);
        let p = pel_find(pel, id)->Some_0;
        let k = choose|k: int| 0 <= k < pel.drop_first().len() && pel.drop_first()[k] == p;
        assert(pel[k + 1] == p);
    }
}

/// Identifier ordering: append two entries to the same log in sequence
/// — whatever the clock reads at each append, even if it stands still
/// or runs backwards — and the second identifier compares strictly
/// greater than the first. Within one log, identifiers only ever grow.
pub proof fn lemma_append_id_ordering(
    l0: LogV,
    f1: Seq<(Seq<char>, Seq<char>)>,
    f2: Seq<(Seq<char>, Seq<char>)>,
    t1: u64,
    t2: u64,
)
    requires
        l0.last_id.seq + 2 <= u64::MAX,
    ensures
        ({
            let id1 = spec_append_id(l0, t1);
            let l1 = spec_append(l0, f1, t1);
            let id2 = spec_append_id(l1, t2);
            id_lt(id1, id2)
        }),
{
}

/// Delivery order within a group: two successive group reads that both
/// deliver something deliver entries in strictly increasing identifier
/// order, whichever consumers claim them.
pub proof fn lemma_group_delivery_in_order(l: LogV, c1: u64, c2: u64)
    requires
        l.group is Some,
        spec_read_new(l, c1).1 is Some,
        spec_read_new(spec_read_new(l, c1).0, c2).1 is Some,
    ensures
        id_lt(
            (spec_read_new(l, c1).1->Some_0).id,
            (spec_read_new(spec_read_new(l, c1).0, c2).1->Some_0).id,
        ),
{
    let (l1, d1) = spec_read_new(l, c1);
    let e1 = d1->Some_0;
    let (l2, d2) = spec_read_new(l1, c2);
    let e2 = d2->Some_0;
    lemma_first_after_props(l.entries, l.group->Some_0.cursor);
    lemma_first_after_props(l1.entries, l1.group->Some_0.cursor);
    assert(l1.group->Some_0.cursor == e1.id);
    assert(id_lt(e1.id, e2.id));
}

} // verus!
