use vstd::prelude::*;

verus! {

/// Identifier of one entry in an append-only log: the creation time in
/// epoch milliseconds, plus a sequence number that disambiguates entries
/// appended within the same millisecond.
///
/// On the wire an identifier is rendered as `<epoch-ms>-<seq>`, and the
/// store hands identifiers out in strictly increasing order per log.
#[derive(Clone, Copy, PartialEq, Eq, Structural, Debug)]
pub struct EntryId {
    pub ms: u64,
    pub seq: u64,
}

/// Strict ordering of entry identifiers: by timestamp, then by sequence.
pub open spec fn id_lt(a: EntryId, b: EntryId) -> bool {
    a.ms < b.ms || (a.ms == b.ms && a.seq < b.seq)
}

/// Reflexive closure of [`id_lt`].
pub open spec fn id_le(a: EntryId, b: EntryId) -> bool {
    a == b || id_lt(a, b)
}

/// The identifier the store assigns to the next append, given the highest
/// identifier assigned so far and the current clock reading: a fresh
/// millisecond opens a new sequence, otherwise the sequence number advances.
pub open spec fn spec_next_id(last: EntryId, now_ms: u64) -> EntryId {
    if now_ms > last.ms {
        EntryId { ms: now_ms, seq: 0 }
    } else {
        EntryId { ms: last.ms, seq: (last.seq + 1) as u64 }
    }
}

impl EntryId {
    /// The identifier below every identifier the store ever assigns;
    /// reading from it sees the whole log.
    pub fn origin() -> (r: EntryId)
        ensures
            r == (EntryId { ms: 0, seq: 0 }),
    {
        EntryId { ms: 0, seq: 0 }
    }

    /// Compares two identifiers in the strict log order.
    pub fn lt(&self, other: &EntryId) -> (r: bool)
        ensures
            r == id_lt(*self, *other),
    {
        self.ms < other.ms || (self.ms == other.ms && self.seq < other.seq)
    }

    /// Computes the identifier of the next append; see [`spec_next_id`].
    pub fn next(&self, now_ms: u64) -> (r: EntryId)
        requires
            self.seq < u64::MAX,
        ensures
            r == spec_next_id(*self, now_ms),
            id_lt(*self, r),
    {
        if now_ms > self.ms {
            EntryId { ms: now_ms, seq: 0 }
        } else {
            EntryId { ms: self.ms, seq: self.seq + 1 }
        }
    }
}

/// Ordering is transitive, so identifiers assigned by successive appends
/// are strictly increasing however far apart the appends are.
pub proof fn lemma_id_lt_transitive(a: EntryId, b: EntryId, c: EntryId)
    requires
        id_lt(a, b),
        id_lt(b, c),
    ensures
        id_lt(a, c),
{
}

/// Ordering is irreflexive: no identifier compares below itself, so two
/// distinct appends can never receive the same identifier.
pub proof fn lemma_id_lt_irreflexive(a: EntryId)
    ensures
        !id_lt(a, a),
{
}

/// ASCII decimal digit.
pub open spec fn is_digit(b: u8) -> bool {
    48 <= b && b <= 57
}

/// Every byte of the sequence is an ASCII decimal digit.
pub open spec fn all_digits(s: Seq<u8>) -> bool {
    forall|i: int| 0 <= i < s.len() ==> is_digit(#[trigger] s[i])
}

/// Value of a sequence of ASCII decimal digits, most significant first.
pub open spec fn digits_val(s: Seq<u8>) -> nat
    decreases s.len(),
{
    if s.len() == 0 {
        0
    } else {
        digits_val(s.drop_last()) * 10 + (s.last() - 48) as nat
    }
}

/// Peeling one digit off the end of a digit-string multiplies the prefix
/// value by ten and adds that digit.
proof fn lemma_digits_val_step(s: Seq<u8>, i: int)
    requires
        0 <= i < s.len(),
    ensures
        digits_val(s.subrange(0, i + 1)) == digits_val(s.subrange(0, i)) * 10 + (s[i] - 48) as nat,
{
    let t = s.subrange(0, i + 1);
    assert(t.drop_last() =~= s.subrange(0, i));
    assert(t.last() == s[i]);
}

/// A digit-string is worth at least as much as any of its prefixes.
proof fn lemma_digits_val_prefix_le(s: Seq<u8>, i: int)
    requires
        0 <= i <= s.len(),
        all_digits(s),
    ensures
        digits_val(s.subrange(0, i)) <= digits_val(s),
    decreases s.len() - i,
{
    if i == s.len() {
        assert(s.subrange(0, i) =~= s);
    } else {
        lemma_digits_val_step(s, i);
        lemma_digits_val_prefix_le(s, i + 1);
    }
}

/// Parses an unsigned decimal number, rejecting empty input, any
/// non-digit byte, and values that do not fit in 64 bits. This is exactly
/// the shape of the numeric halves of a wire-format entry identifier.
pub fn parse_u64_digits(s: &[u8]) -> (r: Option<u64>)
    ensures
        match r {
            Some(v) => s@.len() > 0 && all_digits(s@) && v as nat == digits_val(s@),
            None => s@.len() == 0 || !all_digits(s@) || digits_val(s@) > u64::MAX,
        },
{
    if s.len() == 0 {
        return None;
    }
    let mut i: usize = 0;
    let mut acc: u64 = 0;
    while i < s.len()
        invariant
            0 <= i <= s@.len(),
            all_digits(s@.subrange(0, i as int)),
            acc as nat == digits_val(s@.subrange(0, i as int)),
        decreases s@.len() - i,
    {
        let b = *vstd::slice::slice_index_get(s, i);
        if b < 48 || b > 57 {
            assert(!is_digit(s@[i as int]));
            return None;
        }
        let d: u64 = (b - 48) as u64;
        proof {
            lemma_digits_val_step(s@, i as int);
        }
        if acc > (u64::MAX - d) / 10 {
            proof {
                assert(acc * 10 + d > u64::MAX) by (nonlinear_arith)
                    requires
                        acc > (u64::MAX - d) / 10,
                        d <= 9,
                {}
                assert(digits_val(s@.subrange(0, i + 1)) > u64::MAX);
                assert(all_digits(s@) ==> digits_val(s@) > u64::MAX) by {
                    if all_digits(s@) {
                        lemma_digits_val_prefix_le(s@, i + 1);
                    }
                }
            }
            return None;
        }
        proof {
            assert(acc * 10 + d <= u64::MAX) by (nonlinear_arith)
                requires
                    acc <= (u64::MAX - d) / 10,
                    d <= 9,
            {}
        }
        acc = acc * 10 + d;
        i = i + 1;
    }
    assert(s@.subrange(0, i as int) =~= s@);
    Some(acc)
}

/// Index of the first `-` in the wire form of an identifier, or the whole
/// length when there is none: the bytes before it are the timestamp part.
pub open spec fn first_dash(s: Seq<u8>) -> int
    decreases s.len(),
{
    if s.len() == 0 {
        0
    } else if s[0] == 45 {
        0
    } else {
        1 + first_dash(s.drop_first())
    }
}

/// What [`first_dash`] computes, spelled out: nothing before it is a
/// dash, and it points at a dash unless there is none at all.
pub proof fn lemma_first_dash_characterization(s: Seq<u8>)
    ensures
        0 <= first_dash(s) <= s.len(),
        forall|j: int| 0 <= j < first_dash(s) ==> s[j] != 45,
        first_dash(s) < s.len() ==> s[first_dash(s)] == 45,
    decreases s.len(),
{
    if s.len() > 0 && s[0] != 45 {
        lemma_first_dash_characterization(s.drop_first());
        assert forall|j: int| 0 <= j < first_dash(s) implies s[j] != 45 by {
            if j > 0 {
                assert(s.drop_first()[j - 1] != 45);
            }
        }
    }
}

/// Any index with the properties of [`lemma_first_dash_characterization`]
/// is `first_dash`: the characterization pins it down.
proof fn lemma_first_dash_unique(s: Seq<u8>, i: int)
    requires
        0 <= i <= s.len(),
        forall|j: int| 0 <= j < i ==> s[j] != 45,
        i < s.len() ==> s[i] == 45,
    ensures
        i == first_dash(s),
    decreases s.len(),
{
    if s.len() > 0 && s[0] != 45 {
        lemma_first_dash_unique(s.drop_first(), i - 1);
    }
}

/// The timestamp half of a wire-format identifier: the bytes before the
/// first dash, or all of it when no dash occurs.
pub open spec fn id_ms_part(s: Seq<u8>) -> Seq<u8> {
    s.subrange(0, first_dash(s))
}

/// The sequence half of a wire-format identifier: the bytes after the
/// first dash, empty when no dash occurs.
pub open spec fn id_seq_part(s: Seq<u8>) -> Seq<u8> {
    if first_dash(s) < s.len() {
        s.subrange(first_dash(s) + 1, s.len() as int)
    } else {
        Seq::empty()
    }
}

/// Finds the first dash, as an exec counterpart of [`first_dash`].
fn find_dash(s: &[u8]) -> (i: usize)
    ensures
        i as int == first_dash(s@),
{
    let mut i: usize = 0;
    while i < s.len()
        invariant
            0 <= i <= s@.len(),
            forall|j: int| 0 <= j < i ==> s@[j] != 45,
        decreases s@.len() - i,
    {
        if *vstd::slice::slice_index_get(s, i) == 45 {
            proof {
                lemma_first_dash_unique(s@, i as int);
            }
            return i;
        }
        i = i + 1;
    }
    proof {
        lemma_first_dash_unique(s@, i as int);
    }
    i
}

/// Extracts the creation time embedded in a wire-format entry identifier:
/// the decimal value of the bytes before the first dash. `None` marks the
/// identifier as malformed, which the queues treat as non-retryable.
pub fn extract_create_ms(id: &[u8]) -> (r: Option<u64>)
    ensures
        match r {
            Some(v) => {
                &&& id_ms_part(id@).len() > 0
                &&& all_digits(id_ms_part(id@))
                &&& v as nat == digits_val(id_ms_part(id@))
            },
            None => id_ms_part(id@).len() == 0 || !all_digits(id_ms_part(id@)) || digits_val(
                id_ms_part(id@),
            ) > u64::MAX,
        },
{
    proof {
        lemma_first_dash_characterization(id@);
    }
    let dash = find_dash(id);
    let ms_part = vstd::slice::slice_subrange(id, 0, dash);
    parse_u64_digits(ms_part)
}

/// Parses a whole wire-format identifier `<epoch-ms>-<seq>`. Unlike
/// [`extract_create_ms`] it also insists that the sequence half is a
/// well-formed number, so the result round-trips exactly.
pub fn parse_entry_id(id: &[u8]) -> (r: Option<EntryId>)
    ensures
        match r {
            Some(e) => {
                &&& first_dash(id@) < id@.len()
                &&& id_ms_part(id@).len() > 0
                &&& all_digits(id_ms_part(id@))
                &&& e.ms as nat == digits_val(id_ms_part(id@))
                &&& id_seq_part(id@).len() > 0
                &&& all_digits(id_seq_part(id@))
                &&& e.seq as nat == digits_val(id_seq_part(id@))
            },
            None => {
                ||| first_dash(id@) >= id@.len()
                ||| id_ms_part(id@).len() == 0
                ||| !all_digits(id_ms_part(id@))
                ||| digits_val(id_ms_part(id@)) > u64::MAX
                ||| id_seq_part(id@).len() == 0
                ||| !all_digits(id_seq_part(id@))
                ||| digits_val(id_seq_part(id@)) > u64::MAX
            },
        },
{
    proof {
        lemma_first_dash_characterization(id@);
    }
    let dash = find_dash(id);
    if dash >= id.len() {
        return None;
    }
    let ms_part = vstd::slice::slice_subrange(id, 0, dash);
    let seq_part = vstd::slice::slice_subrange(id, dash + 1, id.len());
    let ms = match parse_u64_digits(ms_part) {
        Some(v) => v,
        None => {
            return None;
        },
    };
    let seq = match parse_u64_digits(seq_part) {
        Some(v) => v,
        None => {
            return None;
        },
    };
    Some(EntryId { ms, seq })
}

} // verus!
