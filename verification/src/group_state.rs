//! Per-group simulation state and the compute side of the group worker.
//!
//! A `GroupState` maps each client id to the most recent position record
//! received from that client. It is owned by exactly one group worker; the
//! worker's cycling phase is the pure function `run_cycle`: absorb one frame
//! per client, then produce the full broadcast (one frame per known client)
//! that is sent to every client of the group.

use vstd::prelude::*;
use crate::codec::{rec_of, frame_of, data_to_bytes, bytes_to_data};

verus! {

/// One client's entry: its id and its latest position.
pub type Entry = (i32, (i16, i16, i16));

/// No client id occurs twice.
pub open spec fn ids_unique(s: Seq<Entry>) -> bool {
    forall|i: int, j: int| 0 <= i < j < s.len() ==> s[i].0 != s[j].0
}

/// Some entry carries this id.
pub open spec fn has_id(s: Seq<Entry>, id: i32) -> bool {
    exists|i: int| 0 <= i < s.len() && s[i].0 == id
}

/// The mapping held by a sequence of entries; a later entry wins over an
/// earlier one with the same id.
pub open spec fn map_of(s: Seq<Entry>) -> Map<i32, (i16, i16, i16)>
    decreases s.len(),
{
    if s.len() == 0 {
        Map::empty()
    } else {
        map_of(s.drop_last()).insert(s.last().0, s.last().1)
    }
}

/// The records carried by a sequence of frames.
pub open spec fn decoded_recs(frames: Seq<[u8; 10]>) -> Seq<Entry> {
    frames.map_values(|f: [u8; 10]| rec_of(f@))
}

/// The mapping after absorbing records in order: each record overwrites the
/// entry for its id, so the latest record per id is what remains.
pub open spec fn apply_records(m: Map<i32, (i16, i16, i16)>, rs: Seq<Entry>) -> Map<
    i32,
    (i16, i16, i16),
>
    decreases rs.len(),
{
    if rs.len() == 0 {
        m
    } else {
        apply_records(m, rs.drop_last()).insert(rs.last().0, rs.last().1)
    }
}

/// The latest record for `id` among `rs`, if any.
pub open spec fn latest(rs: Seq<Entry>, id: i32) -> Option<(i16, i16, i16)>
    decreases rs.len(),
{
    if rs.len() == 0 {
        Option::None
    } else if rs.last().0 == id {
        Option::Some(rs.last().1)
    } else {
        latest(rs.drop_last(), id)
    }
}

/// Absorbing records keeps, for every id, exactly the most recent record
/// seen for that id, and the prior value where none was seen; no id appears
/// or disappears otherwise.
pub proof fn lemma_latest_wins(m: Map<i32, (i16, i16, i16)>, rs: Seq<Entry>, id: i32)
    ensures
        latest(rs, id) is Some ==> apply_records(m, rs).contains_key(id) && apply_records(m, rs)[id]
            == latest(rs, id)->Some_0,
        latest(rs, id) is None ==> apply_records(m, rs).contains_key(id) == m.contains_key(id) && (
        m.contains_key(id) ==> apply_records(m, rs)[id] == m[id]),
    decreases rs.len(),
{
    if rs.len() > 0 {
        lemma_latest_wins(m, rs.drop_last(), id);
    }
}

/// Appending record streams composes their effects: absorbing `a + b` is
/// absorbing `a`, then `b`.
proof fn lemma_apply_records_concat(m: Map<i32, (i16, i16, i16)>, a: Seq<Entry>, b: Seq<Entry>)
    ensures
        apply_records(m, a + b) == apply_records(apply_records(m, a), b),
    decreases b.len(),
{
    if b.len() == 0 {
        assert(a + b =~= a);
    } else {
        lemma_apply_records_concat(m, a, b.drop_last());
        assert((a + b).drop_last() =~= a + b.drop_last());
        assert((a + b).last() == b.last());
    }
}

/// Whole cycles absorbed in order act like the single stream of all their
/// frames in order. With `lemma_latest_wins`, the state after a run of
/// cycles therefore holds exactly the most recent record per client id seen
/// across all of them.
pub proof fn lemma_cycles_are_one_stream(m: Map<i32, (i16, i16, i16)>, css: Seq<Seq<[u8; 10]>>)
    ensures
        apply_cycles(m, css) == apply_records(m, decoded_recs(css.flatten())),
    decreases css.len(),
{
    css.lemma_flatten_and_flatten_alt_are_equivalent();
    if css.len() == 0 {
        assert(decoded_recs(css.flatten_alt()) =~= Seq::<Entry>::empty());
    } else {
        lemma_cycles_are_one_stream(m, css.drop_last());
        css.drop_last().lemma_flatten_and_flatten_alt_are_equivalent();
        lemma_apply_records_concat(
            m,
            decoded_recs(css.drop_last().flatten_alt()),
            decoded_recs(css.last()),
        );
        assert(decoded_recs(css.drop_last().flatten_alt() + css.last()) =~= decoded_recs(
            css.drop_last().flatten_alt(),
        ) + decoded_recs(css.last()));
    }
}

/// State of one group: the latest position record per client id.
pub struct GroupState {
    entries: Vec<Entry>,
}

impl View for GroupState {
    type V = Seq<Entry>;

    closed spec fn view(&self) -> Seq<Entry> {
        self.entries@
    }
}

/// A sequence extended by one entry maps to the mapping with that entry
/// inserted.
proof fn lemma_map_of_push(s: Seq<Entry>, e: Entry)
    ensures
        map_of(s.push(e)) == map_of(s).insert(e.0, e.1),
{
    assert(s.push(e).drop_last() =~= s);
}

/// Overwriting the one entry that carries an id maps to the mapping with
/// that id reinserted.
proof fn lemma_map_of_update(s: Seq<Entry>, i: int, e: Entry)
    requires
        ids_unique(s),
        0 <= i < s.len(),
        s[i].0 == e.0,
    ensures
        map_of(s.update(i, e)) == map_of(s).insert(e.0, e.1),
    decreases s.len(),
{
    let t = s.update(i, e);
    if i == s.len() - 1 {
        assert(t.drop_last() =~= s.drop_last());
        assert(t.last() == e);
        assert(map_of(s.drop_last()).insert(s.last().0, s.last().1).insert(e.0, e.1)
            =~= map_of(s.drop_last()).insert(e.0, e.1));
    } else {
        assert(t.drop_last() =~= s.drop_last().update(i, e));
        assert(t.last() == s.last());
        lemma_map_of_update(s.drop_last(), i, e);
        assert(s.last().0 != e.0);
        assert(map_of(s.drop_last()).insert(e.0, e.1).insert(s.last().0, s.last().1)
            =~= map_of(s.drop_last()).insert(s.last().0, s.last().1).insert(e.0, e.1));
    }
}

impl GroupState {
    /// Fresh state for a group of `group_size` clients whose ids run
    /// contiguously from `start_id`, each at the zero position.
    pub fn new_zeroed(start_id: i32, group_size: usize) -> (s: GroupState)
        requires
            start_id >= 0,
            start_id + group_size <= 2147483648,
        ensures
            s@.len() == group_size,
            forall|j: int|
                0 <= j < group_size ==> s@[j] == (((start_id + j) as i32), (0i16, 0i16, 0i16)),
            ids_unique(s@),
    {
        let mut entries: Vec<Entry> = Vec::new();
        let mut j: usize = 0;
        while j < group_size
            invariant
                start_id >= 0,
                start_id + group_size <= 2147483648,
                j <= group_size,
                entries@.len() == j,
                forall|k: int|
                    0 <= k < j ==> entries@[k] == (((start_id + k) as i32), (0i16, 0i16, 0i16)),
            decreases group_size - j,
        {
            entries.push((start_id + (j as i32), (0i16, 0i16, 0i16)));
            j = j + 1;
        }
        GroupState { entries }
    }

    /// How many clients the state currently knows.
    pub fn len(&self) -> (n: usize)
        ensures
            n == self@.len(),
    {
        self.entries.len()
    }

    /// Record the latest position for `id`: overwrite its entry where one
    /// exists, append one where none does. Keys stay unique; no entry is
    /// ever duplicated.
    pub fn upsert(&mut self, id: i32, pos: (i16, i16, i16))
        requires
            ids_unique(old(self)@),
            old(self)@.len() < usize::MAX,
        ensures
            ids_unique(final(self)@),
            map_of(final(self)@) == map_of(old(self)@).insert(id, pos),
            has_id(old(self)@, id) ==> final(self)@.len() == old(self)@.len(),
            !has_id(old(self)@, id) ==> final(self)@ == old(self)@.push((id, pos)),
            forall|other: i32| has_id(final(self)@, other) == (has_id(old(self)@, other) || other == id),
    {
        let ghost s0 = self.entries@;
        let n: usize = self.entries.len();
        let mut i: usize = 0;
        while i < n
            invariant
                n == self.entries@.len(),
                i <= n,
                self.entries@ == s0,
                s0 == old(self)@,
                ids_unique(s0),
                s0.len() < usize::MAX,
                forall|k: int| 0 <= k < i ==> s0[k].0 != id,
            decreases n - i,
        {
            if self.entries[i].0 == id {
                self.entries[i] = (id, pos);
                proof {
                    lemma_map_of_update(s0, i as int, (id, pos));
                    assert(forall|other: i32|
                        has_id(self.entries@, other) ==> has_id(s0, other) || other == id) by {
                        assert(forall|k: int|
                            0 <= k < s0.len() && k != i ==> self.entries@[k] == s0[k]);
                    }
                    assert(forall|other: i32| #[trigger] has_id(s0, other) ==> has_id(self.entries@, other)) by {
                        assert(forall|k: int|
                            0 <= k < s0.len() && s0[k].0 != id ==> self.entries@[k] == s0[k]);
                        assert(self.entries@[i as int].0 == id);
                    }
                    assert(has_id(self.entries@, id));
                }
                return ;
            }
            i = i + 1;
        }
        proof {
            assert(!has_id(s0, id));
            lemma_map_of_push(s0, (id, pos));
        }
        self.entries.push((id, pos));
        proof {
            assert(forall|other: i32|
                has_id(self.entries@, other) == (has_id(s0, other) || other == id)) by {
                assert(forall|k: int| 0 <= k < s0.len() ==> self.entries@[k] == s0[k]);
                assert(self.entries@[s0.len() as int].0 == id);
                assert(forall|k: int|
                    0 <= k < self.entries@.len() && k != s0.len() ==> self.entries@[k] == s0[k]);
            }
        }
    }

    /// Absorb one received frame: decode it and record it as the latest
    /// position for the id it carries.
    pub fn receive_frame(&mut self, buffer: &[u8; 10])
        requires
            ids_unique(old(self)@),
            old(self)@.len() < usize::MAX,
        ensures
            ids_unique(final(self)@),
            map_of(final(self)@) == map_of(old(self)@).insert(
                rec_of(buffer@).0,
                rec_of(buffer@).1,
            ),
            has_id(old(self)@, rec_of(buffer@).0) ==> final(self)@.len() == old(self)@.len(),
            !has_id(old(self)@, rec_of(buffer@).0) ==> final(self)@.len() == old(self)@.len() + 1,
            forall|other: i32|
                has_id(final(self)@, other) == (has_id(old(self)@, other) || other == rec_of(
                    buffer@,
                ).0),
    {
        let (id, pos) = bytes_to_data(buffer);
        self.upsert(id, pos);
    }

    /// The full broadcast for this state: one encoded frame per known
    /// client, in entry order. Every client of the group is sent exactly
    /// this sequence each cycle.
    pub fn broadcast_frames(&self) -> (out: Vec<[u8; 10]>)
        ensures
            out@.len() == self@.len(),
            forall|i: int|
                0 <= i < out@.len() ==> out@[i]@ == frame_of(self@[i]) && rec_of(out@[i]@)
                    == self@[i],
    {
        let mut out: Vec<[u8; 10]> = Vec::new();
        let n: usize = self.entries.len();
        let mut i: usize = 0;
        while i < n
            invariant
                n == self.entries@.len(),
                i <= n,
                out@.len() == i,
                forall|k: int|
                    0 <= k < i ==> out@[k]@ == frame_of(self.entries@[k]) && rec_of(out@[k]@)
                        == self.entries@[k],
            decreases n - i,
        {
            let e: Entry = self.entries[i];
            out.push(data_to_bytes(&e));
            i = i + 1;
        }
        out
    }

    /// One simulation cycle: absorb one frame per client (in group order),
    /// then produce the broadcast sent to every client of the group. The
    /// state afterwards holds exactly the most recent record per id; when
    /// every frame carries an already-known id — each client reporting its
    /// own position — the group size, and so the broadcast length, is
    /// unchanged.
    pub fn run_cycle(&mut self, frames: &Vec<[u8; 10]>) -> (out: Vec<[u8; 10]>)
        requires
            ids_unique(old(self)@),
            old(self)@.len() + frames@.len() < usize::MAX,
        ensures
            ids_unique(final(self)@),
            map_of(final(self)@) == apply_records(map_of(old(self)@), decoded_recs(frames@)),
            out@.len() == final(self)@.len(),
            forall|i: int|
                0 <= i < out@.len() ==> rec_of(out@[i]@) == final(self)@[i],
            forall|other: i32|
                has_id(final(self)@, other) == (has_id(old(self)@, other) || exists|k: int|
                    0 <= k < frames@.len() && rec_of(frames@[k]@).0 == other),
            (forall|k: int| 0 <= k < frames@.len() ==> has_id(old(self)@, rec_of(frames@[k]@).0))
                ==> final(self)@.len() == old(self)@.len(),
    {
        let ghost s0 = self@;
        let ghost m0 = map_of(s0);
        let ghost d = decoded_recs(frames@);
        let n: usize = frames.len();
        let mut i: usize = 0;
        while i < n
            invariant
                n == frames@.len(),
                i <= n,
                d == decoded_recs(frames@),
                s0.len() + n < usize::MAX,
                m0 == map_of(s0),
                ids_unique(self@),
                self@.len() <= s0.len() + i,
                map_of(self@) == apply_records(m0, d.take(i as int)),
                forall|other: i32|
                    has_id(self@, other) == (has_id(s0, other) || exists|k: int|
                        0 <= k < i && rec_of(frames@[k]@).0 == other),
            decreases n - i,
        {
            let ghost s_prev = self@;
            let ghost iprev = i as int;
            proof {
                assert(d.take(iprev + 1).drop_last() =~= d.take(iprev));
                assert(d.take(iprev + 1).last() == rec_of(frames@[iprev]@));
            }
            self.receive_frame(&frames[i]);
            i = i + 1;
            proof {
                let fid = rec_of(frames@[iprev]@).0;
                assert forall|other: i32| has_id(self@, other) implies (has_id(s0, other)
                    || exists|k: int| 0 <= k < i && rec_of(frames@[k]@).0 == other) by {
                    if other == fid {
                        assert(0 <= iprev < i && rec_of(frames@[iprev]@).0 == other);
                    } else {
                        assert(has_id(s_prev, other));
                    }
                }
                assert forall|other: i32| (has_id(s0, other) || exists|k: int|
                    0 <= k < i && rec_of(frames@[k]@).0 == other) implies has_id(
                    self@,
                    other,
                ) by {
                    if has_id(s0, other) {
                        assert(has_id(s_prev, other));
                    } else {
                        let k = choose|k: int| 0 <= k < i && rec_of(frames@[k]@).0 == other;
                        if k < iprev {
                            assert(has_id(s_prev, other));
                        } else {
                            assert(other == fid);
                        }
                    }
                }
            }
        }
        proof {
            assert(d.take(n as int) =~= d);
            if forall|k: int| 0 <= k < frames@.len() ==> has_id(s0, rec_of(frames@[k]@).0) {
                assert(forall|other: i32| has_id(self@, other) == has_id(s0, other));
                lemma_same_ids_same_len(s0, self@);
            }
        }
        self.broadcast_frames()
    }

    /// The whole cycling phase: run one cycle per element of `cycles`. On
    /// the protocol's inputs — every frame carries an id already in the
    /// group — every cycle's broadcast has exactly one frame per client of
    /// the group, so each client receives `group size` frames per cycle.
    pub fn run_cycles(&mut self, cycles: &Vec<Vec<[u8; 10]>>) -> (outs: Vec<Vec<[u8; 10]>>)
        requires
            ids_unique(old(self)@),
            forall|c: int|
                0 <= c < cycles@.len() ==> old(self)@.len() + cycles@[c]@.len() < usize::MAX,
            forall|c: int, k: int|
                0 <= c < cycles@.len() && 0 <= k < cycles@[c]@.len() ==> has_id(
                    old(self)@,
                    rec_of(cycles@[c]@[k]@).0,
                ),
        ensures
            ids_unique(final(self)@),
            final(self)@.len() == old(self)@.len(),
            forall|other: i32| has_id(final(self)@, other) == has_id(old(self)@, other),
            map_of(final(self)@) == apply_cycles(map_of(old(self)@), views_of(cycles@)),
            outs@.len() == cycles@.len(),
            forall|c: int| 0 <= c < outs@.len() ==> outs@[c]@.len() == old(self)@.len(),
    {
        let ghost s0 = self@;
        let ghost m0 = map_of(s0);
        let ghost cs = views_of(cycles@);
        let mut outs: Vec<Vec<[u8; 10]>> = Vec::new();
        let n: usize = cycles.len();
        let mut c: usize = 0;
        while c < n
            invariant
                n == cycles@.len(),
                c <= n,
                cs == views_of(cycles@),
                m0 == map_of(s0),
                forall|ci: int|
                    0 <= ci < cycles@.len() ==> s0.len() + cycles@[ci]@.len() < usize::MAX,
                forall|ci: int, k: int|
                    0 <= ci < cycles@.len() && 0 <= k < cycles@[ci]@.len() ==> has_id(
                        s0,
                        rec_of(cycles@[ci]@[k]@).0,
                    ),
                ids_unique(self@),
                self@.len() == s0.len(),
                forall|other: i32| has_id(self@, other) == has_id(s0, other),
                map_of(self@) == apply_cycles(m0, cs.take(c as int)),
                outs@.len() == c,
                forall|ci: int| 0 <= ci < c ==> outs@[ci]@.len() == s0.len(),
            decreases n - c,
        {
            proof {
                assert(cs.take(c + 1).drop_last() =~= cs.take(c as int));
                assert(cs.take(c + 1).last() == cycles@[c as int]@);
            }
            let out: Vec<[u8; 10]> = self.run_cycle(&cycles[c]);
            outs.push(out);
            c = c + 1;
        }
        proof {
            assert(cs.take(n as int) =~= cs);
        }
        outs
    }
}

/// The views of a sequence of frame vectors.
pub open spec fn views_of(cycles: Seq<Vec<[u8; 10]>>) -> Seq<Seq<[u8; 10]>> {
    cycles.map_values(|c: Vec<[u8; 10]>| c@)
}

/// The mapping after running whole cycles in order.
pub open spec fn apply_cycles(m: Map<i32, (i16, i16, i16)>, css: Seq<Seq<[u8; 10]>>) -> Map<
    i32,
    (i16, i16, i16),
>
    decreases css.len(),
{
    if css.len() == 0 {
        m
    } else {
        apply_records(apply_cycles(m, css.drop_last()), decoded_recs(css.last()))
    }
}

/// Two entry sequences with unique ids and the same id set have the same
/// length.
proof fn lemma_same_ids_same_len(a: Seq<Entry>, b: Seq<Entry>)
    requires
        ids_unique(a),
        ids_unique(b),
        forall|id: i32| has_id(a, id) == has_id(b, id),
    ensures
        a.len() == b.len(),
    decreases a.len(),
{
    if a.len() == 0 {
        if b.len() > 0 {
            assert(has_id(b, b[0].0));
        }
    } else {
        let id = a.last().0;
        assert(has_id(a, id)) by {
            assert(a[a.len() - 1].0 == id);
        }
        assert(has_id(b, id));
        let j = choose|j: int| 0 <= j < b.len() && b[j].0 == id;
        let a1 = a.drop_last();
        let b1 = b.remove(j);
        assert(forall|x: int| 0 <= x < j ==> b1[x] == b[x]);
        assert(forall|x: int| j <= x < b1.len() ==> b1[x] == b[x + 1]);
        assert forall|other: i32| has_id(a1, other) == has_id(b1, other) by {
            if has_id(a1, other) {
                let k = choose|k: int| 0 <= k < a1.len() && a1[k].0 == other;
                assert(a[k].0 == other);
                assert(a[k].0 != a[a.len() - 1].0);
                assert(other != id);
                assert(has_id(a, other));
                assert(has_id(b, other));
                let l = choose|l: int| 0 <= l < b.len() && b[l].0 == other;
                assert(l != j);
                if l < j {
                    assert(b1[l].0 == other);
                } else {
                    assert(b1[l - 1].0 == other);
                }
                assert(has_id(b1, other));
            }
            if has_id(b1, other) {
                let k = choose|k: int| 0 <= k < b1.len() && b1[k].0 == other;
                if k < j {
                    assert(b[k].0 == other);
                    assert(b[k].0 != b[j].0);
                } else {
                    assert(b[k + 1].0 == other);
                    assert(b[k + 1].0 != b[j].0);
                }
                assert(other != id);
                assert(has_id(b, other));
                assert(has_id(a, other));
                let l = choose|l: int| 0 <= l < a.len() && a[l].0 == other;
                assert(l != a.len() - 1);
                assert(a1[l].0 == other);
                assert(has_id(a1, other));
            }
        }
        assert(ids_unique(a1)) by {
            assert(forall|x: int| 0 <= x < a1.len() ==> a1[x] == a[x]);
        }
        assert(ids_unique(b1)) by {
            assert(forall|x: int, y: int|
                0 <= x < y < b1.len() ==> b1[x].0 != b1[y].0) by {
                assert(forall|x: int| 0 <= x < j ==> b1[x] == b[x]);
                assert(forall|x: int| j <= x < b1.len() ==> b1[x] == b[x + 1]);
            }
        }
        lemma_same_ids_same_len(a1, b1);
    }
}

/// The init frames of one group: the client at position `j` is assigned id
/// `start_id + j`; the frame's overloaded payload carries the cycle count in
/// `x` and the group size in `z`, with `y` unused.
pub fn init_frames(start_id: i32, group_size: u16, cycles: i16) -> (out: Vec<[u8; 10]>)
    requires
        start_id >= 0,
        group_size <= 32767,
        start_id + group_size <= 2147483648,
    ensures
        out@.len() == group_size,
        forall|j: int|
            0 <= j < group_size ==> rec_of(out@[j]@) == (((start_id + j) as i32), (
                cycles,
                0i16,
                group_size as i16,
            )),
{
    let mut out: Vec<[u8; 10]> = Vec::new();
    let mut j: u16 = 0;
    while j < group_size
        invariant
            start_id >= 0,
            group_size <= 32767,
            start_id + group_size <= 2147483648,
            j <= group_size,
            out@.len() == j,
            forall|k: int|
                0 <= k < j ==> rec_of(out@[k]@) == (((start_id + k) as i32), (
                    cycles,
                    0i16,
                    group_size as i16,
                )),
        decreases group_size - j,
    {
        let rec: Entry = (start_id + (j as i32), (cycles, 0i16, group_size as i16));
        out.push(data_to_bytes(&rec));
        j = j + 1;
    }
    out
}

} // verus!
