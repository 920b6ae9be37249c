//! Horizontal stacking of overlapping sessions: a greedy, first-fit colouring
//! of the interval graph, taken in order of start time.

use crate::model::GamingSession;
use std::collections::HashMap;
use vstd::prelude::*;

verus! {

/// The part of a session that stacking reads.
#[derive(Clone, Copy, Debug, PartialEq, Eq, Structural)]
pub struct Slot {
    pub id: i64,
    pub start: i64,
    pub end: i64,
}

pub open spec fn slot_of(e: GamingSession) -> Slot {
    Slot { id: e.session_id, start: e.start_time, end: e.end_time }
}

pub open spec fn slots_of(events: Seq<GamingSession>) -> Seq<Slot> {
    events.map_values(|e: GamingSession| slot_of(e))
}

/// Index at which a slot starting at `start` enters the ordered sequence `s`,
/// scanning from `j`: before the first element that starts later.
pub open spec fn insert_position(s: Seq<Slot>, start: i64, j: int) -> int
    decreases s.len() - j,
{
    if j < 0 || j >= s.len() || s[j].start > start {
        j
    } else {
        insert_position(s, start, j + 1)
    }
}

/// `s` ordered by start time; slots that start together keep their relative
/// order (an insertion sort, hence stable).
pub open spec fn sort_by_start(s: Seq<Slot>) -> Seq<Slot>
    decreases s.len(),
{
    if s.len() == 0 {
        Seq::empty()
    } else {
        let sorted = sort_by_start(s.drop_last());
        sorted.insert(insert_position(sorted, s.last().start, 0), s.last())
    }
}

/// First column, from `c` on, whose latest end is no later than `start`; the
/// number of columns when there is none.
pub open spec fn first_fit(ends: Seq<i64>, start: i64, c: int) -> int
    decreases ends.len() - c,
{
    if c < 0 || c >= ends.len() || ends[c] <= start {
        c
    } else {
        first_fit(ends, start, c + 1)
    }
}

/// Latest end time of each column after placing the slots of `s` in order.
pub open spec fn column_ends(s: Seq<Slot>) -> Seq<i64>
    decreases s.len(),
{
    if s.len() == 0 {
        Seq::empty()
    } else {
        let ends = column_ends(s.drop_last());
        let c = first_fit(ends, s.last().start, 0);
        if c == ends.len() {
            ends.push(s.last().end)
        } else {
            ends.update(c, s.last().end)
        }
    }
}

/// Column given to the `i`-th slot of the ordered sequence `s`.
pub open spec fn column_of(s: Seq<Slot>, i: int) -> int {
    first_fit(column_ends(s.take(i)), s[i].start, 0)
}

/// The mapping from session id to column after placing the slots of `s` in order.
pub open spec fn stacking_of(s: Seq<Slot>) -> Map<i64, i32>
    decreases s.len(),
{
    if s.len() == 0 {
        Map::empty()
    } else {
        stacking_of(s.drop_last()).insert(s.last().id, column_of(s, s.len() - 1) as i32)
    }
}

/// The stacking of a set of sessions: each is placed, in order of start time, in
/// the first column whose previous occupant has ended by its start.
pub open spec fn stacking(events: Seq<GamingSession>) -> Map<i64, i32> {
    stacking_of(sort_by_start(slots_of(events)))
}

proof fn lemma_column_ends_len(s: Seq<Slot>)
    ensures
        column_ends(s).len() <= s.len(),
    decreases s.len(),
{
    if s.len() > 0 {
        lemma_column_ends_len(s.drop_last());
        lemma_first_fit(column_ends(s.drop_last()), s.last().start, 0);
    }
}

/// Orders the slots of `events` by start time, stably.
fn sorted_slots(events: &Vec<GamingSession>) -> (r: Vec<Slot>)
    ensures
        r@ == sort_by_start(slots_of(events@)),
{
    let ghost all = slots_of(events@);
    let mut sorted: Vec<Slot> = Vec::new();
    let mut i: usize = 0;
    while i < events.len()
        invariant
            i <= events.len(),
            all == slots_of(events@),
            sorted@ == sort_by_start(all.take(i as int)),
        decreases events.len() - i,
    {
        let e = &events[i];
        let slot = Slot { id: e.session_id, start: e.start_time, end: e.end_time };
        proof {
            lemma_sort_by_start(all.take(i as int));
        }
        let mut j: usize = 0;
        while j < sorted.len() && sorted[j].start <= slot.start
            invariant
                j <= sorted.len(),
                insert_position(sorted@, slot.start, j as int) == insert_position(
                    sorted@,
                    slot.start,
                    0,
                ),
            decreases sorted.len() - j,
        {
            j = j + 1;
        }
        proof {
            assert(all.take(i as int + 1).drop_last() =~= all.take(i as int));
            assert(all[i as int] == slot);
        }
        sorted.insert(j, slot);
        i = i + 1;
    }
    proof {
        assert(all.take(events.len() as int) =~= all);
    }
    sorted
}

/// Assigns each session a column such that sessions in one column do not
/// overlap; back-to-back sessions (one ends as the next starts) may share one.
pub fn get_events_stacking(events: &Vec<GamingSession>) -> (r: HashMap<i64, i32>)
    requires
        events@.len() <= i32::MAX,
    ensures
        r@ == stacking(events@),
{
    broadcast use vstd::std_specs::hash::group_hash_axioms;

    let sorted = sorted_slots(events);
    proof {
        lemma_sort_by_start(slots_of(events@));
    }
    let mut ends: Vec<i64> = Vec::new();
    let mut positions: HashMap<i64, i32> = HashMap::new();
    let mut i: usize = 0;
    while i < sorted.len()
        invariant
            i <= sorted.len(),
            sorted.len() <= i32::MAX,
            ends@ == column_ends(sorted@.take(i as int)),
            positions@ == stacking_of(sorted@.take(i as int)),
        decreases sorted.len() - i,
    {
        let slot = sorted[i];
        proof {
            lemma_column_ends_len(sorted@.take(i as int));
        }
        let mut c: usize = 0;
        while c < ends.len() && ends[c] > slot.start
            invariant
                c <= ends.len(),
                first_fit(ends@, slot.start, c as int) == first_fit(ends@, slot.start, 0),
            decreases ends.len() - c,
        {
            c = c + 1;
        }
        proof {
            let s = sorted@.take(i as int + 1);
            assert(s.drop_last() =~= sorted@.take(i as int));
            assert(s.take(i as int) =~= sorted@.take(i as int));
        }
        if c == ends.len() {
            ends.push(slot.end);
        } else {
            ends.set(c, slot.end);
        }
        positions.insert(slot.id, c as i32);
        i = i + 1;
    }
    proof {
        assert(sorted@.take(sorted.len() as int) =~= sorted@);
    }
    positions
}

/// Every slot of `s` ends after it starts.
pub open spec fn intervals_valid(s: Seq<Slot>) -> bool {
    forall|i: int| 0 <= i < s.len() ==> #[trigger] s[i].start < s[i].end
}

/// No two slots of `s` share an id.
pub open spec fn ids_unique(s: Seq<Slot>) -> bool {
    forall|i: int, j: int|
        0 <= i < s.len() && 0 <= j < s.len() && i != j ==> #[trigger] s[i].id != #[trigger] s[j].id
}

/// Slots of `s` ordered by start.
pub open spec fn sorted_by_start(s: Seq<Slot>) -> bool {
    forall|i: int, j: int| 0 <= i < j < s.len() ==> #[trigger] s[i].start <= #[trigger] s[j].start
}

proof fn lemma_insert_position(s: Seq<Slot>, start: i64, j: int)
    requires
        0 <= j <= s.len(),
    ensures
        j <= insert_position(s, start, j) <= s.len(),
        forall|k: int| j <= k < insert_position(s, start, j) ==> #[trigger] s[k].start <= start,
        insert_position(s, start, j) < s.len() ==> s[insert_position(s, start, j)].start > start,
    decreases s.len() - j,
{
    if j < s.len() && s[j].start <= start {
        lemma_insert_position(s, start, j + 1);
    }
}

proof fn lemma_first_fit(ends: Seq<i64>, start: i64, c: int)
    requires
        0 <= c <= ends.len(),
    ensures
        c <= first_fit(ends, start, c) <= ends.len(),
        forall|k: int| c <= k < first_fit(ends, start, c) ==> #[trigger] ends[k] > start,
        first_fit(ends, start, c) < ends.len() ==> ends[first_fit(ends, start, c)] <= start,
    decreases ends.len() - c,
{
    if c < ends.len() && ends[c] > start {
        lemma_first_fit(ends, start, c + 1);
    }
}

/// The ordered sequence holds the same slots, and is ordered by start.
proof fn lemma_sort_by_start(x: Seq<Slot>)
    ensures
        sort_by_start(x).len() == x.len(),
        sort_by_start(x).to_multiset() == x.to_multiset(),
        sorted_by_start(sort_by_start(x)),
    decreases x.len(),
{
    broadcast use vstd::seq_lib::to_multiset_build, vstd::seq_lib::to_multiset_insert;

    if x.len() > 0 {
        let prev = sort_by_start(x.drop_last());
        let e = x.last();
        lemma_sort_by_start(x.drop_last());
        let p = insert_position(prev, e.start, 0);
        lemma_insert_position(prev, e.start, 0);
        let r = prev.insert(p, e);
        assert(x.drop_last().push(e) =~= x);
        assert(x.drop_last().push(e).to_multiset() == x.drop_last().to_multiset().insert(e));
        assert(r.to_multiset() == prev.to_multiset().insert(e));
        assert(x.to_multiset() == x.drop_last().push(e).to_multiset());
        assert(sort_by_start(x) == r);
        assert forall|i: int, j: int| 0 <= i < j < r.len() implies #[trigger] r[i].start
            <= #[trigger] r[j].start by {
            if j < p {
            } else if j == p {
                assert(r[i] == prev[i]);
            } else if i < p {
                assert(r[j] == prev[j - 1]);
                assert(prev[i].start <= prev[j - 1].start);
            } else if i == p {
                assert(r[j] == prev[j - 1]);
                assert(prev[p].start <= prev[j - 1].start);
            } else {
                assert(r[i] == prev[i - 1]);
                assert(r[j] == prev[j - 1]);
            }
        }
    } else {
        assert(x =~= Seq::<Slot>::empty());
    }
}

/// Column `c`, after the first `k` slots of `s` are placed, ends where a slot placed in it ends.
pub open spec fn column_has_owner(s: Seq<Slot>, k: int, c: int) -> bool {
    exists|i: int|
        0 <= i < k && #[trigger] column_of(s, i) == c && column_ends(s.take(k))[c] == s[i].end
}

/// Placing the `k`-th slot of `s`.
proof fn lemma_column_ends_step(s: Seq<Slot>, k: int)
    requires
        0 <= k < s.len(),
    ensures
        column_ends(s.take(k + 1)) == (if column_of(s, k) == column_ends(s.take(k)).len() {
            column_ends(s.take(k)).push(s[k].end)
        } else {
            column_ends(s.take(k)).update(column_of(s, k), s[k].end)
        }),
{
    assert(s.take(k + 1).drop_last() =~= s.take(k));
}

/// After placing the first `k` slots: each placed slot lies in a column that
/// exists and ends no earlier than it; each column's end is the end of a slot
/// placed in it.
proof fn lemma_columns_cover(s: Seq<Slot>, k: int)
    requires
        0 <= k <= s.len(),
        intervals_valid(s),
    ensures
        column_ends(s.take(k)).len() <= k,
        forall|i: int|
            0 <= i < k ==> #[trigger] column_of(s, i) < column_ends(s.take(k)).len() && 0
                <= column_of(s, i) && s[i].end <= column_ends(s.take(k))[column_of(s, i)],
        forall|c: int|
            0 <= c < column_ends(s.take(k)).len() ==> #[trigger] column_has_owner(s, k, c),
    decreases k,
{
    if k == 0 {
        assert(s.take(0) =~= Seq::<Slot>::empty());
        assert(column_ends(s.take(0)).len() == 0);
    } else {
        let j = k - 1;
        lemma_columns_cover(s, j);
        lemma_column_ends_step(s, j);
        let e = column_ends(s.take(j));
        let e2 = column_ends(s.take(k));
        let cj = column_of(s, j);
        lemma_first_fit(e, s[j].start, 0);
        assert(s[j].start < s[j].end);
        assert forall|i: int| 0 <= i < k implies #[trigger] column_of(s, i) < e2.len() && 0
            <= column_of(s, i) && s[i].end <= e2[column_of(s, i)] by {
            if i < j {
                if column_of(s, i) == cj {
                    assert(s[i].end <= e[cj]);
                }
            }
        }
        assert forall|c: int| 0 <= c < e2.len() implies #[trigger] column_has_owner(s, k, c) by {
            if c == cj {
                assert(column_of(s, j) == c && e2[c] == s[j].end);
            } else {
                assert(c < e.len());
                assert(e2[c] == e[c]);
                assert(column_has_owner(s, j, c));
                let i = choose|i: int| 0 <= i < j && #[trigger] column_of(s, i) == c && e[c] == s[i].end;
                assert(column_of(s, i) == c && e2[c] == s[i].end);
            }
        }
    }
}

/// Two slots placed in one column do not overlap: the earlier one has ended when
/// the later one starts.
proof fn lemma_same_column_disjoint(s: Seq<Slot>, i: int, j: int)
    requires
        intervals_valid(s),
        0 <= i < j < s.len(),
        column_of(s, i) == column_of(s, j),
    ensures
        s[i].end <= s[j].start,
{
    lemma_columns_cover(s, j);
    lemma_first_fit(column_ends(s.take(j)), s[j].start, 0);
    assert(column_of(s, i) < column_ends(s.take(j)).len());
}

/// Column lengths grow by at most one per placed slot; returns a slot whose
/// placement opened column `target - 1`.
proof fn lemma_column_opened(s: Seq<Slot>, k: int, target: int) -> (j: int)
    requires
        0 <= k <= s.len(),
        0 < target <= column_ends(s.take(k)).len(),
    ensures
        0 <= j < k,
        column_ends(s.take(j)).len() == target - 1,
        column_of(s, j) == target - 1,
    decreases k,
{
    let j = k - 1;
    if k == 0 {
        assert(s.take(0) =~= Seq::<Slot>::empty());
    }
    lemma_column_ends_step(s, j);
    lemma_first_fit(column_ends(s.take(j)), s[j].start, 0);
    if column_ends(s.take(j)).len() >= target {
        lemma_column_opened(s, j, target)
    } else {
        j
    }
}

/// With unique ids, each slot's id maps to the column it was placed in.
proof fn lemma_stacking_of_value(s: Seq<Slot>, i: int)
    requires
        ids_unique(s),
        0 <= i < s.len(),
    ensures
        stacking_of(s).contains_key(s[i].id),
        stacking_of(s)[s[i].id] == column_of(s, i) as i32,
    decreases s.len(),
{
    let prev = s.drop_last();
    if i < s.len() - 1 {
        assert(s[i].id != s[s.len() - 1].id);
        assert(ids_unique(prev)) by {
            assert forall|a: int, b: int|
                0 <= a < prev.len() && 0 <= b < prev.len() && a != b implies #[trigger] prev[a].id
                != #[trigger] prev[b].id by {
                assert(prev[a] == s[a] && prev[b] == s[b]);
            }
        }
        lemma_stacking_of_value(prev, i);
        assert(prev.take(i) =~= s.take(i));
    }
}

/// What the ordered sequence of valid, uniquely identified sessions inherits.
proof fn lemma_ordered_slots(events: Seq<GamingSession>)
    requires
        intervals_valid(slots_of(events)),
        ids_unique(slots_of(events)),
    ensures
        sort_by_start(slots_of(events)).len() == events.len(),
        sorted_by_start(sort_by_start(slots_of(events))),
        intervals_valid(sort_by_start(slots_of(events))),
        ids_unique(sort_by_start(slots_of(events))),
        sort_by_start(slots_of(events)).no_duplicates(),
        forall|x: Slot|
            sort_by_start(slots_of(events)).contains(x) <==> #[trigger] slots_of(events).contains(
                x,
            ),
{
    broadcast use vstd::seq_lib::to_multiset_contains;

    let x = slots_of(events);
    let s = sort_by_start(x);
    lemma_sort_by_start(x);
    assert forall|v: Slot| s.contains(v) <==> #[trigger] x.contains(v) by {
        assert(s.to_multiset().count(v) == x.to_multiset().count(v));
    }
    assert(x.no_duplicates()) by {
        assert forall|a: int, b: int| 0 <= a < x.len() && 0 <= b < x.len() && a != b implies x[a]
            != x[b] by {
            assert(x[a].id != x[b].id);
        }
    }
    x.lemma_multiset_has_no_duplicates();
    s.lemma_multiset_has_no_duplicates_conv();
    assert forall|i: int| 0 <= i < s.len() implies #[trigger] s[i].start < s[i].end by {
        assert(s.contains(s[i]));
        assert(x.contains(s[i]));
        let p = choose|p: int| 0 <= p < x.len() && x[p] == s[i];
        assert(x[p].start < x[p].end);
    }
    assert forall|a: int, b: int|
        0 <= a < s.len() && 0 <= b < s.len() && a != b implies #[trigger] s[a].id
        != #[trigger] s[b].id by {
        assert(s.contains(s[a]) && s.contains(s[b]));
        assert(x.contains(s[a]) && x.contains(s[b]));
        let pa = choose|p: int| 0 <= p < x.len() && x[p] == s[a];
        let pb = choose|p: int| 0 <= p < x.len() && x[p] == s[b];
        assert(s[a] != s[b]);
        assert(pa != pb);
    }
}

/// Where the `p`-th session stands in the ordered sequence.
proof fn lemma_position_of(events: Seq<GamingSession>, p: int) -> (i: int)
    requires
        intervals_valid(slots_of(events)),
        ids_unique(slots_of(events)),
        0 <= p < events.len(),
    ensures
        0 <= i < events.len(),
        sort_by_start(slots_of(events))[i] == slot_of(events[p]),
        stacking(events).contains_key(events[p].session_id),
        stacking(events)[events[p].session_id] == column_of(sort_by_start(slots_of(events)), i)
            as i32,
{
    lemma_ordered_slots(events);
    let s = sort_by_start(slots_of(events));
    assert(slots_of(events)[p] == slot_of(events[p]));
    assert(slots_of(events).contains(slot_of(events[p])));
    let i = choose|i: int| 0 <= i < s.len() && s[i] == slot_of(events[p]);
    lemma_stacking_of_value(s, i);
    i
}

/// Number of columns that the stacking of `events` opens.
pub open spec fn column_count(events: Seq<GamingSession>) -> int {
    column_ends(sort_by_start(slots_of(events))).len() as int
}

/// The sessions of `events` in progress at instant `t`.
pub open spec fn in_progress(events: Seq<GamingSession>, t: int) -> Set<Slot> {
    slots_of(events).to_set().filter(|x: Slot| x.start <= t < x.end)
}

/// Some session of `events` is given column `c`.
pub open spec fn column_used(events: Seq<GamingSession>, c: int) -> bool {
    exists|p: int|
        0 <= p < events.len() && #[trigger] stacking(events)[events[p].session_id] as int == c
}

/// Sessions given the same column never overlap in time: one has ended by the
/// time the other starts (back-to-back sessions may share a column).
pub proof fn lemma_same_column_never_overlaps(events: Seq<GamingSession>, p: int, q: int)
    requires
        intervals_valid(slots_of(events)),
        ids_unique(slots_of(events)),
        events.len() <= i32::MAX,
        0 <= p < events.len(),
        0 <= q < events.len(),
        p != q,
        stacking(events)[events[p].session_id] == stacking(events)[events[q].session_id],
    ensures
        events[p].end_time <= events[q].start_time || events[q].end_time <= events[p].start_time,
{
    let s = sort_by_start(slots_of(events));
    let i = lemma_position_of(events, p);
    let j = lemma_position_of(events, q);
    lemma_ordered_slots(events);
    lemma_columns_cover(s, i);
    lemma_columns_cover(s, j);
    lemma_first_fit(column_ends(s.take(i)), s[i].start, 0);
    lemma_first_fit(column_ends(s.take(j)), s[j].start, 0);
    assert(i != j) by {
        assert(slots_of(events)[p].id != slots_of(events)[q].id);
    }
    if i < j {
        lemma_same_column_disjoint(s, i, j);
    } else {
        lemma_same_column_disjoint(s, j, i);
    }
}

/// Every session is given a column, and the columns given are exactly
/// `0 .. column_count(events)`: none is skipped.
pub proof fn lemma_columns_are_contiguous(events: Seq<GamingSession>)
    requires
        intervals_valid(slots_of(events)),
        ids_unique(slots_of(events)),
        events.len() <= i32::MAX,
    ensures
        forall|p: int|
            0 <= p < events.len() ==> #[trigger] stacking(events).contains_key(
                events[p].session_id,
            ),
        forall|c: int| #[trigger] column_used(events, c) <==> 0 <= c < column_count(events),
{
    let s = sort_by_start(slots_of(events));
    let n = events.len() as int;
    lemma_ordered_slots(events);
    lemma_columns_cover(s, n);
    assert(s.take(n) =~= s);
    assert forall|p: int| 0 <= p < n implies #[trigger] stacking(events).contains_key(
        events[p].session_id,
    ) by {
        lemma_position_of(events, p);
    }
    assert forall|c: int| #[trigger] column_used(events, c) <==> 0 <= c < column_count(events) by {
        if column_used(events, c) {
            let p = choose|p: int|
                0 <= p < n && #[trigger] stacking(events)[events[p].session_id] as int == c;
            let i = lemma_position_of(events, p);
            lemma_columns_cover(s, i);
            lemma_first_fit(column_ends(s.take(i)), s[i].start, 0);
            assert(column_of(s, i) < column_ends(s.take(n)).len());
        }
        if 0 <= c < column_count(events) {
            assert(column_has_owner(s, n, c));
            let i = choose|i: int|
                0 <= i < n && #[trigger] column_of(s, i) == c && column_ends(s.take(n))[c]
                    == s[i].end;
            assert(s.contains(s[i]));
            assert(slots_of(events).contains(s[i]));
            let p = choose|p: int| 0 <= p < n && slots_of(events)[p] == s[i];
            let i2 = lemma_position_of(events, p);
            assert(s[i2] == s[i]);
            assert(i2 == i);
            lemma_columns_cover(s, i);
            lemma_first_fit(column_ends(s.take(i)), s[i].start, 0);
            assert(stacking(events)[events[p].session_id] as int == c);
        }
    }
}

/// A slot placed in column `c` whose end is that column's end, once the first
/// `k` slots of `s` are placed.
spec fn column_owner(s: Seq<Slot>, k: int, c: int) -> int {
    choose|i: int|
        0 <= i < k && #[trigger] column_of(s, i) == c && column_ends(s.take(k))[c] == s[i].end
}

/// Index of slot `v` in `s`.
spec fn index_in(s: Seq<Slot>, v: Slot) -> int {
    choose|i: int| 0 <= i < s.len() && s[i] == v
}

/// No instant has more sessions in progress than there are columns.
proof fn lemma_overlap_at_most_columns(events: Seq<GamingSession>, t: int)
    requires
        intervals_valid(slots_of(events)),
        ids_unique(slots_of(events)),
    ensures
        in_progress(events, t).finite(),
        in_progress(events, t).len() <= column_count(events),
{
    broadcast use vstd::seq_lib::seq_to_set_is_finite;

    let x = slots_of(events);
    let s = sort_by_start(x);
    let n = events.len() as int;
    let k = column_count(events);
    lemma_ordered_slots(events);
    lemma_columns_cover(s, n);
    assert(s.take(n) =~= s);
    let a = in_progress(events, t);
    vstd::set_lib::lemma_len_subset(a, x.to_set());
    let f = |v: Slot| column_of(s, index_in(s, v));
    assert forall|v: Slot| a.contains(v) implies 0 <= index_in(s, v) < n && s[index_in(s, v)] == v
        && v.start <= t < v.end by {
        assert(x.contains(v));
        assert(s.contains(v));
    }
    assert(vstd::relations::injective_on(f, a)) by {
        assert forall|v1: Slot, v2: Slot|
            a.contains(v1) && a.contains(v2) && #[trigger] f(v1) == #[trigger] f(v2) implies v1
            == v2 by {
            let i1 = index_in(s, v1);
            let i2 = index_in(s, v2);
            if i1 < i2 {
                lemma_same_column_disjoint(s, i1, i2);
            } else if i2 < i1 {
                lemma_same_column_disjoint(s, i2, i1);
            }
        }
    }
    let range = vstd::set_lib::set_int_range(0, k);
    vstd::set_lib::lemma_int_range(0, k);
    vstd::set_lib::lemma_map_size(a, a.map(f), f);
    assert(a.map(f).subset_of(range)) by {
        assert forall|c: int| #[trigger] a.map(f).contains(c) implies range.contains(c) by {
            let v = choose|v: Slot| a.contains(v) && f(v) == c;
            assert(column_of(s, index_in(s, v)) < column_ends(s.take(n)).len());
        }
    }
    vstd::set_lib::lemma_len_subset(a.map(f), range);
}

/// The number of columns equals the largest number of sessions in progress at
/// one instant: no instant has more, and at some instant every column is busy.
pub proof fn lemma_column_count_is_max_overlap(events: Seq<GamingSession>)
    requires
        intervals_valid(slots_of(events)),
        ids_unique(slots_of(events)),
    ensures
        forall|t: int| #[trigger] in_progress(events, t).len() <= column_count(events),
        exists|t: int| #[trigger] in_progress(events, t).len() == column_count(events),
{
    assert forall|t: int| #[trigger] in_progress(events, t).len() <= column_count(events) by {
        lemma_overlap_at_most_columns(events, t);
    }
    let x = slots_of(events);
    let s = sort_by_start(x);
    let n = events.len() as int;
    let k = column_count(events);
    lemma_ordered_slots(events);
    assert(s.take(n) =~= s);
    if k == 0 {
        lemma_overlap_at_most_columns(events, 0);
        assert(in_progress(events, 0).len() == k);
    } else {
        let j = lemma_column_opened(s, n, k);
        let t = s[j].start as int;
        let ends = column_ends(s.take(j));
        lemma_columns_cover(s, j);
        lemma_first_fit(ends, s[j].start, 0);
        let g = |c: int|
            if c < k - 1 {
                column_owner(s, j, c)
            } else {
                j
            };
        let range = vstd::set_lib::set_int_range(0, k);
        vstd::set_lib::lemma_int_range(0, k);
        assert forall|c: int| 0 <= c < k implies 0 <= #[trigger] g(c) <= j && column_of(s, g(c))
            == c && s[g(c)].start <= t < s[g(c)].end by {
            if c < k - 1 {
                assert(column_has_owner(s, j, c));
                assert(ends[c] > s[j].start);
            }
        }
        let h = |c: int| s[g(c)];
        assert(vstd::relations::injective_on(h, range)) by {
            assert forall|c1: int, c2: int|
                range.contains(c1) && range.contains(c2) && #[trigger] h(c1) == #[trigger] h(c2)
                implies c1 == c2 by {
                assert(g(c1) == g(c2));
            }
        }
        vstd::set_lib::lemma_map_size(range, range.map(h), h);
        let a = in_progress(events, t);
        lemma_overlap_at_most_columns(events, t);
        assert(range.map(h).subset_of(a)) by {
            assert forall|v: Slot| #[trigger] range.map(h).contains(v) implies a.contains(v) by {
                let c = choose|c: int| range.contains(c) && h(c) == v;
                assert(s.contains(s[g(c)]));
                assert(x.contains(v));
            }
        }
        vstd::set_lib::lemma_len_subset(range.map(h), a);
    }
}

} // verus!
