//! Slot assignment for turn icons.
//!
//! The turns leaving a lane are split into two groups by which of the lane's
//! two endpoints each turn is anchored at; within a group the turns are
//! ordered by directional angle in whole degrees, ties broken by identifier,
//! and numbered from zero in that order. The numbers offset overlapping turn
//! icons when the scene is drawn.

use vstd::prelude::*;

use crate::assoc::{assoc_keys, assoc_map, lemma_assoc_map_membership, lemma_assoc_map_values};
use crate::map_data::{turn_ids, LaneIn, TurnIn};

verus! {

/// The sort key of a turn: angle first, identifier second.
pub open spec fn turn_key(t: TurnIn) -> (u32, u64) {
    (t.angle_degrees, t.id)
}

/// Whether a turn is anchored at its lane's destination endpoint.
pub open spec fn in_dst_group(t: TurnIn, lane: LaneIn) -> bool {
    t.parent == lane.dst_i
}

pub open spec fn key_le(a: (u32, u64), b: (u32, u64)) -> bool {
    a.0 < b.0 || (a.0 == b.0 && a.1 <= b.1)
}

pub open spec fn key_lt(a: (u32, u64), b: (u32, u64)) -> bool {
    key_le(a, b) && a != b
}

pub open spec fn sorted_keys(s: Seq<(u32, u64)>) -> bool {
    forall|i: int, j: int| 0 <= i < j < s.len() ==> key_le(#[trigger] s[i], #[trigger] s[j])
}

/// The identifier components of a key list.
pub open spec fn ids_of(s: Seq<(u32, u64)>) -> Seq<u64> {
    s.map_values(|k: (u32, u64)| k.1)
}

/// The keys of one endpoint group's turns, in map order.
pub open spec fn group_keys(turns: Seq<TurnIn>, lane: LaneIn, dst: bool) -> Seq<(u32, u64)>
    decreases turns.len(),
{
    if turns.len() == 0 {
        Seq::empty()
    } else {
        let prefix = group_keys(turns.drop_last(), lane, dst);
        if in_dst_group(turns.last(), lane) == dst {
            prefix.push(turn_key(turns.last()))
        } else {
            prefix
        }
    }
}

/// How many of a lane's turns are anchored at the given endpoint.
pub open spec fn count_group(turns: Seq<TurnIn>, lane: LaneIn, dst: bool) -> int {
    group_keys(turns, lane, dst).len() as int
}

/// Some turn of the given group carries this key.
pub open spec fn key_from_group(turns: Seq<TurnIn>, lane: LaneIn, dst: bool, k: (u32, u64)) -> bool {
    exists|i: int|
        0 <= i < turns.len() && in_dst_group(#[trigger] turns[i], lane) == dst && turn_key(turns[i])
            == k
}

/// Some turn of the given group was assigned this slot.
pub open spec fn slot_used(
    turns: Seq<TurnIn>,
    lane: LaneIn,
    m: Map<u64, usize>,
    dst: bool,
    s: int,
) -> bool {
    exists|i: int|
        0 <= i < turns.len() && in_dst_group(#[trigger] turns[i], lane) == dst && m.contains_key(
            turns[i].id,
        ) && m[turns[i].id] as int == s
}

/// A correct slot map for one lane's turns: each turn has a slot below its
/// endpoint group's size; within a group every such slot is used, distinct
/// turns get distinct slots, and slots ascend with the angle/identifier key.
pub open spec fn slots_ok(turns: Seq<TurnIn>, lane: LaneIn, m: Map<u64, usize>) -> bool {
    &&& (forall|i: int|
        0 <= i < turns.len() ==> m.contains_key((#[trigger] turns[i]).id) && (m[turns[i].id] as int)
            < count_group(turns, lane, in_dst_group(turns[i], lane)))
    &&& (forall|s: int|
        0 <= s < count_group(turns, lane, true) ==> #[trigger] slot_used(turns, lane, m, true, s))
    &&& (forall|s: int|
        0 <= s < count_group(turns, lane, false) ==> #[trigger] slot_used(turns, lane, m, false, s))
    &&& (forall|i: int, j: int|
        0 <= i < turns.len() && 0 <= j < turns.len() && i != j && in_dst_group(
            #[trigger] turns[i],
            lane,
        ) == in_dst_group(#[trigger] turns[j], lane) ==> m[turns[i].id] != m[turns[j].id])
    &&& (forall|i: int, j: int|
        0 <= i < turns.len() && 0 <= j < turns.len() && in_dst_group(#[trigger] turns[i], lane)
            == in_dst_group(#[trigger] turns[j], lane) && key_lt(
            turn_key(turns[i]),
            turn_key(turns[j]),
        ) ==> m[turns[i].id] < m[turns[j].id])
}

/// What a correct slot assignment list for one lane's turns looks like: one
/// slot per turn, and the slot map it denotes is correct.
pub open spec fn resolved(turns: Seq<TurnIn>, lane: LaneIn, r: Seq<(u64, usize)>) -> bool {
    &&& assoc_keys(r).no_duplicates()
    &&& r.len() == turns.len()
    &&& (forall|id: u64| #[trigger] assoc_keys(r).contains(id) <==> turn_ids(turns).contains(id))
    &&& slots_ok(turns, lane, assoc_map(r))
}

/// A slot map that agrees with a correct one on a lane's turns is itself
/// correct for that lane.
pub proof fn lemma_slots_ok_agree(
    turns: Seq<TurnIn>,
    lane: LaneIn,
    m1: Map<u64, usize>,
    m2: Map<u64, usize>,
)
    requires
        slots_ok(turns, lane, m1),
        forall|i: int|
            0 <= i < turns.len() ==> m2.contains_key((#[trigger] turns[i]).id) && m2[turns[i].id]
                == m1[turns[i].id],
    ensures
        slots_ok(turns, lane, m2),
{
    assert forall|s: int| 0 <= s < count_group(turns, lane, true) implies #[trigger] slot_used(
        turns,
        lane,
        m2,
        true,
        s,
    ) by {
        assert(slot_used(turns, lane, m1, true, s));
        let i = choose|i: int|
            0 <= i < turns.len() && in_dst_group(#[trigger] turns[i], lane) == true
                && m1.contains_key(turns[i].id) && m1[turns[i].id] as int == s;
        assert(m2.contains_key(turns[i].id) && m2[turns[i].id] as int == s);
    }
    assert forall|s: int| 0 <= s < count_group(turns, lane, false) implies #[trigger] slot_used(
        turns,
        lane,
        m2,
        false,
        s,
    ) by {
        assert(slot_used(turns, lane, m1, false, s));
        let i = choose|i: int|
            0 <= i < turns.len() && in_dst_group(#[trigger] turns[i], lane) == false
                && m1.contains_key(turns[i].id) && m1[turns[i].id] as int == s;
        assert(m2.contains_key(turns[i].id) && m2[turns[i].id] as int == s);
    }
}

/// Two correct slot maps for one lane agree on every turn: the bound,
/// coverage, distinctness and ordering clauses pin each slot uniquely, so a
/// fresh resolution reproduces the slots an earlier one gave.
pub proof fn lemma_slots_ok_unique(
    turns: Seq<TurnIn>,
    lane: LaneIn,
    m1: Map<u64, usize>,
    m2: Map<u64, usize>,
    i: int,
)
    requires
        turn_ids(turns).no_duplicates(),
        slots_ok(turns, lane, m1),
        slots_ok(turns, lane, m2),
        0 <= i < turns.len(),
    ensures
        m1[turns[i].id] == m2[turns[i].id],
    decreases m1[turns[i].id],
{
    let u = turns[i];
    let dst = in_dst_group(u, lane);
    if m2[u.id] < m1[u.id] {
        let s2 = m2[u.id] as int;
        assert(slot_used(turns, lane, m1, dst, s2));
        let v = choose|v: int|
            0 <= v < turns.len() && in_dst_group(#[trigger] turns[v], lane) == dst
                && m1.contains_key(turns[v].id) && m1[turns[v].id] as int == s2;
        lemma_slots_ok_unique(turns, lane, m1, m2, v);
        if v != i {
            assert(m2[turns[v].id] != m2[turns[i].id]);
        }
        assert(false);
    } else if m2[u.id] > m1[u.id] {
        let s = m1[u.id] as int;
        assert(slot_used(turns, lane, m2, dst, s));
        let w = choose|w: int|
            0 <= w < turns.len() && in_dst_group(#[trigger] turns[w], lane) == dst
                && m2.contains_key(turns[w].id) && m2[turns[w].id] as int == s;
        assert(w != i);
        assert(turn_ids(turns)[w] == turns[w].id);
        assert(turn_ids(turns)[i] == u.id);
        assert(turns[w].id != u.id);
        if (m1[turns[w].id] as int) < s {
            lemma_slots_ok_unique(turns, lane, m1, m2, w);
        } else if (m1[turns[w].id] as int) == s {
            assert(m1[turns[w].id] != m1[turns[i].id]);
        } else {
            if key_lt(turn_key(u), turn_key(turns[w])) {
                assert(m2[u.id] < m2[turns[w].id]);
            } else {
                assert(key_lt(turn_key(turns[w]), turn_key(u)));
                assert(m1[turns[w].id] < m1[u.id]);
            }
        }
        assert(false);
    }
}

/// Neither endpoint group is larger than the turn list itself.
pub proof fn lemma_count_group_le(turns: Seq<TurnIn>, lane: LaneIn)
    ensures
        0 <= count_group(turns, lane, true) <= turns.len(),
        0 <= count_group(turns, lane, false) <= turns.len(),
{
    lemma_group_keys_partition_len(turns, lane);
}

/// Every key of a group comes from a turn of that group, and every turn of
/// the group contributes its key.
proof fn lemma_group_keys_correspond(turns: Seq<TurnIn>, lane: LaneIn, dst: bool)
    ensures
        forall|p: int|
            0 <= p < group_keys(turns, lane, dst).len() ==> key_from_group(
                turns,
                lane,
                dst,
                #[trigger] group_keys(turns, lane, dst)[p],
            ),
        forall|i: int|
            0 <= i < turns.len() && in_dst_group(#[trigger] turns[i], lane) == dst ==> group_keys(
                turns,
                lane,
                dst,
            ).contains(turn_key(turns[i])),
    decreases turns.len(),
{
    if turns.len() == 0 {
    } else {
        let prev = turns.drop_last();
        lemma_group_keys_correspond(prev, lane, dst);
        let gk = group_keys(turns, lane, dst);
        let gp = group_keys(prev, lane, dst);
        assert forall|p: int| 0 <= p < gk.len() implies key_from_group(
            turns,
            lane,
            dst,
            #[trigger] gk[p],
        ) by {
            if p < gp.len() {
                assert(key_from_group(prev, lane, dst, gp[p]));
                let i = choose|i: int|
                    0 <= i < prev.len() && in_dst_group(#[trigger] prev[i], lane) == dst
                        && turn_key(prev[i]) == gp[p];
                assert(turns[i] == prev[i]);
                assert(gk[p] == gp[p]);
            } else {
                assert(in_dst_group(turns.last(), lane) == dst);
                assert(gk[p] == turn_key(turns[turns.len() - 1]));
            }
        }
        assert forall|i: int|
            0 <= i < turns.len() && in_dst_group(#[trigger] turns[i], lane) == dst implies gk
            .contains(turn_key(turns[i])) by {
            if i < turns.len() - 1 {
                assert(prev[i] == turns[i]);
                assert(gp.contains(turn_key(prev[i])));
                let p = choose|p: int| 0 <= p < gp.len() && gp[p] == turn_key(prev[i]);
                assert(gk[p] == turn_key(turns[i]));
            } else {
                assert(gk.last() == turn_key(turns[i]));
            }
        }
    }
}

/// With distinct turn identifiers, a group's keys carry distinct identifiers.
proof fn lemma_group_keys_ids_nodup(turns: Seq<TurnIn>, lane: LaneIn, dst: bool)
    requires
        turn_ids(turns).no_duplicates(),
    ensures
        ids_of(group_keys(turns, lane, dst)).no_duplicates(),
    decreases turns.len(),
{
    if turns.len() == 0 {
    } else {
        let prev = turns.drop_last();
        assert(turn_ids(prev) =~= turn_ids(turns).drop_last());
        assert(turn_ids(prev).no_duplicates()) by {
            let all = turn_ids(turns);
            assert forall|p: int, q: int|
                0 <= p < all.drop_last().len() && 0 <= q < all.drop_last().len() && p
                    != q implies all.drop_last()[p] != all.drop_last()[q] by {
                assert(all.drop_last()[p] == all[p]);
                assert(all.drop_last()[q] == all[q]);
            }
        }
        lemma_group_keys_ids_nodup(prev, lane, dst);
        lemma_group_keys_correspond(prev, lane, dst);
        let gk = group_keys(turns, lane, dst);
        let gp = group_keys(prev, lane, dst);
        if in_dst_group(turns.last(), lane) == dst {
            assert(!ids_of(gp).contains(turns.last().id)) by {
                if ids_of(gp).contains(turns.last().id) {
                    let p = choose|p: int|
                        0 <= p < ids_of(gp).len() && ids_of(gp)[p] == turns.last().id;
                    assert(gp[p].1 == turns.last().id);
                    assert(key_from_group(prev, lane, dst, gp[p]));
                    let i = choose|i: int|
                        0 <= i < prev.len() && in_dst_group(#[trigger] prev[i], lane) == dst
                            && turn_key(prev[i]) == gp[p];
                    assert(turn_ids(turns)[i] == turns.last().id);
                    assert(turn_ids(turns)[turns.len() - 1] == turns.last().id);
                }
            }
            assert(ids_of(gk) =~= ids_of(gp).push(turns.last().id));
            let ids = ids_of(gp);
            assert forall|p: int, q: int|
                0 <= p < ids.push(turns.last().id).len() && 0 <= q < ids.push(
                    turns.last().id,
                ).len() && p != q implies ids.push(turns.last().id)[p] != ids.push(
                turns.last().id,
            )[q] by {
                if p < ids.len() && q == ids.len() {
                    assert(ids[p] != turns.last().id);
                }
                if q < ids.len() && p == ids.len() {
                    assert(ids[q] != turns.last().id);
                }
            }
        } else {
            assert(ids_of(gk) =~= ids_of(gp));
        }
    }
}

/// The two endpoint groups together cover the lane's turns exactly.
proof fn lemma_group_keys_partition_len(turns: Seq<TurnIn>, lane: LaneIn)
    ensures
        count_group(turns, lane, true) + count_group(turns, lane, false) == turns.len(),
    decreases turns.len(),
{
    if turns.len() > 0 {
        lemma_group_keys_partition_len(turns.drop_last(), lane);
    }
}

/// A permutation keeps identifiers distinct.
proof fn lemma_ids_nodup_transfer(a: Seq<(u32, u64)>, b: Seq<(u32, u64)>)
    requires
        a.to_multiset() == b.to_multiset(),
        ids_of(a).no_duplicates(),
    ensures
        ids_of(b).no_duplicates(),
{
    broadcast use vstd::seq_lib::group_to_multiset_ensures;
    broadcast use vstd::multiset::group_multiset_axioms;

    assert(a.no_duplicates()) by {
        assert forall|p: int, q: int|
            0 <= p < a.len() && 0 <= q < a.len() && p != q implies a[p] != a[q] by {
            assert(ids_of(a)[p] == a[p].1);
            assert(ids_of(a)[q] == a[q].1);
        }
    }
    a.lemma_multiset_has_no_duplicates();
    assert forall|p: int, q: int|
        0 <= p < ids_of(b).len() && 0 <= q < ids_of(b).len() && p != q implies ids_of(b)[p]
        != ids_of(b)[q] by {
        if ids_of(b)[p] == ids_of(b)[q] {
            let x = b[p];
            let y = b[q];
            assert(x.1 == y.1);
            if x == y {
                assert(b.remove(p).to_multiset() =~= b.to_multiset().remove(x));
                if q < p {
                    assert(b.remove(p)[q] == y);
                } else {
                    assert(b.remove(p)[q - 1] == y);
                }
                assert(b.remove(p).contains(x));
                assert(b.to_multiset().remove(x).count(x) > 0);
                assert(a.to_multiset().count(x) >= 2);
            } else {
                assert(b.contains(x) && b.contains(y));
                assert(a.to_multiset().count(x) > 0 && a.to_multiset().count(y) > 0);
                assert(a.contains(x) && a.contains(y));
                let pa = choose|i: int| 0 <= i < a.len() && a[i] == x;
                let qa = choose|i: int| 0 <= i < a.len() && a[i] == y;
                assert(ids_of(a)[pa] == x.1);
                assert(ids_of(a)[qa] == y.1);
            }
        }
    }
}

/// A turn of the given group has its key somewhere in the sorted key list.
proof fn lemma_turn_has_position(
    t: Seq<TurnIn>,
    ln: LaneIn,
    sorted: Seq<(u32, u64)>,
    dst: bool,
    i: int,
)
    requires
        0 <= i < t.len(),
        in_dst_group(t[i], ln) == dst,
        sorted.to_multiset() == group_keys(t, ln, dst).to_multiset(),
    ensures
        exists|p: int| 0 <= p < sorted.len() && #[trigger] sorted[p] == turn_key(t[i]),
{
    broadcast use vstd::seq_lib::group_to_multiset_ensures;
    broadcast use vstd::multiset::group_multiset_axioms;

    lemma_group_keys_correspond(t, ln, dst);
    let gk = group_keys(t, ln, dst);
    assert(gk.contains(turn_key(t[i])));
    assert(gk.to_multiset().count(turn_key(t[i])) > 0);
    assert(sorted.to_multiset().count(turn_key(t[i])) > 0);
    assert(sorted.contains(turn_key(t[i])));
    let p = choose|p: int| 0 <= p < sorted.len() && sorted[p] == turn_key(t[i]);
    assert(sorted[p] == turn_key(t[i]));
}

/// Every key of the sorted key list is the key of some turn of the group.
proof fn lemma_position_has_turn(
    t: Seq<TurnIn>,
    ln: LaneIn,
    sorted: Seq<(u32, u64)>,
    dst: bool,
    p: int,
)
    requires
        0 <= p < sorted.len(),
        sorted.to_multiset() == group_keys(t, ln, dst).to_multiset(),
    ensures
        key_from_group(t, ln, dst, sorted[p]),
{
    broadcast use vstd::seq_lib::group_to_multiset_ensures;
    broadcast use vstd::multiset::group_multiset_axioms;

    lemma_group_keys_correspond(t, ln, dst);
    let gk = group_keys(t, ln, dst);
    assert(sorted.contains(sorted[p]));
    assert(sorted.to_multiset().count(sorted[p]) > 0);
    assert(gk.to_multiset().count(sorted[p]) > 0);
    assert(gk.contains(sorted[p]));
    let q = choose|q: int| 0 <= q < gk.len() && gk[q] == sorted[p];
    assert(key_from_group(t, ln, dst, gk[q]));
}

fn key_le_exec(a: (u32, u64), b: (u32, u64)) -> (r: bool)
    ensures
        r == key_le(a, b),
{
    a.0 < b.0 || (a.0 == b.0 && a.1 <= b.1)
}

/// Sorts angle/identifier keys ascending, angle first, identifier second.
fn sort_pairs(input: Vec<(u32, u64)>) -> (r: Vec<(u32, u64)>)
    ensures
        r@.to_multiset() == input@.to_multiset(),
        sorted_keys(r@),
{
    broadcast use vstd::seq_lib::group_to_multiset_ensures;
    broadcast use vstd::multiset::group_multiset_axioms;

    let mut src = input;
    let mut out: Vec<(u32, u64)> = Vec::new();
    proof {
        assert(out@.to_multiset().add(src@.to_multiset()) =~= input@.to_multiset());
    }
    while src.len() > 0
        invariant
            out@.to_multiset().add(src@.to_multiset()) == input@.to_multiset(),
            sorted_keys(out@),
            forall|a: int, b: int|
                0 <= a < out@.len() && 0 <= b < src@.len() ==> key_le(
                    #[trigger] out@[a],
                    #[trigger] src@[b],
                ),
        decreases src@.len(),
    {
        let mut m: usize = 0;
        let mut j: usize = 1;
        while j < src.len()
            invariant
                0 <= m < src@.len(),
                1 <= j <= src@.len(),
                forall|k: int| 0 <= k < j ==> key_le(src@[m as int], #[trigger] src@[k]),
            decreases src@.len() - j,
        {
            if key_le_exec(src[j], src[m]) {
                m = j;
            }
            j += 1;
        }
        let ghost src_before = src@;
        let ghost out_before = out@;
        let x = src.remove(m);
        out.push(x);
        proof {
            src_before.to_multiset_ensures();
            out_before.to_multiset_ensures();
            assert(src_before.contains(x)) by {
                assert(src_before[m as int] == x);
            }
            assert(src_before.to_multiset().count(x) > 0);
            assert(src@ == src_before.remove(m as int));
            assert(src@.to_multiset() =~= src_before.to_multiset().remove(x));
            assert(out@ == out_before.push(x));
            assert(out@.to_multiset() =~= out_before.to_multiset().insert(x));
            assert(out@.to_multiset().add(src@.to_multiset()) =~= input@.to_multiset()) by {
                assert forall|e: (u32, u64)|
                    out@.to_multiset().add(src@.to_multiset()).count(e) == input@.to_multiset()
                        .count(e) by {
                    assert(out_before.to_multiset().add(src_before.to_multiset()).count(e)
                        == input@.to_multiset().count(e));
                }
            }
            assert(sorted_keys(out@)) by {
                assert forall|p: int, q: int| 0 <= p < q < out@.len() implies key_le(
                    #[trigger] out@[p],
                    #[trigger] out@[q],
                ) by {
                    if q == out@.len() - 1 {
                        assert(out@[q] == x);
                        assert(key_le(out_before[p], src_before[m as int]));
                    } else {
                        assert(out@[p] == out_before[p]);
                        assert(out@[q] == out_before[q]);
                    }
                }
            }
            assert forall|a: int, b: int|
                0 <= a < out@.len() && 0 <= b < src@.len() implies key_le(
                #[trigger] out@[a],
                #[trigger] src@[b],
            ) by {
                let b0: int = if b < m { b } else { b + 1 };
                assert(src@[b] == src_before[b0]);
                if a < out@.len() - 1 {
                    assert(key_le(out_before[a], src_before[b0]));
                } else {
                    assert(out@[a] == src_before[m as int]);
                    assert(key_le(src_before[m as int], src_before[b0]));
                }
            }
        }
    }
    out
}

/// Resolves the icon slots of one lane's turns: the turns are split by the
/// endpoint they are anchored at, sorted by angle then identifier within
/// each group, and numbered from zero per group.
pub fn resolve(turns_for_lane: &Vec<TurnIn>, lane: &LaneIn) -> (r: Vec<(u64, usize)>)
    requires
        turn_ids(turns_for_lane@).no_duplicates(),
    ensures
        resolved(turns_for_lane@, *lane, r@),
{
    broadcast use vstd::seq_lib::group_to_multiset_ensures;
    broadcast use vstd::multiset::group_multiset_axioms;

    let ghost t = turns_for_lane@;
    let ghost ln = *lane;
    let mut dst_keys: Vec<(u32, u64)> = Vec::new();
    let mut src_keys: Vec<(u32, u64)> = Vec::new();
    let mut i: usize = 0;
    while i < turns_for_lane.len()
        invariant
            0 <= i <= t.len(),
            t == turns_for_lane@,
            ln == *lane,
            dst_keys@ == group_keys(t.take(i as int), ln, true),
            src_keys@ == group_keys(t.take(i as int), ln, false),
        decreases t.len() - i,
    {
        let turn = turns_for_lane[i];
        proof {
            assert(t.take(i + 1).drop_last() =~= t.take(i as int));
            assert(t.take(i + 1).last() == t[i as int]);
        }
        if turn.parent == lane.dst_i {
            dst_keys.push((turn.angle_degrees, turn.id));
        } else {
            src_keys.push((turn.angle_degrees, turn.id));
        }
        i += 1;
    }
    proof {
        assert(t.take(t.len() as int) =~= t);
    }
    let ghost kd = group_keys(t, ln, true);
    let ghost ks = group_keys(t, ln, false);
    let sd = sort_pairs(dst_keys);
    let ss = sort_pairs(src_keys);
    proof {
        assert(sd@.len() == kd.len() && ss@.len() == ks.len()) by {
            assert(sd@.to_multiset().len() == kd.to_multiset().len());
            assert(ss@.to_multiset().len() == ks.to_multiset().len());
        }
    }
    let mut r: Vec<(u64, usize)> = Vec::new();
    let mut p: usize = 0;
    while p < sd.len()
        invariant
            0 <= p <= sd@.len(),
            r@.len() == p,
            forall|q: int| 0 <= q < p ==> #[trigger] r@[q] == (sd@[q].1, q as usize),
        decreases sd@.len() - p,
    {
        r.push((sd[p].1, p));
        p += 1;
    }
    let base = r.len();
    let mut q: usize = 0;
    while q < ss.len()
        invariant
            0 <= q <= ss@.len(),
            base == sd@.len(),
            r@.len() == base + q,
            forall|k: int| 0 <= k < base ==> #[trigger] r@[k] == (sd@[k].1, k as usize),
            forall|k: int| 0 <= k < q ==> #[trigger] r@[base + k] == (ss@[k].1, k as usize),
        decreases ss@.len() - q,
    {
        r.push((ss[q].1, q));
        q += 1;
    }
    proof {
        lemma_resolution(t, ln, sd@, ss@, r@);
    }
    r
}

/// The shape of the data `resolve` hands to its proof: two sorted
/// permutations of the two groups' keys, and the slot list they induce.
spec fn res_setup(
    t: Seq<TurnIn>,
    ln: LaneIn,
    sd: Seq<(u32, u64)>,
    ss: Seq<(u32, u64)>,
    r: Seq<(u64, usize)>,
) -> bool {
    &&& turn_ids(t).no_duplicates()
    &&& sd.len() <= usize::MAX
    &&& ss.len() <= usize::MAX
    &&& sd.to_multiset() == group_keys(t, ln, true).to_multiset()
    &&& ss.to_multiset() == group_keys(t, ln, false).to_multiset()
    &&& sorted_keys(sd)
    &&& sorted_keys(ss)
    &&& r.len() == sd.len() + ss.len()
    &&& (forall|k: int| 0 <= k < sd.len() ==> #[trigger] r[k] == (sd[k].1, k as usize))
    &&& (forall|k: int|
        0 <= k < ss.len() ==> #[trigger] r[sd.len() + k] == (ss[k].1, k as usize))
}

/// The slot list carries each turn identifier exactly once.
proof fn lemma_res_keys(
    t: Seq<TurnIn>,
    ln: LaneIn,
    sd: Seq<(u32, u64)>,
    ss: Seq<(u32, u64)>,
    r: Seq<(u64, usize)>,
)
    requires
        res_setup(t, ln, sd, ss, r),
    ensures
        assoc_keys(r).no_duplicates(),
        r.len() == t.len(),
        forall|id: u64| #[trigger] assoc_keys(r).contains(id) ==> turn_ids(t).contains(id),
        ids_of(sd).no_duplicates(),
        ids_of(ss).no_duplicates(),
        sd.len() == count_group(t, ln, true),
        ss.len() == count_group(t, ln, false),
{
    broadcast use vstd::seq_lib::group_to_multiset_ensures;
    broadcast use vstd::multiset::group_multiset_axioms;

    let kd = group_keys(t, ln, true);
    let ks = group_keys(t, ln, false);
    lemma_group_keys_ids_nodup(t, ln, true);
    lemma_group_keys_ids_nodup(t, ln, false);
    lemma_group_keys_partition_len(t, ln);
    lemma_ids_nodup_transfer(kd, sd);
    lemma_ids_nodup_transfer(ks, ss);
    assert(sd.len() == kd.len() && ss.len() == ks.len()) by {
        assert(sd.to_multiset().len() == kd.to_multiset().len());
        assert(ss.to_multiset().len() == ks.to_multiset().len());
    }
    let keys = assoc_keys(r);
    let nd = sd.len() as int;
    assert forall|k: int| 0 <= k < keys.len() implies #[trigger] keys[k] == if k < nd {
        sd[k].1
    } else {
        ss[k - nd].1
    } by {
        if k < nd {
            assert(r[k] == (sd[k].1, k as usize));
        } else {
            assert(r[nd + (k - nd)] == (ss[k - nd].1, (k - nd) as usize));
        }
    }
    assert forall|a: int, b: int| 0 <= a < nd && 0 <= b < ss.len() implies sd[a].1 != ss[b].1 by {
        if sd[a].1 == ss[b].1 {
            lemma_position_has_turn(t, ln, sd, true, a);
            lemma_position_has_turn(t, ln, ss, false, b);
            let ti = choose|ti: int|
                0 <= ti < t.len() && in_dst_group(#[trigger] t[ti], ln) == true && turn_key(t[ti])
                    == sd[a];
            let tj = choose|tj: int|
                0 <= tj < t.len() && in_dst_group(#[trigger] t[tj], ln) == false && turn_key(t[tj])
                    == ss[b];
            assert(turn_ids(t)[ti] == t[ti].id);
            assert(turn_ids(t)[tj] == t[tj].id);
            assert(ti == tj);
        }
    }
    assert forall|a: int, b: int|
        0 <= a < keys.len() && 0 <= b < keys.len() && a != b implies keys[a] != keys[b] by {
        if a < nd && b < nd {
            assert(ids_of(sd)[a] == sd[a].1);
            assert(ids_of(sd)[b] == sd[b].1);
        } else if a >= nd && b >= nd {
            assert(ids_of(ss)[a - nd] == ss[a - nd].1);
            assert(ids_of(ss)[b - nd] == ss[b - nd].1);
        }
    }
    assert forall|id: u64| #[trigger] keys.contains(id) implies turn_ids(t).contains(id) by {
        let k = choose|k: int| 0 <= k < keys.len() && keys[k] == id;
        if k < nd {
            lemma_position_has_turn(t, ln, sd, true, k);
            let ti = choose|ti: int|
                0 <= ti < t.len() && in_dst_group(#[trigger] t[ti], ln) == true && turn_key(t[ti])
                    == sd[k];
            assert(turn_ids(t)[ti] == t[ti].id);
        } else {
            lemma_position_has_turn(t, ln, ss, false, k - nd);
            let ti = choose|ti: int|
                0 <= ti < t.len() && in_dst_group(#[trigger] t[ti], ln) == false && turn_key(t[ti])
                    == ss[k - nd];
            assert(turn_ids(t)[ti] == t[ti].id);
        }
    }
}

/// Where one turn's slot sits: at the position of the turn's key in its
/// group's sorted key list.
proof fn lemma_res_position(
    t: Seq<TurnIn>,
    ln: LaneIn,
    sd: Seq<(u32, u64)>,
    ss: Seq<(u32, u64)>,
    r: Seq<(u64, usize)>,
    i0: int,
)
    requires
        res_setup(t, ln, sd, ss, r),
        0 <= i0 < t.len(),
    ensures
        assoc_map(r).contains_key(t[i0].id),
        ({
            let m = assoc_map(r);
            let pos = m[t[i0].id] as int;
            if in_dst_group(t[i0], ln) {
                0 <= pos < sd.len() && sd[pos] == turn_key(t[i0])
            } else {
                0 <= pos < ss.len() && ss[pos] == turn_key(t[i0])
            }
        }),
{
    lemma_res_keys(t, ln, sd, ss, r);
    lemma_assoc_map_membership(r);
    lemma_assoc_map_values(r);
    let m = assoc_map(r);
    let nd = sd.len() as int;
    if in_dst_group(t[i0], ln) {
        lemma_turn_has_position(t, ln, sd, true, i0);
        let pos = choose|pos: int| 0 <= pos < sd.len() && #[trigger] sd[pos] == turn_key(t[i0]);
        assert(r[pos] == (sd[pos].1, pos as usize));
        assert(r[pos].0 == t[i0].id);
        assert(m.contains_key(t[i0].id) && m[t[i0].id] == r[pos].1);
    } else {
        lemma_turn_has_position(t, ln, ss, false, i0);
        let pos = choose|pos: int| 0 <= pos < ss.len() && #[trigger] ss[pos] == turn_key(t[i0]);
        assert(r[nd + pos] == (ss[pos].1, pos as usize));
        assert(r[nd + pos].0 == t[i0].id);
        assert(m.contains_key(t[i0].id) && m[t[i0].id] == r[nd + pos].1);
    }
}

/// Every slot below a group's size is used by some turn of that group.
proof fn lemma_res_slot_used(
    t: Seq<TurnIn>,
    ln: LaneIn,
    sd: Seq<(u32, u64)>,
    ss: Seq<(u32, u64)>,
    r: Seq<(u64, usize)>,
    dst: bool,
    s: int,
)
    requires
        res_setup(t, ln, sd, ss, r),
        0 <= s < count_group(t, ln, dst),
    ensures
        slot_used(t, ln, assoc_map(r), dst, s),
{
    lemma_res_keys(t, ln, sd, ss, r);
    lemma_assoc_map_membership(r);
    lemma_assoc_map_values(r);
    let m = assoc_map(r);
    let nd = sd.len() as int;
    if dst {
        lemma_position_has_turn(t, ln, sd, true, s);
        let ti = choose|ti: int|
            0 <= ti < t.len() && in_dst_group(#[trigger] t[ti], ln) == true && turn_key(t[ti])
                == sd[s];
        assert(r[s] == (sd[s].1, s as usize));
        assert(r[s].0 == t[ti].id);
        assert(m.contains_key(t[ti].id) && m[t[ti].id] as int == s);
    } else {
        lemma_position_has_turn(t, ln, ss, false, s);
        let ti = choose|ti: int|
            0 <= ti < t.len() && in_dst_group(#[trigger] t[ti], ln) == false && turn_key(t[ti])
                == ss[s];
        assert(r[nd + s] == (ss[s].1, s as usize));
        assert(r[nd + s].0 == t[ti].id);
        assert(m.contains_key(t[ti].id) && m[t[ti].id] as int == s);
    }
}

/// The slot list built from the two sorted group key lists is a correct
/// resolution.
proof fn lemma_resolution(
    t: Seq<TurnIn>,
    ln: LaneIn,
    sd: Seq<(u32, u64)>,
    ss: Seq<(u32, u64)>,
    r: Seq<(u64, usize)>,
)
    requires
        res_setup(t, ln, sd, ss, r),
    ensures
        resolved(t, ln, r),
{
    lemma_res_keys(t, ln, sd, ss, r);
    lemma_assoc_map_membership(r);
    lemma_assoc_map_values(r);
    let m = assoc_map(r);
    assert forall|i0: int| 0 <= i0 < t.len() implies m.contains_key((#[trigger] t[i0]).id) && (
    m[t[i0].id] as int) < count_group(t, ln, in_dst_group(t[i0], ln)) by {
        lemma_res_position(t, ln, sd, ss, r, i0);
    }
    assert forall|id: u64| #[trigger] turn_ids(t).contains(id) implies assoc_keys(r).contains(
        id,
    ) by {
        let i0 = choose|i0: int| 0 <= i0 < turn_ids(t).len() && turn_ids(t)[i0] == id;
        assert(t[i0].id == id);
        lemma_res_position(t, ln, sd, ss, r, i0);
    }
    assert forall|s: int| 0 <= s < count_group(t, ln, true) implies #[trigger] slot_used(
        t,
        ln,
        m,
        true,
        s,
    ) by {
        lemma_res_slot_used(t, ln, sd, ss, r, true, s);
    }
    assert forall|s: int| 0 <= s < count_group(t, ln, false) implies #[trigger] slot_used(
        t,
        ln,
        m,
        false,
        s,
    ) by {
        lemma_res_slot_used(t, ln, sd, ss, r, false, s);
    }
    assert forall|i0: int, j0: int|
        0 <= i0 < t.len() && 0 <= j0 < t.len() && i0 != j0 && in_dst_group(#[trigger] t[i0], ln)
            == in_dst_group(#[trigger] t[j0], ln) implies m[t[i0].id] != m[t[j0].id] by {
        lemma_res_position(t, ln, sd, ss, r, i0);
        lemma_res_position(t, ln, sd, ss, r, j0);
        assert(turn_ids(t)[i0] == t[i0].id);
        assert(turn_ids(t)[j0] == t[j0].id);
        if m[t[i0].id] == m[t[j0].id] {
            assert(turn_key(t[i0]) == turn_key(t[j0]));
            assert(t[i0].id == t[j0].id);
        }
    }
    assert forall|i0: int, j0: int|
        0 <= i0 < t.len() && 0 <= j0 < t.len() && in_dst_group(#[trigger] t[i0], ln)
            == in_dst_group(#[trigger] t[j0], ln) && key_lt(
            turn_key(t[i0]),
            turn_key(t[j0]),
        ) implies m[t[i0].id] < m[t[j0].id] by {
        lemma_res_position(t, ln, sd, ss, r, i0);
        lemma_res_position(t, ln, sd, ss, r, j0);
        let pi = m[t[i0].id] as int;
        let pj = m[t[j0].id] as int;
        if in_dst_group(t[i0], ln) {
            if pj < pi {
                assert(key_le(sd[pj], sd[pi]));
            }
            if pj == pi {
                assert(turn_key(t[i0]) == turn_key(t[j0]));
            }
        } else {
            if pj < pi {
                assert(key_le(ss[pj], ss[pi]));
            }
            if pj == pi {
                assert(turn_key(t[i0]) == turn_key(t[j0]));
            }
        }
    }
}

} // verus!
