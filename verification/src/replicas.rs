//! From the chunk records of a file to the replica sets of its parts.

use vstd::prelude::*;

use crate::foreign::{
    group_by_part, groups_view, replicas_of, runs_by_part, sort_by_part, sorted_by_part,
};
use crate::model::Chunk;

verus! {

/// Whether one of the groups holds the replicas of `part`.
pub open spec fn has_group_for(groups: Seq<Seq<Chunk>>, part: usize) -> bool {
    exists|g: int| 0 <= g < groups.len() && (#[trigger] groups[g])[0].file_part_num == part
}

/// Whether `groups` holds the replica sets of the listed chunk records: one
/// group for each part number that occurs in `chunks`, the groups in
/// ascending order of part number, and in each group all records of its part,
/// in the order of the listing.
pub open spec fn is_replica_grouping(chunks: Seq<Chunk>, groups: Seq<Seq<Chunk>>) -> bool {
    &&& forall|g: int|
        0 <= g < groups.len() ==> (#[trigger] groups[g]).len() > 0 && groups[g] == replicas_of(
            chunks,
            groups[g][0].file_part_num,
        )
    &&& forall|g: int, h: int|
        0 <= g < h < groups.len() ==> (#[trigger] groups[g])[0].file_part_num < (
        #[trigger] groups[h])[0].file_part_num
    &&& forall|i: int|
        0 <= i < chunks.len() ==> has_group_for(groups, (#[trigger] chunks[i]).file_part_num)
}

/// Whether `chunk` stands in one of the groups.
spec fn in_groups(groups: Seq<Seq<Chunk>>, chunk: Chunk) -> bool {
    exists|g: int, i: int|
        0 <= g < groups.len() && 0 <= i < groups[g].len() && (#[trigger] groups[g][i]) == chunk
}

proof fn lemma_flatten_last(groups: Seq<Seq<Chunk>>)
    requires
        groups.len() > 0,
    ensures
        groups.flatten() == groups.drop_last().flatten() + groups.last(),
{
    groups.drop_last().lemma_flatten_push(groups.last());
    assert(groups.drop_last().push(groups.last()) =~= groups);
}

/// What stands in the concatenation of the groups stands in one of them, and the other way round.
proof fn lemma_flatten_members(groups: Seq<Seq<Chunk>>)
    ensures
        forall|c: Chunk|
            #![trigger groups.flatten().contains(c)]
            #![trigger in_groups(groups, c)]
            groups.flatten().contains(c) <==> in_groups(groups, c),
    decreases groups.len(),
{
    if groups.len() == 0 {
        assert(groups.flatten() =~= Seq::<Chunk>::empty());
    } else {
        let front = groups.drop_last();
        lemma_flatten_last(groups);
        lemma_flatten_members(front);
        let flat = groups.flatten();
        assert forall|c: Chunk| flat.contains(c) implies in_groups(groups, c) by {
            let k = choose|k: int| 0 <= k < flat.len() && flat[k] == c;
            if k < front.flatten().len() {
                assert(front.flatten()[k] == c);
                assert(front.flatten().contains(c));
                assert(in_groups(front, c));
                let (g, i) = choose|g: int, i: int|
                    0 <= g < front.len() && 0 <= i < front[g].len() && (#[trigger] front[g][i])
                        == c;
                assert(groups[g][i] == c);
            } else {
                let i = k - front.flatten().len();
                assert(groups[groups.len() - 1][i] == c);
            }
        }
        assert forall|c: Chunk| in_groups(groups, c) implies flat.contains(c) by {
            let (g, i) = choose|g: int, i: int|
                0 <= g < groups.len() && 0 <= i < groups[g].len() && (#[trigger] groups[g][i])
                    == c;
            if g < front.len() {
                assert(front[g][i] == c);
                assert(in_groups(front, c));
                let k = choose|k: int| 0 <= k < front.flatten().len() && front.flatten()[k] == c;
                assert(flat[k] == c);
            } else {
                assert(flat[front.flatten().len() + i] == c);
            }
        }
    }
}

proof fn lemma_runs_front(groups: Seq<Seq<Chunk>>)
    requires
        groups.len() > 0,
        runs_by_part(groups),
    ensures
        runs_by_part(groups.drop_last()),
{
    let front = groups.drop_last();
    assert forall|g: int| 0 <= g < front.len() implies (#[trigger] front[g]).len() > 0 by {
        assert(front[g] == groups[g]);
    }
    assert forall|g: int, i: int| 0 <= g < front.len() && 0 <= i < front[g].len() implies (
    #[trigger] front[g][i]).file_part_num == front[g][0].file_part_num by {
        assert(front[g][i] == groups[g][i]);
    }
    assert forall|g: int| 0 < g < front.len() implies (#[trigger] front[g])[0].file_part_num
        != front[g - 1][0].file_part_num by {
        assert(front[g] == groups[g]);
        assert(front[g - 1] == groups[g - 1]);
    }
}

/// Runs of a sequence that stands in ascending order have ascending part numbers.
proof fn lemma_runs_ascending(groups: Seq<Seq<Chunk>>)
    requires
        runs_by_part(groups),
        sorted_by_part(groups.flatten()),
    ensures
        ascending(groups),
    decreases groups.len(),
{
    if groups.len() > 0 {
        let front = groups.drop_last();
        let last = groups.last();
        let flat = groups.flatten();
        lemma_flatten_last(groups);
        lemma_runs_front(groups);
        assert(sorted_by_part(front.flatten())) by {
            assert forall|i: int, j: int| 0 <= i <= j < front.flatten().len() implies front.flatten()[i].file_part_num
                <= front.flatten()[j].file_part_num by {
                assert(flat[i] == front.flatten()[i]);
                assert(flat[j] == front.flatten()[j]);
            }
        }
        lemma_runs_ascending(front);
        lemma_flatten_members(front);
        assert(last.len() > 0);
        assert(flat[front.flatten().len() as int] == last[0]);
        assert forall|g: int, h: int| 0 <= g < h < groups.len() implies (
        #[trigger] groups[g])[0].file_part_num < (#[trigger] groups[h])[0].file_part_num by {
            if h < front.len() {
                assert(front[g] == groups[g]);
                assert(front[h] == groups[h]);
            } else {
                let prev = front.len() - 1;
                assert(front[prev].len() > 0);
                assert(front[prev][0] == groups[prev][0]);
                assert(in_groups(front, front[prev][0]));
                let k = choose|k: int|
                    0 <= k < front.flatten().len() && front.flatten()[k] == front[prev][0];
                assert(flat[k] == front[prev][0]);
                assert(groups[prev][0].file_part_num <= last[0].file_part_num);
                assert(groups[h][0].file_part_num != groups[h - 1][0].file_part_num);
                if g < prev {
                    assert(front[g] == groups[g]);
                    assert(front[prev] == groups[prev]);
                }
            }
        }
    }
}

proof fn lemma_replicas_of_all(s: Seq<Chunk>, part: usize)
    requires
        forall|i: int| 0 <= i < s.len() ==> (#[trigger] s[i]).file_part_num == part,
    ensures
        replicas_of(s, part) == s,
    decreases s.len(),
{
    reveal(Seq::filter);
    if s.len() > 0 {
        assert forall|i: int| 0 <= i < s.drop_last().len() implies (#[trigger] s.drop_last()[i]).file_part_num
            == part by {
            assert(s.drop_last()[i] == s[i]);
        }
        lemma_replicas_of_all(s.drop_last(), part);
        assert(s.drop_last().push(s.last()) =~= s);
    }
}

proof fn lemma_replicas_of_none(s: Seq<Chunk>, part: usize)
    requires
        forall|i: int| 0 <= i < s.len() ==> (#[trigger] s[i]).file_part_num != part,
    ensures
        replicas_of(s, part) == Seq::<Chunk>::empty(),
    decreases s.len(),
{
    reveal(Seq::filter);
    if s.len() > 0 {
        assert forall|i: int| 0 <= i < s.drop_last().len() implies (#[trigger] s.drop_last()[i]).file_part_num
            != part by {
            assert(s.drop_last()[i] == s[i]);
        }
        lemma_replicas_of_none(s.drop_last(), part);
    } else {
        assert(s =~= Seq::<Chunk>::empty());
    }
}

/// Whether the groups hold part numbers in strictly ascending order.
spec fn ascending(groups: Seq<Seq<Chunk>>) -> bool {
    forall|a: int, b: int|
        0 <= a < b < groups.len() ==> (#[trigger] groups[a])[0].file_part_num < (
        #[trigger] groups[b])[0].file_part_num
}

proof fn lemma_ascending_front(groups: Seq<Seq<Chunk>>)
    requires
        groups.len() > 0,
        ascending(groups),
    ensures
        ascending(groups.drop_last()),
{
    let front = groups.drop_last();
    assert forall|a: int, b: int| 0 <= a < b < front.len() implies (
    #[trigger] front[a])[0].file_part_num < (#[trigger] front[b])[0].file_part_num by {
        assert(front[a] == groups[a]);
        assert(front[b] == groups[b]);
    }
}

/// No record of the part of group `g` stands in a group before it.
proof fn lemma_no_replica_before(groups: Seq<Seq<Chunk>>, g: int)
    requires
        runs_by_part(groups),
        ascending(groups),
        0 <= g < groups.len(),
    ensures
        replicas_of(groups.take(g).flatten(), groups[g][0].file_part_num) == Seq::<Chunk>::empty(),
{
    let part = groups[g][0].file_part_num;
    let before = groups.take(g);
    let flat = before.flatten();
    lemma_flatten_members(before);
    assert forall|k: int| 0 <= k < flat.len() implies (#[trigger] flat[k]).file_part_num
        != part by {
        assert(flat.contains(flat[k]));
        assert(in_groups(before, flat[k]));
        let (a, i) = choose|a: int, i: int|
            0 <= a < before.len() && 0 <= i < before[a].len() && (#[trigger] before[a][i])
                == flat[k];
        assert(before[a] == groups[a]);
        assert(groups[a][i].file_part_num == groups[a][0].file_part_num);
        assert(groups[a][0].file_part_num < groups[g][0].file_part_num);
    }
    lemma_replicas_of_none(flat, part);
}

/// In runs with ascending part numbers, the records of a run's part are that run.
proof fn lemma_replicas_of_runs(groups: Seq<Seq<Chunk>>, g: int)
    requires
        runs_by_part(groups),
        ascending(groups),
        0 <= g < groups.len(),
    ensures
        replicas_of(groups.flatten(), groups[g][0].file_part_num) == groups[g],
    decreases groups.len(),
{
    let part = groups[g][0].file_part_num;
    let front = groups.drop_last();
    let last = groups.last();
    lemma_flatten_last(groups);
    Seq::filter_distributes_over_add(front.flatten(), last, |c: Chunk| c.file_part_num == part);
    assert(replicas_of(groups.flatten(), part) == replicas_of(front.flatten(), part) + replicas_of(
        last,
        part,
    ));
    if g < front.len() {
        lemma_runs_front(groups);
        lemma_ascending_front(groups);
        assert(front[g] == groups[g]);
        lemma_replicas_of_runs(front, g);
        assert(replicas_of(last, part) == Seq::<Chunk>::empty()) by {
            assert(groups[g][0].file_part_num < groups[groups.len() - 1][0].file_part_num);
            assert forall|i: int| 0 <= i < last.len() implies (#[trigger] last[i]).file_part_num
                != part by {
                assert(last[i] == groups[groups.len() - 1][i]);
            }
            lemma_replicas_of_none(last, part);
        }
        assert(groups[g] + Seq::<Chunk>::empty() =~= groups[g]);
    } else {
        assert(replicas_of(last, part) == last) by {
            assert forall|i: int| 0 <= i < last.len() implies (#[trigger] last[i]).file_part_num
                == part by {
                assert(last[i] == groups[groups.len() - 1][i]);
            }
            lemma_replicas_of_all(last, part);
        }
        assert(replicas_of(front.flatten(), part) == Seq::<Chunk>::empty()) by {
            assert(groups.take(g) =~= front);
            lemma_no_replica_before(groups, g);
        }
        assert(Seq::<Chunk>::empty() + last =~= last);
    }
}

/// Two groupings of the same records hold the same part numbers up to `upto`.
proof fn lemma_same_parts(chunks: Seq<Chunk>, first: Seq<Seq<Chunk>>, second: Seq<Seq<Chunk>>, upto: int)
    requires
        is_replica_grouping(chunks, first),
        is_replica_grouping(chunks, second),
        0 <= upto <= first.len(),
        upto <= second.len(),
    ensures
        forall|g: int|
            0 <= g < upto ==> (#[trigger] first[g])[0].file_part_num
                == second[g][0].file_part_num,
    decreases upto,
{
    if upto > 0 {
        let i = upto - 1;
        lemma_same_parts(chunks, first, second, i);
        let a = first[i][0].file_part_num;
        let b = second[i][0].file_part_num;
        let ha = lemma_part_in_other(chunks, first, second, i);
        let hb = lemma_part_in_other(chunks, second, first, i);
        if ha < i {
            assert(first[ha][0].file_part_num == second[ha][0].file_part_num);
            assert(first[ha][0].file_part_num < first[i][0].file_part_num);
        }
        if hb < i {
            assert(first[hb][0].file_part_num == second[hb][0].file_part_num);
            assert(second[hb][0].file_part_num < second[i][0].file_part_num);
        }
        if ha > i {
            assert(second[i][0].file_part_num < second[ha][0].file_part_num);
        }
        if hb > i {
            assert(first[i][0].file_part_num < first[hb][0].file_part_num);
        }
        assert(a == b);
    }
}

/// The part of a group of one grouping has a group in every other grouping of the same records.
proof fn lemma_part_in_other(
    chunks: Seq<Chunk>,
    first: Seq<Seq<Chunk>>,
    second: Seq<Seq<Chunk>>,
    g: int,
) -> (h: int)
    requires
        is_replica_grouping(chunks, first),
        is_replica_grouping(chunks, second),
        0 <= g < first.len(),
    ensures
        0 <= h < second.len(),
        second[h][0].file_part_num == first[g][0].file_part_num,
{
    let part = first[g][0].file_part_num;
    assert(first[g] == replicas_of(chunks, part));
    assert(replicas_of(chunks, part).contains(first[g][0]));
    chunks.lemma_filter_contains_rev(|c: Chunk| c.file_part_num == part, first[g][0]);
    let k = choose|k: int| 0 <= k < chunks.len() && chunks[k] == first[g][0];
    assert(has_group_for(second, chunks[k].file_part_num));
    choose|h: int| 0 <= h < second.len() && (#[trigger] second[h])[0].file_part_num == part
}

/// The records that are listed have one grouping into replica sets only.
pub proof fn law_grouping_unique(chunks: Seq<Chunk>, first: Seq<Seq<Chunk>>, second: Seq<Seq<Chunk>>)
    requires
        is_replica_grouping(chunks, first),
        is_replica_grouping(chunks, second),
    ensures
        first == second,
{
    if first.len() < second.len() {
        lemma_same_parts(chunks, first, second, first.len() as int);
        let h = lemma_part_in_other(chunks, second, first, first.len() as int);
        assert(first[h][0].file_part_num == second[h][0].file_part_num);
        assert(second[h][0].file_part_num < second[first.len() as int][0].file_part_num);
    } else if second.len() < first.len() {
        lemma_same_parts(chunks, first, second, second.len() as int);
        let h = lemma_part_in_other(chunks, first, second, second.len() as int);
        assert(first[h][0].file_part_num == second[h][0].file_part_num);
        assert(first[h][0].file_part_num < first[second.len() as int][0].file_part_num);
    } else {
        lemma_same_parts(chunks, first, second, first.len() as int);
        assert forall|g: int| 0 <= g < first.len() implies first[g] == second[g] by {
            assert(first[g] == replicas_of(chunks, first[g][0].file_part_num));
            assert(second[g] == replicas_of(chunks, second[g][0].file_part_num));
        }
        assert(first =~= second);
    }
}

/// Sorts the listed chunk records by part number and cuts them into the
/// replica sets of the parts. The records of one part keep the order of the
/// listing, so the replicas are later tried in that order.
pub fn replica_groups(chunks: Vec<Chunk>) -> (groups: Vec<Vec<Chunk>>)
    ensures
        is_replica_grouping(chunks@, groups_view(groups@)),
{
    let mut sorted = chunks;
    sort_by_part(&mut sorted);
    let groups = group_by_part(&sorted);
    proof {
        let listed = chunks@;
        let gs = groups_view(groups@);
        lemma_runs_ascending(gs);
        lemma_flatten_members(gs);
        assert forall|g: int| 0 <= g < gs.len() implies (#[trigger] gs[g]).len() > 0 && gs[g]
            == replicas_of(listed, gs[g][0].file_part_num) by {
            lemma_replicas_of_runs(gs, g);
            assert(replicas_of(sorted@, gs[g][0].file_part_num) == replicas_of(
                listed,
                gs[g][0].file_part_num,
            ));
        }
        assert forall|i: int| 0 <= i < listed.len() implies has_group_for(
            gs,
            (#[trigger] listed[i]).file_part_num,
        ) by {
            let part = listed[i].file_part_num;
            listed.lemma_filter_contains(|c: Chunk| c.file_part_num == part, i);
            assert(replicas_of(listed, part).contains(listed[i]));
            assert(replicas_of(sorted@, part) == replicas_of(listed, part));
            sorted@.lemma_filter_contains_rev(|c: Chunk| c.file_part_num == part, listed[i]);
            assert(sorted@.contains(listed[i]));
            assert(in_groups(gs, listed[i]));
            let (g, k) = choose|g: int, k: int|
                0 <= g < gs.len() && 0 <= k < gs[g].len() && (#[trigger] gs[g][k]) == listed[i];
            assert(gs[g][k].file_part_num == gs[g][0].file_part_num);
        }
    }
    groups
}

} // verus!
