//! Planned entries grouped by their subtitle keys, so that each distinct list becomes one
//! download.

use vstd::prelude::*;
use crate::media::subtitles;
use crate::media::subtitles::{Planned, PlannedView};
use crate::util::text;

verus! {

/// The subtitle keys of a planned entry.
pub open spec fn keys(plan: PlannedView) -> Seq<Seq<char>> {
    subtitles::keys_of(plan.picks)
}

/// The first group from `k` on whose entries have these keys; the number of groups where there
/// is none. A group is a row of positions in `planned`.
pub open spec fn group_with(
    groups: Seq<Seq<int>>,
    planned: Seq<PlannedView>,
    wanted: Seq<Seq<char>>,
    k: int,
) -> int
    decreases groups.len() - k,
{
    if k < 0 || k >= groups.len() {
        groups.len() as int
    } else if keys(planned[groups[k][0]]) == wanted {
        k
    } else {
        group_with(groups, planned, wanted, k + 1)
    }
}

/// The positions of the planned entries, grouped by their keys: each entry joins the group that
/// has its keys, or else opens one.
pub open spec fn groups_of(planned: Seq<PlannedView>) -> Seq<Seq<int>>
    decreases planned.len(),
{
    if planned.len() == 0 {
        seq![]
    } else {
        let before = groups_of(planned.drop_last());
        let i = planned.len() - 1;
        let k = group_with(before, planned, keys(planned[i]), 0);
        if 0 <= k < before.len() {
            before.update(k, before[k].push(i))
        } else {
            before.push(seq![i])
        }
    }
}

/// What holds of a grouping: no group is empty, its positions ascend and lie within the list,
/// and the entries of a group have the keys of its first.
pub open spec fn sound(groups: Seq<Seq<int>>, planned: Seq<PlannedView>) -> bool {
    forall|g: int|
        0 <= g < groups.len() ==> {
            &&& #[trigger] groups[g].len() > 0
            &&& forall|a: int|
                0 <= a < groups[g].len() ==> 0 <= #[trigger] groups[g][a] < planned.len() && keys(
                    planned[groups[g][a]],
                ) == keys(planned[groups[g][0]])
            &&& forall|a: int, b: int|
                0 <= a < b < groups[g].len() ==> groups[g][a] < groups[g][b]
        }
}

/// Whether no two groups have the same keys.
pub open spec fn distinct(groups: Seq<Seq<int>>, planned: Seq<PlannedView>) -> bool {
    forall|g: int, h: int|
        0 <= g < h < groups.len() ==> keys(planned[#[trigger] groups[g][0]]) != keys(
            planned[#[trigger] groups[h][0]],
        )
}

/// Whether the entry at position `i` is in a group.
pub open spec fn grouped(groups: Seq<Seq<int>>, i: int) -> bool {
    exists|g: int| 0 <= g < groups.len() && (#[trigger] groups[g]).contains(i)
}

/// Whether each entry is in a group.
pub open spec fn complete(groups: Seq<Seq<int>>, planned: Seq<PlannedView>) -> bool {
    forall|i: int| 0 <= i < planned.len() ==> #[trigger] grouped(groups, i)
}

proof fn lemma_group_with(
    groups: Seq<Seq<int>>,
    planned: Seq<PlannedView>,
    wanted: Seq<Seq<char>>,
    k: int,
)
    requires
        0 <= k <= groups.len(),
    ensures
        ({
            let r = group_with(groups, planned, wanted, k);
            &&& k <= r <= groups.len()
            &&& r < groups.len() ==> keys(planned[groups[r][0]]) == wanted
            &&& forall|j: int|
                k <= j < r ==> keys(planned[#[trigger] groups[j][0]]) != wanted
        }),
    decreases groups.len() - k,
{
    if k < groups.len() && keys(planned[groups[k][0]]) != wanted {
        lemma_group_with(groups, planned, wanted, k + 1);
    }
}

/// Every entry lands in exactly one group, beside the entries with the same subtitle keys and no
/// others, in the order of the list.
pub proof fn law_grouping_partitions(planned: Seq<PlannedView>)
    ensures
        sound(groups_of(planned), planned),
        distinct(groups_of(planned), planned),
        complete(groups_of(planned), planned),
    decreases planned.len(),
{
    if planned.len() > 0 {
        let prior = planned.drop_last();
        let before = groups_of(prior);
        law_grouping_partitions(prior);
        let i = planned.len() - 1;
        let wanted = keys(planned[i]);
        let k = group_with(before, planned, wanted, 0);
        lemma_group_with(before, planned, wanted, 0);
        let after = groups_of(planned);
        assert forall|g: int| 0 <= g < before.len() implies keys(
            planned[#[trigger] before[g][0]],
        ) == keys(prior[before[g][0]]) by {
            assert(before[g].len() > 0);
            assert(0 <= before[g][0] < prior.len());
        }
        assert forall|g: int| 0 <= g < after.len() implies {
            &&& #[trigger] after[g].len() > 0
            &&& forall|a: int|
                0 <= a < after[g].len() ==> 0 <= #[trigger] after[g][a] < planned.len() && keys(
                    planned[after[g][a]],
                ) == keys(planned[after[g][0]])
            &&& forall|a: int, b: int| 0 <= a < b < after[g].len() ==> after[g][a] < after[g][b]
        } by {
            if g < before.len() {
                assert(before[g].len() > 0);
                assert(after[g][0] == before[g][0]);
                assert forall|a: int| 0 <= a < after[g].len() implies 0 <= #[trigger] after[g][a]
                    < planned.len() && keys(planned[after[g][a]]) == keys(
                    planned[after[g][0]],
                ) by {
                    if a < before[g].len() {
                        assert(after[g][a] == before[g][a]);
                        assert(0 <= before[g][a] < prior.len());
                        assert(0 <= before[g][0] < prior.len());
                        assert(prior[before[g][a]] == planned[before[g][a]]);
                        assert(prior[before[g][0]] == planned[before[g][0]]);
                    }
                }
                assert forall|a: int, b: int| 0 <= a < b < after[g].len() implies after[g][a]
                    < after[g][b] by {
                    assert(after[g][a] == before[g][a]);
                    assert(0 <= before[g][a] < prior.len());
                    if b < before[g].len() {
                        assert(after[g][b] == before[g][b]);
                    }
                }
            }
        }
        assert forall|g: int, h: int| 0 <= g < h < after.len() implies keys(
            planned[#[trigger] after[g][0]],
        ) != keys(planned[#[trigger] after[h][0]]) by {
            assert(before[g].len() > 0);
            assert(after[g][0] == before[g][0]);
            if h < before.len() {
                assert(before[h].len() > 0);
                assert(after[h][0] == before[h][0]);
            }
        }
        assert forall|j: int| 0 <= j < planned.len() implies #[trigger] grouped(after, j) by {
            if j < prior.len() {
                assert(grouped(before, j));
                let g = choose|g: int|
                    0 <= g < before.len() && (#[trigger] before[g]).contains(j);
                let a = choose|a: int| 0 <= a < before[g].len() && before[g][a] == j;
                assert(after[g][a] == j);
                assert(after[g].contains(j));
            } else {
                let g = if k < before.len() {
                    k
                } else {
                    before.len() as int
                };
                assert(after[g].last() == j);
                assert(after[g][after[g].len() - 1] == j);
                assert(after[g].contains(j));
            }
        }
    }
}

/// Rows of positions, as numbers.
pub open spec fn positions(v: Seq<Vec<usize>>) -> Seq<Seq<int>> {
    v.map_values(|g: Vec<usize>| numbers(g@))
}

/// A row of positions, as numbers.
pub open spec fn numbers(v: Seq<usize>) -> Seq<int> {
    v.map_values(|i: usize| i as int)
}

fn same_keys(a: &Planned, b: &Planned) -> (r: bool)
    ensures
        r == (keys(a@) == keys(b@)),
{
    let ghost ka = keys(a@);
    let ghost kb = keys(b@);
    if a.picks.len() != b.picks.len() {
        assert(ka.len() != kb.len());
        return false;
    }
    let mut i: usize = 0;
    while i < a.picks.len()
        invariant
            i <= a.picks@.len(),
            a.picks@.len() == b.picks@.len(),
            ka == keys(a@),
            kb == keys(b@),
            forall|j: int| 0 <= j < i ==> ka[j] == kb[j],
        decreases a.picks@.len() - i,
    {
        assert(ka[i as int] == a.picks@[i as int].key@);
        assert(kb[i as int] == b.picks@[i as int].key@);
        if !text::same(a.picks[i].key.as_str(), b.picks[i].key.as_str()) {
            return false;
        }
        i += 1;
    }
    assert(ka =~= kb);
    true
}

/// The positions of the planned entries, grouped by their subtitle keys.
pub fn group_positions(planned: &[Planned]) -> (r: Vec<Vec<usize>>)
    ensures
        positions(r@) == groups_of(subtitles::planned_views(planned@)),
{
    let ghost all = subtitles::planned_views(planned@);
    let mut groups: Vec<Vec<usize>> = Vec::new();
    let mut i: usize = 0;
    assert(all.take(0) =~= seq![]);
    assert(positions(groups@) =~= groups_of(all.take(0)));
    while i < planned.len()
        invariant
            i <= planned@.len(),
            all == subtitles::planned_views(planned@),
            positions(groups@) == groups_of(all.take(i as int)),
        decreases planned@.len() - i,
    {
        let ghost before = groups@;
        let ghost now = all.take(i + 1);
        let ghost wanted = keys(now[i as int]);
        proof {
            law_grouping_partitions(all.take(i as int));
            assert(now.drop_last() =~= all.take(i as int));
            assert(now[i as int] == planned@[i as int]@);
        }
        let mut k: usize = 0;
        while k < groups.len()
            invariant_except_break
                k <= groups@.len(),
                i < planned@.len(),
                groups@ == before,
                all == subtitles::planned_views(planned@),
                now == all.take(i + 1),
                wanted == keys(now[i as int]),
                now[i as int] == planned@[i as int]@,
                positions(before) == groups_of(all.take(i as int)),
                sound(positions(before), all.take(i as int)),
                group_with(positions(before), now, wanted, 0) == group_with(
                    positions(before),
                    now,
                    wanted,
                    k as int,
                ),
            ensures
                k <= groups@.len(),
                groups@ == before,
                group_with(positions(before), now, wanted, 0) == k,
            decreases groups@.len() - k,
        {
            assert(positions(before)[k as int] == numbers(before[k as int]@));
            assert(positions(before)[k as int].len() > 0);
            assert(positions(before)[k as int][0] == before[k as int]@[0] as int);
            assert(0 <= positions(before)[k as int][0] < all.take(i as int).len());
            let first: usize = groups[k][0];
            assert(now[first as int] == planned@[first as int]@);
            if same_keys(&planned[first], &planned[i]) {
                break ;
            }
            k += 1;
        }
        if k < groups.len() {
            let mut members = groups.remove(k);
            members.push(i);
            groups.insert(k, members);
            assert(numbers(members@) =~= numbers(before[k as int]@).push(i as int));
            assert(positions(groups@) =~= positions(before).update(
                k as int,
                positions(before)[k as int].push(i as int),
            ));
        } else {
            let mut members: Vec<usize> = Vec::new();
            members.push(i);
            groups.push(members);
            assert(numbers(members@) =~= seq![i as int]);
            assert(positions(groups@) =~= positions(before).push(seq![i as int]));
        }
        i += 1;
    }
    assert(all.take(i as int) =~= all);
    groups
}

/// The planned entries at these positions.
pub open spec fn members(planned: Seq<Planned>, at: Seq<int>) -> Seq<Planned> {
    at.map_values(|i: int| planned[i])
}

/// Group planned entries by their subtitle keys.
pub fn group_by_langs<'a>(planned: &'a [Planned]) -> (r: Vec<Vec<&'a Planned>>)
    ensures
        r@.len() == groups_of(subtitles::planned_views(planned@)).len(),
        forall|g: int|
            0 <= g < r@.len() ==> (#[trigger] r@[g])@.unref() == members(
                planned@,
                groups_of(subtitles::planned_views(planned@))[g],
            ),
{
    let groups = group_positions(planned);
    let ghost spec_groups = groups_of(subtitles::planned_views(planned@));
    proof {
        law_grouping_partitions(subtitles::planned_views(planned@));
    }
    let mut out: Vec<Vec<&'a Planned>> = Vec::new();
    let mut g: usize = 0;
    while g < groups.len()
        invariant
            g <= groups@.len(),
            positions(groups@) == spec_groups,
            sound(spec_groups, subtitles::planned_views(planned@)),
            out@.len() == g,
            forall|h: int|
                0 <= h < g ==> (#[trigger] out@[h])@.unref() == members(planned@, spec_groups[h]),
        decreases groups@.len() - g,
    {
        let mut row: Vec<&'a Planned> = Vec::new();
        let mut a: usize = 0;
        let ghost at = spec_groups[g as int];
        assert(at == numbers(groups@[g as int]@));
        while a < groups[g].len()
            invariant
                g < groups@.len(),
                a <= groups@[g as int]@.len(),
                positions(groups@) == spec_groups,
                at == spec_groups[g as int],
                at == numbers(groups@[g as int]@),
                sound(spec_groups, subtitles::planned_views(planned@)),
                row@.unref() =~= members(planned@, at).take(a as int),
            decreases groups@[g as int]@.len() - a,
        {
            let i: usize = groups[g][a];
            assert(at[a as int] == i as int);
            assert(spec_groups[g as int].len() > 0);
            assert(0 <= spec_groups[g as int][a as int] < planned@.len());
            let ghost before = row@;
            row.push(&planned[i]);
            assert(row@.unref() =~= before.unref().push(planned@[i as int]));
            assert(members(planned@, at)[a as int] == planned@[i as int]);
            a += 1;
        }
        assert(row@.unref() =~= members(planned@, at));
        out.push(row);
        g += 1;
    }
    out
}

/// No entry is in two groups.
pub proof fn law_no_entry_is_in_two_groups(planned: Seq<PlannedView>, i: int, g: int, h: int)
    requires
        0 <= g < groups_of(planned).len(),
        0 <= h < groups_of(planned).len(),
        groups_of(planned)[g].contains(i),
        groups_of(planned)[h].contains(i),
    ensures
        g == h,
{
    let groups = groups_of(planned);
    law_grouping_partitions(planned);
    let a = choose|a: int| 0 <= a < groups[g].len() && groups[g][a] == i;
    let b = choose|b: int| 0 <= b < groups[h].len() && groups[h][b] == i;
    assert(groups[g].len() > 0);
    assert(groups[h].len() > 0);
    assert(keys(planned[groups[g][a]]) == keys(planned[groups[g][0]]));
    assert(keys(planned[groups[h][b]]) == keys(planned[groups[h][0]]));
    if g < h {
        assert(keys(planned[groups[g][0]]) != keys(planned[groups[h][0]]));
    } else if h < g {
        assert(keys(planned[groups[h][0]]) != keys(planned[groups[g][0]]));
    }
}

/// Groups stand in the order of their first members, so that downloads keep the order of the list.
pub proof fn law_groups_stand_in_order(planned: Seq<PlannedView>)
    ensures
        forall|g: int, h: int|
            0 <= g < h < groups_of(planned).len() ==> #[trigger] groups_of(planned)[g][0]
                < #[trigger] groups_of(planned)[h][0],
    decreases planned.len(),
{
    if planned.len() > 0 {
        let prior = planned.drop_last();
        let before = groups_of(prior);
        let after = groups_of(planned);
        law_groups_stand_in_order(prior);
        law_grouping_partitions(prior);
        lemma_group_with(before, planned, keys(planned[planned.len() - 1]), 0);
        assert forall|g: int, h: int| 0 <= g < h < after.len() implies #[trigger] after[g][0]
            < #[trigger] after[h][0] by {
            assert(before[g].len() > 0);
            assert(0 <= before[g][0] < prior.len());
            assert(after[g][0] == before[g][0]);
            if h < before.len() {
                assert(before[h].len() > 0);
                assert(after[h][0] == before[h][0]);
                assert(before[g][0] < before[h][0]);
            }
        }
    }
}

} // verus!
