//! Grouping fragments into the visual rows of a page.

use crate::geometry::{gap, gap_of};
use crate::model::{fragments_of_refs, Fragment, TextItem};
use crate::order::{
    arrange, key_ints, lemma_ranking_ascends, lemma_ranking_is_permutation, positions, rank,
    ranking, sort_by_keys, sorted_by_keys,
};
use crate::scan::{first_index, lemma_first_index, lemma_first_index_is_first};
use vstd::prelude::*;

verus! {

/// Accepts the rows whose first fragment lies within `tolerance` of `y`.
pub open spec fn row_fits(y: int, tolerance: int) -> spec_fn(Seq<Fragment>) -> bool {
    |row: Seq<Fragment>| gap(row[0].y, y) <= tolerance
}

/// The rows after `f` has joined them: `f` goes to the end of the first row
/// that it fits, or starts a new last row.
pub open spec fn place(rows: Seq<Seq<Fragment>>, f: Fragment, tolerance: int) -> Seq<
    Seq<Fragment>,
> {
    let i = first_index(rows, row_fits(f.y, tolerance));
    if i < rows.len() {
        rows.update(i, rows[i].push(f))
    } else {
        rows.push(seq![f])
    }
}

/// The rows that the fragments form when they are placed one after another
/// in their given order. The first fragment of a row decides who fits it.
pub open spec fn cluster(items: Seq<Fragment>, tolerance: int) -> Seq<Seq<Fragment>>
    decreases items.len(),
{
    if items.len() == 0 {
        Seq::empty()
    } else {
        place(cluster(items.drop_last(), tolerance), items.last(), tolerance)
    }
}

/// The left edges of the fragments.
pub open spec fn lefts(row: Seq<Fragment>) -> Seq<int> {
    Seq::new(row.len(), |i: int| row[i].x)
}

/// The row read from left to right.
pub open spec fn left_to_right(row: Seq<Fragment>) -> Seq<Fragment> {
    sorted_by_keys(row, lefts(row))
}

/// Each row read from left to right.
pub open spec fn each_left_to_right(rows: Seq<Seq<Fragment>>) -> Seq<Seq<Fragment>> {
    Seq::new(rows.len(), |i: int| left_to_right(rows[i]))
}

/// The top edge of the first fragment of each row.
pub open spec fn tops(rows: Seq<Seq<Fragment>>) -> Seq<int> {
    Seq::new(rows.len(), |i: int| rows[i][0].y)
}

/// The rows from top to bottom, by the top edge of their first fragment.
pub open spec fn top_to_bottom(rows: Seq<Seq<Fragment>>) -> Seq<Seq<Fragment>> {
    sorted_by_keys(rows, tops(rows))
}

/// The visual rows of the fragments: clustered by their top edge, each row
/// read from left to right, the rows from top to bottom.
pub open spec fn group_rows(items: Seq<Fragment>, tolerance: int) -> Seq<Seq<Fragment>> {
    top_to_bottom(each_left_to_right(cluster(items, tolerance)))
}

/// Whether every fragment of the row lies within the tolerance of the
/// fragment at position `a`.
pub open spec fn holds_together(row: Seq<Fragment>, a: int, tolerance: int) -> bool {
    0 <= a < row.len() && forall|k: int|
        0 <= k < row.len() ==> gap(row[a].y, #[trigger] row[k].y) <= tolerance
}

/// Whether the row holds a fragment of which every fragment of the row lies
/// within the tolerance.
pub open spec fn is_band(row: Seq<Fragment>, tolerance: int) -> bool {
    exists|a: int| holds_together(row, a, tolerance)
}

/// What a list of rows of text items stands for.
pub open spec fn rows_view(rows: Seq<Vec<&TextItem>>) -> Seq<Seq<Fragment>> {
    Seq::new(rows.len(), |i: int| fragments_of_refs(rows[i]@))
}

/// No row of a clustering is empty, and the rows hold as many fragments as
/// were placed.
pub proof fn lemma_cluster_rows_are_inhabited(items: Seq<Fragment>, tolerance: int)
    ensures
        forall|r: int|
            0 <= r < cluster(items, tolerance).len() ==> (#[trigger] cluster(
                items,
                tolerance,
            )[r]).len() > 0,
        cluster(items, tolerance).len() <= items.len(),
    decreases items.len(),
{
    if items.len() > 0 {
        let before = cluster(items.drop_last(), tolerance);
        lemma_cluster_rows_are_inhabited(items.drop_last(), tolerance);
        lemma_first_index_is_first(before, row_fits(items.last().y, tolerance));
    }
}

/// With a tolerance that is not negative, every fragment of a row of a
/// clustering lies within the tolerance of the row's first fragment, and the
/// first fragment of a row fits no row before it.
pub proof fn lemma_cluster_rows_are_bands(items: Seq<Fragment>, tolerance: int)
    requires
        tolerance >= 0,
    ensures
        forall|r: int, k: int|
            #![trigger cluster(items, tolerance)[r][k]]
            0 <= r < cluster(items, tolerance).len() && 0 <= k < cluster(
                items,
                tolerance,
            )[r].len() ==> gap(
                cluster(items, tolerance)[r][0].y,
                cluster(items, tolerance)[r][k].y,
            ) <= tolerance,
        forall|q: int, r: int|
            #![trigger cluster(items, tolerance)[q], cluster(items, tolerance)[r]]
            0 <= q < r < cluster(items, tolerance).len() ==> gap(
                cluster(items, tolerance)[q][0].y,
                cluster(items, tolerance)[r][0].y,
            ) > tolerance,
    decreases items.len(),
{
    if items.len() > 0 {
        let before = cluster(items.drop_last(), tolerance);
        let f = items.last();
        let after = cluster(items, tolerance);
        lemma_cluster_rows_are_bands(items.drop_last(), tolerance);
        lemma_cluster_rows_are_inhabited(items.drop_last(), tolerance);
        lemma_first_index_is_first(before, row_fits(f.y, tolerance));
        let i = first_index(before, row_fits(f.y, tolerance));
        assert forall|r: int, k: int|
            #![trigger after[r][k]]
            0 <= r < after.len() && 0 <= k < after[r].len() implies gap(
            after[r][0].y,
            after[r][k].y,
        ) <= tolerance by {
            if r < before.len() {
                assert(before[r].len() > 0);
                if r == i && k == before[r].len() {
                    assert(row_fits(f.y, tolerance)(before[i]));
                } else {
                    assert(after[r][k] == before[r][k]);
                }
            }
        }
        assert forall|q: int, r: int|
            #![trigger after[q], after[r]]
            0 <= q < r < after.len() implies gap(after[q][0].y, after[r][0].y) > tolerance by {
            assert(before[q].len() > 0);
            if r < before.len() {
                assert(before[r].len() > 0);
                assert(after[q][0] == before[q][0]);
                assert(after[r][0] == before[r][0]);
            } else {
                assert(!row_fits(f.y, tolerance)(before[q]));
            }
        }
    }
}

/// Read from left to right, the left edges of a row never decrease, and the
/// row holds the same fragments as before.
pub proof fn lemma_left_to_right(row: Seq<Fragment>)
    ensures
        left_to_right(row).len() == row.len(),
        forall|i: int, j: int|
            0 <= i < j < row.len() ==> left_to_right(row)[i].x <= left_to_right(row)[j].x,
        forall|i: int| 0 <= i < row.len() ==> row.contains(#[trigger] left_to_right(row)[i]),
        forall|i: int| 0 <= i < row.len() ==> left_to_right(row).contains(#[trigger] row[i]),
{
    let keys = lefts(row);
    let r = ranking(keys);
    lemma_ranking_is_permutation(keys);
    lemma_ranking_ascends(keys);
    let out = left_to_right(row);
    assert forall|i: int, j: int| 0 <= i < j < row.len() implies out[i].x <= out[j].x by {
        assert(arrange(keys, r)[i] == out[i].x);
        assert(arrange(keys, r)[j] == out[j].x);
    }
    assert forall|i: int| 0 <= i < row.len() implies row.contains(#[trigger] out[i]) by {
        assert(row[r[i]] == out[i]);
    }
    assert forall|i: int| 0 <= i < row.len() implies out.contains(#[trigger] row[i]) by {
        assert(r.contains(i));
        let p = choose|p: int| 0 <= p < r.len() && r[p] == i;
        assert(out[p] == row[i]);
    }
}

/// The visual rows are inhabited, each runs from left to right, and they
/// follow one another from top to bottom.
pub proof fn lemma_group_rows_are_ordered(items: Seq<Fragment>, tolerance: int)
    ensures
        forall|r: int|
            0 <= r < group_rows(items, tolerance).len() ==> (#[trigger] group_rows(
                items,
                tolerance,
            )[r]).len() > 0,
        forall|r: int, i: int, j: int|
            #![trigger group_rows(items, tolerance)[r][i], group_rows(items, tolerance)[r][j]]
            0 <= r < group_rows(items, tolerance).len() && 0 <= i < j < group_rows(
                items,
                tolerance,
            )[r].len() ==> group_rows(items, tolerance)[r][i].x <= group_rows(
                items,
                tolerance,
            )[r][j].x,
        forall|q: int, r: int|
            #![trigger group_rows(items, tolerance)[q], group_rows(items, tolerance)[r]]
            0 <= q < r < group_rows(items, tolerance).len() ==> group_rows(
                items,
                tolerance,
            )[q][0].y <= group_rows(items, tolerance)[r][0].y,
{
    let clustered = cluster(items, tolerance);
    let read = each_left_to_right(clustered);
    let keys = tops(read);
    let r = ranking(keys);
    let out = group_rows(items, tolerance);
    lemma_cluster_rows_are_inhabited(items, tolerance);
    lemma_ranking_is_permutation(keys);
    lemma_ranking_ascends(keys);
    assert forall|q: int| 0 <= q < read.len() implies (#[trigger] read[q]).len()
        == clustered[q].len() by {
        lemma_left_to_right(clustered[q]);
    }
    assert forall|q: int| 0 <= q < out.len() implies (#[trigger] out[q]).len() > 0 by {
        assert(out[q] == read[r[q]]);
        assert(clustered[r[q]].len() > 0);
    }
    assert forall|q: int, i: int, j: int|
        #![trigger out[q][i], out[q][j]]
        0 <= q < out.len() && 0 <= i < j < out[q].len() implies out[q][i].x <= out[q][j].x by {
        assert(out[q] == read[r[q]]);
        lemma_left_to_right(clustered[r[q]]);
    }
    assert forall|p: int, q: int|
        #![trigger out[p], out[q]]
        0 <= p < q < out.len() implies out[p][0].y <= out[q][0].y by {
        assert(arrange(keys, r)[p] == out[p][0].y);
        assert(arrange(keys, r)[q] == out[q][0].y);
    }
}

/// With a tolerance that is not negative, each visual row holds a fragment
/// of which every fragment of the row lies within the tolerance: fragments
/// that share a row are at most twice the tolerance apart.
pub proof fn lemma_group_rows_are_bands(items: Seq<Fragment>, tolerance: int)
    requires
        tolerance >= 0,
    ensures
        forall|r: int|
            0 <= r < group_rows(items, tolerance).len() ==> is_band(
                #[trigger] group_rows(items, tolerance)[r],
                tolerance,
            ),
{
    let clustered = cluster(items, tolerance);
    let read = each_left_to_right(clustered);
    let keys = tops(read);
    let r = ranking(keys);
    let out = group_rows(items, tolerance);
    lemma_cluster_rows_are_inhabited(items, tolerance);
    lemma_cluster_rows_are_bands(items, tolerance);
    lemma_ranking_is_permutation(keys);
    assert forall|q: int| 0 <= q < out.len() implies is_band(#[trigger] out[q], tolerance) by {
        let band = clustered[r[q]];
        assert(out[q] == left_to_right(band));
        lemma_left_to_right(band);
        assert(band.len() > 0);
        assert(out[q].contains(band[0]));
        let a = choose|a: int| 0 <= a < out[q].len() && out[q][a] == band[0];
        assert forall|k: int| 0 <= k < out[q].len() implies gap(
            out[q][a].y,
            #[trigger] out[q][k].y,
        ) <= tolerance by {
            assert(band.contains(out[q][k]));
            let m = choose|m: int| 0 <= m < band.len() && band[m] == out[q][k];
            assert(gap(clustered[r[q]][0].y, clustered[r[q]][m].y) <= tolerance);
        }
        assert(holds_together(out[q], a, tolerance));
    }
}

/// Whether the fragment stands in one of the rows.
pub open spec fn occurs_in_rows(rows: Seq<Seq<Fragment>>, f: Fragment) -> bool {
    exists|r: int, k: int| 0 <= r < rows.len() && 0 <= k < rows[r].len() && #[trigger] rows[r][k] == f
}

/// A clustering holds every fragment that was placed and no other.
pub proof fn lemma_cluster_holds_every_fragment(items: Seq<Fragment>, tolerance: int)
    ensures
        forall|i: int|
            0 <= i < items.len() ==> occurs_in_rows(cluster(items, tolerance), #[trigger] items[i]),
        forall|r: int, k: int|
            0 <= r < cluster(items, tolerance).len() && 0 <= k < cluster(items, tolerance)[r].len()
                ==> items.contains(#[trigger] cluster(items, tolerance)[r][k]),
    decreases items.len(),
{
    if items.len() > 0 {
        let front = items.drop_last();
        let before = cluster(front, tolerance);
        let f = items.last();
        let after = cluster(items, tolerance);
        lemma_cluster_holds_every_fragment(front, tolerance);
        lemma_first_index_is_first(before, row_fits(f.y, tolerance));
        let at = first_index(before, row_fits(f.y, tolerance));
        assert forall|i: int| 0 <= i < items.len() implies occurs_in_rows(
            after,
            #[trigger] items[i],
        ) by {
            if i < front.len() {
                assert(front[i] == items[i]);
                assert(occurs_in_rows(before, front[i]));
                let (r, k) = choose|r: int, k: int|
                    0 <= r < before.len() && 0 <= k < before[r].len() && #[trigger] before[r][k]
                        == front[i];
                assert(after[r][k] == items[i]);
            } else if at < before.len() {
                assert(after[at][before[at].len() as int] == f);
            } else {
                assert(after[before.len() as int][0] == f);
            }
        }
        assert forall|r: int, k: int|
            0 <= r < after.len() && 0 <= k < after[r].len() implies items.contains(
            #[trigger] after[r][k],
        ) by {
            if r < before.len() && k < before[r].len() {
                assert(after[r][k] == before[r][k]);
                assert(front.contains(before[r][k]));
                let i = choose|i: int| 0 <= i < front.len() && front[i] == before[r][k];
                assert(items[i] == after[r][k]);
            } else {
                assert(after[r][k] == f);
                assert(items[items.len() - 1] == f);
            }
        }
    }
}

/// The visual rows hold every fragment that was given and no other.
pub proof fn lemma_group_rows_hold_every_fragment(items: Seq<Fragment>, tolerance: int)
    ensures
        forall|i: int|
            0 <= i < items.len() ==> occurs_in_rows(
                group_rows(items, tolerance),
                #[trigger] items[i],
            ),
        forall|r: int, k: int|
            0 <= r < group_rows(items, tolerance).len() && 0 <= k < group_rows(
                items,
                tolerance,
            )[r].len() ==> items.contains(#[trigger] group_rows(items, tolerance)[r][k]),
{
    let clustered = cluster(items, tolerance);
    let read = each_left_to_right(clustered);
    let keys = tops(read);
    let order = ranking(keys);
    let out = group_rows(items, tolerance);
    lemma_cluster_holds_every_fragment(items, tolerance);
    lemma_ranking_is_permutation(keys);
    assert forall|i: int| 0 <= i < items.len() implies occurs_in_rows(out, #[trigger] items[i]) by {
        assert(occurs_in_rows(clustered, items[i]));
        let (r, k) = choose|r: int, k: int|
            0 <= r < clustered.len() && 0 <= k < clustered[r].len() && #[trigger] clustered[r][k]
                == items[i];
        lemma_left_to_right(clustered[r]);
        assert(read[r].contains(clustered[r][k]));
        let m = choose|m: int| 0 <= m < read[r].len() && read[r][m] == clustered[r][k];
        assert(order.contains(r));
        let q = choose|q: int| 0 <= q < order.len() && order[q] == r;
        assert(out[q][m] == items[i]);
    }
    assert forall|r: int, k: int|
        0 <= r < out.len() && 0 <= k < out[r].len() implies items.contains(
        #[trigger] out[r][k],
    ) by {
        let band = clustered[order[r]];
        assert(out[r] == left_to_right(band));
        lemma_left_to_right(band);
        assert(band.contains(out[r][k]));
        let m = choose|m: int| 0 <= m < band.len() && band[m] == out[r][k];
        assert(items.contains(clustered[order[r]][m]));
    }
}

/// The rows that the items form when they are placed one after another.
fn cluster_items<'a>(items: &[&'a TextItem], y_tolerance: i64) -> (rows: Vec<Vec<&'a TextItem>>)
    ensures
        rows_view(rows@) == cluster(fragments_of_refs(items@), y_tolerance as int),
        forall|r: int| 0 <= r < rows.len() ==> (#[trigger] rows[r]).len() > 0,
{
    let ghost frags = fragments_of_refs(items@);
    let ghost tolerance = y_tolerance as int;
    let mut rows: Vec<Vec<&'a TextItem>> = Vec::new();
    let mut i: usize = 0;
    assert(rows_view(rows@) =~= cluster(frags.take(0), tolerance));
    while i < items.len()
        invariant
            i <= items.len(),
            frags == fragments_of_refs(items@),
            tolerance == y_tolerance as int,
            rows_view(rows@) == cluster(frags.take(i as int), tolerance),
            forall|r: int| 0 <= r < rows.len() ==> (#[trigger] rows[r]).len() > 0,
        decreases items.len() - i,
    {
        let item: &'a TextItem = items[i];
        let ghost before = rows_view(rows@);
        let ghost f = frags[i as int];
        let mut j: usize = 0;
        while j < rows.len() && gap_of(rows[j][0].y, item.y) > y_tolerance as i128
            invariant
                j <= rows.len(),
                before == rows_view(rows@),
                tolerance == y_tolerance as int,
                f == item@,
                forall|r: int| 0 <= r < rows.len() ==> (#[trigger] rows[r]).len() > 0,
                forall|k: int| 0 <= k < j ==> !row_fits(f.y, tolerance)(#[trigger] before[k]),
            decreases rows.len() - j,
        {
            assert(before[j as int][0] == rows[j as int][0]@);
            j += 1;
        }
        proof {
            if j < rows.len() {
                assert(before[j as int][0] == rows[j as int][0]@);
            }
            lemma_first_index(before, row_fits(f.y, tolerance), j as int);
            assert(frags.take(i + 1).drop_last() == frags.take(i as int));
            assert(frags.take(i + 1).last() == f);
        }
        if j < rows.len() {
            let mut row = rows.remove(j);
            row.push(item);
            rows.insert(j, row);
            assert(rows_view(rows@) =~~= place(before, f, tolerance));
        } else {
            let mut row: Vec<&'a TextItem> = Vec::new();
            row.push(item);
            rows.push(row);
            assert(rows_view(rows@) =~~= place(before, f, tolerance));
        }
        i += 1;
    }
    assert(frags.take(items.len() as int) == frags);
    rows
}

/// The row read from left to right.
fn sort_row<'a>(row: &Vec<&'a TextItem>) -> (sorted: Vec<&'a TextItem>)
    ensures
        fragments_of_refs(sorted@) == left_to_right(fragments_of_refs(row@)),
        sorted.len() == row.len(),
{
    let ghost frags = fragments_of_refs(row@);
    let mut keys: Vec<i128> = Vec::new();
    let mut i: usize = 0;
    while i < row.len()
        invariant
            i <= row.len(),
            keys.len() == i,
            forall|k: int| 0 <= k < i ==> keys[k] as int == row[k]@.x,
        decreases row.len() - i,
    {
        keys.push(row[i].x as i128);
        i += 1;
    }
    let sorted = sort_by_keys(row, &keys);
    proof {
        assert(key_ints(keys@) =~= lefts(frags));
        lemma_ranking_is_permutation(lefts(frags));
        assert(fragments_of_refs(sorted@) =~= left_to_right(frags));
    }
    sorted
}

/// A copy of the row.
fn copy_row<'a>(row: &Vec<&'a TextItem>) -> (copy: Vec<&'a TextItem>)
    ensures
        copy@ == row@,
{
    let mut copy: Vec<&'a TextItem> = Vec::new();
    let mut i: usize = 0;
    while i < row.len()
        invariant
            i <= row.len(),
            copy@ == row@.take(i as int),
        decreases row.len() - i,
    {
        copy.push(row[i]);
        i += 1;
    }
    assert(row@.take(row.len() as int) == row@);
    copy
}

/// Groups the items into visual rows. An item joins the first row whose
/// first item lies within `y_tolerance` of it, or starts a new row; each row
/// is then put in order from left to right, and the rows from top to bottom
/// by their first item.
pub fn group_items_by_row<'a>(items: &[&'a TextItem], y_tolerance: i64) -> (rows: Vec<
    Vec<&'a TextItem>,
>)
    ensures
        rows_view(rows@) == group_rows(fragments_of_refs(items@), y_tolerance as int),
        forall|r: int| 0 <= r < rows.len() ==> (#[trigger] rows[r]).len() > 0,
        forall|r: int, i: int, j: int|
            #![trigger rows[r][i], rows[r][j]]
            0 <= r < rows.len() && 0 <= i < j < rows[r].len() ==> rows[r][i].x <= rows[r][j].x,
        forall|q: int, r: int|
            #![trigger rows[q], rows[r]]
            0 <= q < r < rows.len() ==> rows[q][0].y <= rows[r][0].y,
{
    let ghost frags = fragments_of_refs(items@);
    let ghost tolerance = y_tolerance as int;
    let clustered = cluster_items(items, y_tolerance);
    let mut read: Vec<Vec<&'a TextItem>> = Vec::new();
    let mut keys: Vec<i128> = Vec::new();
    let mut i: usize = 0;
    while i < clustered.len()
        invariant
            i <= clustered.len(),
            read.len() == i,
            keys.len() == i,
            forall|r: int| 0 <= r < clustered.len() ==> (#[trigger] clustered[r]).len() > 0,
            forall|r: int|
                0 <= r < i ==> fragments_of_refs((#[trigger] read[r])@) == left_to_right(
                    fragments_of_refs(clustered[r]@),
                ),
            forall|r: int| 0 <= r < i ==> (#[trigger] read[r]).len() > 0,
            forall|r: int| 0 <= r < i ==> (#[trigger] keys[r]) as int == read[r][0]@.y,
        decreases clustered.len() - i,
    {
        let row = sort_row(&clustered[i]);
        keys.push(row[0].y as i128);
        read.push(row);
        i += 1;
    }
    let order = rank(&keys);
    let mut rows: Vec<Vec<&'a TextItem>> = Vec::new();
    let mut n: usize = 0;
    while n < order.len()
        invariant
            n <= order.len(),
            rows.len() == n,
            forall|k: int| 0 <= k < order.len() ==> (#[trigger] order[k]) < read.len(),
            forall|k: int| 0 <= k < n ==> (#[trigger] rows[k])@ == read[order[k] as int]@,
        decreases order.len() - n,
    {
        rows.push(copy_row(&read[order[n]]));
        n += 1;
    }
    proof {
        let spec_read = each_left_to_right(cluster(frags, tolerance));
        assert(rows_view(read@) =~= spec_read);
        assert(key_ints(keys@) =~= tops(spec_read)) by {
            assert forall|r: int| 0 <= r < keys.len() implies key_ints(keys@)[r] == tops(
                spec_read,
            )[r] by {
                assert(spec_read[r] == fragments_of_refs(read[r]@));
                assert(fragments_of_refs(read[r]@)[0] == read[r][0]@);
            }
        }
        lemma_ranking_is_permutation(tops(spec_read));
        assert(rows_view(rows@) =~= group_rows(frags, tolerance)) by {
            assert forall|k: int| 0 <= k < rows.len() implies rows_view(rows@)[k] == group_rows(
                frags,
                tolerance,
            )[k] by {
                assert(positions(order@)[k] == order[k] as int);
                assert(rows[k]@ == read[order[k] as int]@);
                assert(spec_read[order[k] as int] == fragments_of_refs(read[order[k] as int]@));
            }
        }
        lemma_group_rows_are_ordered(frags, tolerance);
        let out = group_rows(frags, tolerance);
        assert forall|r: int| 0 <= r < rows.len() implies (#[trigger] rows[r]).len() > 0 by {
            assert(out[r] == fragments_of_refs(rows[r]@));
            assert(out[r].len() > 0);
        }
        assert forall|r: int, i: int, j: int|
            #![trigger rows[r][i], rows[r][j]]
            0 <= r < rows.len() && 0 <= i < j < rows[r].len() implies rows[r][i].x
            <= rows[r][j].x by {
            assert(out[r] == fragments_of_refs(rows[r]@));
            assert(out[r][i] == rows[r][i]@);
            assert(out[r][j] == rows[r][j]@);
        }
        assert forall|q: int, r: int|
            #![trigger rows[q], rows[r]]
            0 <= q < r < rows.len() implies rows[q][0].y <= rows[r][0].y by {
            assert(out[q] == fragments_of_refs(rows[q]@));
            assert(out[r] == fragments_of_refs(rows[r]@));
            assert(out[q].len() > 0 && out[r].len() > 0);
            assert(out[q][0] == rows[q][0]@);
            assert(out[r][0] == rows[r][0]@);
        }
    }
    rows
}

} // verus!
