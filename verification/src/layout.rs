//! The layout partitioner: a region is divided among a sequence of weighted
//! entities by recursive bisection, the axis alternating from one level to
//! the next.

use vstd::prelude::*;
use crate::entity::{
    all_positive, entity_weights, lemma_sum_positive, lemma_sum_split, magnitudes, range_weight,
    sum, weights_of, WeightedEntity,
};
use crate::geometry::{lemma_first_share_bounds, lemma_split_tiles, Axis, Rectangle, Region};
use crate::proportion::{lemma_shares_bounds, shares, split_percentages};

verus! {

/// The model of a placement: the position of an entity in the input sequence
/// and the region assigned to it.
pub struct Tile {
    pub index: int,
    pub region: Region,
}

/// The rectangle assigned to the entity at `index` of the input sequence.
#[derive(Clone, Copy, Debug, PartialEq, Eq, Structural)]
pub struct Placement {
    pub index: usize,
    pub region: Rectangle,
}

impl View for Placement {
    type V = Tile;

    open spec fn view(&self) -> Tile {
        Tile { index: self.index as int, region: self.region@ }
    }
}

/// The models of a sequence of placements.
pub open spec fn tiles_of(placements: Seq<Placement>) -> Seq<Tile> {
    Seq::new(placements.len(), |i: int| placements[i]@)
}

/// The number of entities that go to the first of the two groups into which
/// `len` entities are cut: half of them, rounded up.
pub open spec fn first_group_len(len: nat) -> nat {
    (len + 1) / 2
}

/// What is left of `total` for the second group once the first group has
/// taken `first`.
pub open spec fn remaining_weight(total: nat, first: nat) -> nat {
    if total >= first {
        (total - first) as nat
    } else {
        0
    }
}

/// The tiles that the partitioner assigns within `region` to entities with
/// the given `weights`, which stand at positions `offset`, `offset + 1`, ...
/// of the input sequence, when `total` is taken to be their total weight.
///
/// Nothing is emitted for no entities or a total of 0. A single entity
/// receives the whole region. Otherwise the entities are cut into a first
/// group of `first_group_len` entities and a second group of the others, the
/// region is divided along `axis` by the shares of the two groups, and each
/// group is laid out in its part along the other axis; the tiles of the first
/// group precede those of the second.
pub open spec fn partition(
    region: Region,
    weights: Seq<nat>,
    offset: int,
    total: nat,
    axis: Axis,
) -> Seq<Tile>
    decreases weights.len(),
{
    if weights.len() == 0 || total == 0 {
        Seq::empty()
    } else if weights.len() == 1 {
        seq![Tile { index: offset, region }]
    } else {
        let mid = first_group_len(weights.len()) as int;
        let first = weights.subrange(0, mid);
        let second = weights.subrange(mid, weights.len() as int);
        let first_weight = sum(first);
        let percent = shares(first_weight, total).0 as int;
        partition(
            region.split_first(axis, percent),
            first,
            offset,
            first_weight,
            axis.orthogonal(),
        ) + partition(
            region.split_second(axis, percent),
            second,
            offset + mid,
            remaining_weight(total, first_weight),
            axis.orthogonal(),
        )
    }
}

/// The number of tiles that contain the cell `(cx, cy)`.
pub open spec fn coverage(tiles: Seq<Tile>, cx: int, cy: int) -> nat
    decreases tiles.len(),
{
    if tiles.len() == 0 {
        0
    } else {
        coverage(tiles.drop_last(), cx, cy) + if tiles.last().region.contains(cx, cy) {
            1nat
        } else {
            0nat
        }
    }
}

/// Divides `region` among `entities`, which the caller has sorted by
/// descending weight, and returns one placement for each entity that receives
/// a rectangle, in the order of the entities. `total_weight` is the sum of the
/// weights of the entities.
///
/// No entities, or a total weight of 0, give no placements. A single entity
/// receives `region` itself, whatever its weight.
pub fn layout(
    region: Rectangle,
    entities: &Vec<WeightedEntity>,
    total_weight: u128,
    axis: Axis,
) -> (placements: Vec<Placement>)
    ensures
        tiles_of(placements@) == partition(
            region@,
            weights_of(entities@),
            0,
            total_weight as nat,
            axis,
        ),
        entities.len() == 0 || total_weight == 0 ==> placements@.len() == 0,
        entities.len() == 1 && total_weight != 0 ==> placements@ == seq![
            (Placement { index: 0, region }),
        ],
        entities.len() > 0 && total_weight != 0 && entities@[0].weight > 0 ==> placements@.len()
            > 0,
{
    let weights = entity_weights(entities);
    assert(entities.len() > 0 ==> weights_of(entities@)[0] == entities@[0].weight);
    layout_weights(region, &weights, total_weight, axis)
}

/// Divides `region` among entities of the given `weights`, as `layout` does
/// among entities.
pub fn layout_weights(
    region: Rectangle,
    weights: &Vec<u64>,
    total_weight: u128,
    axis: Axis,
) -> (placements: Vec<Placement>)
    ensures
        tiles_of(placements@) == partition(
            region@,
            magnitudes(weights@),
            0,
            total_weight as nat,
            axis,
        ),
        weights.len() == 0 || total_weight == 0 ==> placements@.len() == 0,
        weights.len() == 1 && total_weight != 0 ==> placements@ == seq![
            (Placement { index: 0, region }),
        ],
        weights.len() > 0 && total_weight != 0 && weights@[0] > 0 ==> placements@.len() > 0,
{
    let mut placements: Vec<Placement> = Vec::new();
    assert(magnitudes(weights@).subrange(0, weights.len() as int) =~= magnitudes(weights@));
    assert(tiles_of(placements@) =~= Seq::<Tile>::empty());
    place(region, weights, 0, weights.len(), total_weight, axis, &mut placements);
    proof {
        let tiles = partition(region@, magnitudes(weights@), 0, total_weight as nat, axis);
        assert(tiles_of(placements@) =~= tiles);
        assert(tiles_of(placements@).len() == placements@.len());
        if weights.len() > 0 && total_weight != 0 && weights@[0] > 0 {
            lemma_partition_nonempty(
                region@,
                magnitudes(weights@),
                0,
                total_weight as nat,
                axis,
            );
        }
        if weights.len() == 1 && total_weight != 0 {
            assert(tiles.len() == 1);
            assert(tiles_of(placements@)[0] == placements@[0]@);
            assert(placements@[0].region@ == region@);
            Rectangle::lemma_view_injective(placements@[0].region, region);
            assert(placements@ =~= seq![(Placement { index: 0, region })]);
        }
    }
    placements
}

/// Appends to `out` the placements of the entities from position `lo` up to
/// position `hi` within `region`.
fn place(
    region: Rectangle,
    weights: &Vec<u64>,
    lo: usize,
    hi: usize,
    total: u128,
    axis: Axis,
    out: &mut Vec<Placement>,
)
    requires
        lo <= hi <= weights.len(),
    ensures
        tiles_of(final(out)@) == tiles_of(old(out)@) + partition(
            region@,
            magnitudes(weights@).subrange(lo as int, hi as int),
            lo as int,
            total as nat,
            axis,
        ),
    decreases hi - lo,
{
    let ghost group = magnitudes(weights@).subrange(lo as int, hi as int);
    let ghost before = tiles_of(out@);
    let len: usize = hi - lo;
    if len == 0 || total == 0 {
        assert(before + Seq::<Tile>::empty() =~= before);
        return ;
    }
    if len == 1 {
        out.push(Placement { index: lo, region });
        assert(tiles_of(out@) =~= before + seq![Tile { index: lo as int, region: region@ }]);
        return ;
    }
    let mid: usize = lo + (len - len / 2);
    let first_weight: u128 = range_weight(weights, lo, mid);
    let second_weight: u128 = if total >= first_weight {
        total - first_weight
    } else {
        0
    };
    let (percent, _) = split_percentages(first_weight, total);
    let (first_region, second_region) = region.split(axis, percent);
    proof {
        assert(mid - lo == first_group_len(group.len()));
        assert(group.subrange(0, mid - lo) =~= magnitudes(weights@).subrange(
            lo as int,
            mid as int,
        ));
        assert(group.subrange(mid - lo, group.len() as int) =~= magnitudes(weights@).subrange(
            mid as int,
            hi as int,
        ));
    }
    place(first_region, weights, lo, mid, first_weight, axis.orthogonal(), out);
    let ghost between = tiles_of(out@);
    place(second_region, weights, mid, hi, second_weight, axis.orthogonal(), out);
    proof {
        let first_tiles = partition(
            first_region@,
            group.subrange(0, mid - lo),
            lo as int,
            first_weight as nat,
            axis.orthogonal(),
        );
        let second_tiles = partition(
            second_region@,
            group.subrange(mid - lo, group.len() as int),
            mid as int,
            second_weight as nat,
            axis.orthogonal(),
        );
        assert(between == before + first_tiles);
        assert(tiles_of(out@) == between + second_tiles);
        assert((before + first_tiles) + second_tiles =~= before + (first_tiles + second_tiles));
    }
}

/// The coverage of a concatenation is the sum of the coverages.
pub proof fn lemma_coverage_concat(a: Seq<Tile>, b: Seq<Tile>, cx: int, cy: int)
    ensures
        coverage(a + b, cx, cy) == coverage(a, cx, cy) + coverage(b, cx, cy),
    decreases b.len(),
{
    if b.len() == 0 {
        assert(a + b =~= a);
    } else {
        assert((a + b).drop_last() =~= a + b.drop_last());
        lemma_coverage_concat(a, b.drop_last(), cx, cy);
    }
}

/// A cell that two different tiles contain is covered at least twice, and a
/// cell that one tile contains at least once.
pub proof fn lemma_coverage_counts(tiles: Seq<Tile>, j: int, k: int, cx: int, cy: int)
    requires
        0 <= j <= k < tiles.len(),
        tiles[j].region.contains(cx, cy),
        tiles[k].region.contains(cx, cy),
    ensures
        coverage(tiles, cx, cy) >= 1,
        j < k ==> coverage(tiles, cx, cy) >= 2,
    decreases tiles.len(),
{
    if k < tiles.len() - 1 {
        lemma_coverage_counts(tiles.drop_last(), j, k, cx, cy);
    } else if j < k {
        lemma_coverage_counts(tiles.drop_last(), j, j, cx, cy);
    }
}

/// A cell that is covered lies in one of the tiles.
pub proof fn lemma_coverage_witness(tiles: Seq<Tile>, cx: int, cy: int) -> (k: int)
    requires
        coverage(tiles, cx, cy) >= 1,
    ensures
        0 <= k < tiles.len(),
        tiles[k].region.contains(cx, cy),
    decreases tiles.len(),
{
    if tiles.last().region.contains(cx, cy) {
        tiles.len() - 1
    } else {
        lemma_coverage_witness(tiles.drop_last(), cx, cy)
    }
}

/// Cutting positive weights whose sum is `total` into the two groups of the
/// partitioner leaves two non-empty groups of positive weights, and the weight
/// that remains for the second group is the sum of its weights.
proof fn lemma_groups(weights: Seq<nat>, total: nat)
    requires
        weights.len() >= 2,
        all_positive(weights),
        total == sum(weights),
    ensures
        0 < first_group_len(weights.len()) < weights.len(),
        all_positive(weights.subrange(0, first_group_len(weights.len()) as int)),
        all_positive(
            weights.subrange(first_group_len(weights.len()) as int, weights.len() as int),
        ),
        remaining_weight(
            total,
            sum(weights.subrange(0, first_group_len(weights.len()) as int)),
        ) == sum(weights.subrange(first_group_len(weights.len()) as int, weights.len() as int)),
        total > 0,
{
    let mid = first_group_len(weights.len()) as int;
    lemma_sum_split(weights, mid);
    lemma_sum_positive(weights);
    let first = weights.subrange(0, mid);
    let second = weights.subrange(mid, weights.len() as int);
    assert forall|i: int| 0 <= i < first.len() implies first[i] > 0 by {
        assert(first[i] == weights[i]);
    }
    assert forall|i: int| 0 <= i < second.len() implies second[i] > 0 by {
        assert(second[i] == weights[mid + i]);
    }
}

/// Count preservation: where every weight is positive and `total` is their
/// sum, the partitioner emits exactly one tile for each entity, in the order
/// of the entities.
pub proof fn lemma_partition_one_tile_each(
    region: Region,
    weights: Seq<nat>,
    offset: int,
    total: nat,
    axis: Axis,
)
    requires
        all_positive(weights),
        total == sum(weights),
    ensures
        partition(region, weights, offset, total, axis).len() == weights.len(),
        forall|k: int|
            0 <= k < weights.len() ==> (#[trigger] partition(
                region,
                weights,
                offset,
                total,
                axis,
            )[k]).index == offset + k,
    decreases weights.len(),
{
    if weights.len() == 1 {
        lemma_sum_positive(weights);
    } else if weights.len() >= 2 {
        lemma_groups(weights, total);
        let mid = first_group_len(weights.len()) as int;
        let first = weights.subrange(0, mid);
        let second = weights.subrange(mid, weights.len() as int);
        let percent = shares(sum(first), total).0 as int;
        lemma_partition_one_tile_each(
            region.split_first(axis, percent),
            first,
            offset,
            sum(first),
            axis.orthogonal(),
        );
        lemma_partition_one_tile_each(
            region.split_second(axis, percent),
            second,
            offset + mid,
            sum(second),
            axis.orthogonal(),
        );
    }
}

/// Where every weight is positive and `total` is their sum, every cell of the
/// region is covered by exactly one tile of the partitioner, and every other
/// cell by none.
pub proof fn lemma_partition_coverage(
    region: Region,
    weights: Seq<nat>,
    offset: int,
    total: nat,
    axis: Axis,
    cx: int,
    cy: int,
)
    requires
        0 <= region.width,
        0 <= region.height,
        weights.len() > 0,
        all_positive(weights),
        total == sum(weights),
    ensures
        coverage(partition(region, weights, offset, total, axis), cx, cy) == if region.contains(
            cx,
            cy,
        ) {
            1nat
        } else {
            0nat
        },
    decreases weights.len(),
{
    if weights.len() == 1 {
        lemma_sum_positive(weights);
        let tiles = seq![Tile { index: offset, region }];
        assert(tiles.drop_last() =~= Seq::<Tile>::empty());
        assert(coverage(tiles.drop_last(), cx, cy) == 0);
    } else {
        lemma_groups(weights, total);
        let mid = first_group_len(weights.len()) as int;
        let first = weights.subrange(0, mid);
        let second = weights.subrange(mid, weights.len() as int);
        let percent = shares(sum(first), total).0 as int;
        let first_region = region.split_first(axis, percent);
        let second_region = region.split_second(axis, percent);
        lemma_shares_bounds(sum(first), total);
        lemma_first_share_bounds(region.width, percent);
        lemma_first_share_bounds(region.height, percent);
        lemma_split_tiles(region, axis, percent, cx, cy);
        lemma_partition_coverage(
            first_region,
            first,
            offset,
            sum(first),
            axis.orthogonal(),
            cx,
            cy,
        );
        lemma_partition_coverage(
            second_region,
            second,
            offset + mid,
            sum(second),
            axis.orthogonal(),
            cx,
            cy,
        );
        lemma_coverage_concat(
            partition(first_region, first, offset, sum(first), axis.orthogonal()),
            partition(second_region, second, offset + mid, sum(second), axis.orthogonal()),
            cx,
            cy,
        );
    }
}

/// Whether the tiles fit into `region`: every tile lies within the region,
/// and no two tiles share a cell.
pub open spec fn tiles_fit(tiles: Seq<Tile>, region: Region) -> bool {
    &&& forall|k: int, cx: int, cy: int|
        0 <= k < tiles.len() && (#[trigger] tiles[k].region.contains(cx, cy))
            ==> region.contains(cx, cy)
    &&& forall|j: int, k: int, cx: int, cy: int|
        0 <= j < k < tiles.len() && (#[trigger] tiles[j].region.contains(cx, cy)) ==> !(
        #[trigger] tiles[k].region.contains(cx, cy))
}

/// Whether the tiles cover `region` exactly: they fit into the region, and
/// every cell of the region lies in a tile.
pub open spec fn tiles_exactly(tiles: Seq<Tile>, region: Region) -> bool {
    &&& tiles_fit(tiles, region)
    &&& forall|cx: int, cy: int| #[trigger]
        region.contains(cx, cy) ==> exists|k: int|
            0 <= k < tiles.len() && (#[trigger] tiles[k]).region.contains(cx, cy)
}

/// Tiles that cover no cell of the region more than once and no other cell
/// at all fit into the region.
pub proof fn lemma_coverage_tiles_fit(tiles: Seq<Tile>, region: Region)
    requires
        forall|cx: int, cy: int| #[trigger]
            coverage(tiles, cx, cy) <= if region.contains(cx, cy) {
                1nat
            } else {
                0nat
            },
    ensures
        tiles_fit(tiles, region),
{
    assert forall|k: int, cx: int, cy: int|
        0 <= k < tiles.len() && (#[trigger] tiles[k].region.contains(
            cx,
            cy,
        )) implies region.contains(cx, cy) by {
        assert(coverage(tiles, cx, cy) <= 1);
        lemma_coverage_counts(tiles, k, k, cx, cy);
    }
    assert forall|j: int, k: int, cx: int, cy: int|
        0 <= j < k < tiles.len() && (#[trigger] tiles[j].region.contains(cx, cy)) implies !(
        #[trigger] tiles[k].region.contains(cx, cy)) by {
        if tiles[k].region.contains(cx, cy) {
            assert(coverage(tiles, cx, cy) <= 1);
            lemma_coverage_counts(tiles, j, k, cx, cy);
        }
    }
}

/// Tiles that cover every cell of the region once and every other cell not at
/// all cover the region exactly.
pub proof fn lemma_coverage_tiles_exactly(tiles: Seq<Tile>, region: Region)
    requires
        forall|cx: int, cy: int| #[trigger]
            coverage(tiles, cx, cy) == if region.contains(cx, cy) {
                1nat
            } else {
                0nat
            },
    ensures
        tiles_exactly(tiles, region),
{
    lemma_coverage_tiles_fit(tiles, region);
    assert forall|cx: int, cy: int| #[trigger] region.contains(cx, cy) implies exists|k: int|
        0 <= k < tiles.len() && (#[trigger] tiles[k]).region.contains(cx, cy) by {
        assert(coverage(tiles, cx, cy) == 1);
        let k = lemma_coverage_witness(tiles, cx, cy);
        assert(tiles[k].region.contains(cx, cy));
    }
}

/// Whatever the weights and the total, no cell of the region is covered by
/// more than one tile of the partitioner, and no other cell by any.
pub proof fn lemma_partition_coverage_at_most(
    region: Region,
    weights: Seq<nat>,
    offset: int,
    total: nat,
    axis: Axis,
    cx: int,
    cy: int,
)
    requires
        0 <= region.width,
        0 <= region.height,
    ensures
        coverage(partition(region, weights, offset, total, axis), cx, cy) <= if region.contains(
            cx,
            cy,
        ) {
            1nat
        } else {
            0nat
        },
    decreases weights.len(),
{
    if weights.len() == 0 || total == 0 {
    } else if weights.len() == 1 {
        let tiles = seq![Tile { index: offset, region }];
        assert(tiles.drop_last() =~= Seq::<Tile>::empty());
        assert(coverage(tiles.drop_last(), cx, cy) == 0);
    } else {
        let mid = first_group_len(weights.len()) as int;
        let first = weights.subrange(0, mid);
        let second = weights.subrange(mid, weights.len() as int);
        let percent = shares(sum(first), total).0 as int;
        let first_region = region.split_first(axis, percent);
        let second_region = region.split_second(axis, percent);
        let rest = remaining_weight(total, sum(first));
        lemma_shares_bounds(sum(first), total);
        lemma_first_share_bounds(region.width, percent);
        lemma_first_share_bounds(region.height, percent);
        lemma_split_tiles(region, axis, percent, cx, cy);
        lemma_partition_coverage_at_most(
            first_region,
            first,
            offset,
            sum(first),
            axis.orthogonal(),
            cx,
            cy,
        );
        lemma_partition_coverage_at_most(
            second_region,
            second,
            offset + mid,
            rest,
            axis.orthogonal(),
            cx,
            cy,
        );
        lemma_coverage_concat(
            partition(first_region, first, offset, sum(first), axis.orthogonal()),
            partition(second_region, second, offset + mid, rest, axis.orthogonal()),
            cx,
            cy,
        );
    }
}

/// Containment and separation for `layout`, whatever the weights and the
/// total: every rectangle that is handed out lies within the region, and no
/// two of them share a cell.
pub proof fn lemma_layout_fits(region: Rectangle, weights: Seq<nat>, total: nat, axis: Axis)
    ensures
        tiles_fit(partition(region@, weights, 0, total, axis), region@),
{
    region.lemma_view_bounds();
    let tiles = partition(region@, weights, 0, total, axis);
    assert forall|cx: int, cy: int| #[trigger]
        coverage(tiles, cx, cy) <= if region@.contains(cx, cy) {
            1nat
        } else {
            0nat
        } by {
        lemma_partition_coverage_at_most(region@, weights, 0, total, axis, cx, cy);
    }
    lemma_coverage_tiles_fit(tiles, region@);
}

/// Where the first entity has a positive weight and the total is not 0, the
/// partitioner emits at least one tile, and the first tile is that of the
/// first entity.
pub proof fn lemma_partition_nonempty(
    region: Region,
    weights: Seq<nat>,
    offset: int,
    total: nat,
    axis: Axis,
)
    requires
        weights.len() > 0,
        weights[0] > 0,
        total > 0,
    ensures
        partition(region, weights, offset, total, axis).len() > 0,
        partition(region, weights, offset, total, axis)[0].index == offset,
    decreases weights.len(),
{
    if weights.len() >= 2 {
        let mid = first_group_len(weights.len()) as int;
        let first = weights.subrange(0, mid);
        let percent = shares(sum(first), total).0 as int;
        lemma_sum_split(first, 1);
        assert(first.subrange(0, 1).drop_last() =~= Seq::<nat>::empty());
        assert(sum(first.subrange(0, 1)) == first[0]) by {
            assert(sum(first.subrange(0, 1).drop_last()) == 0);
            assert(first.subrange(0, 1).last() == first[0]);
        }
        assert(sum(first) > 0);
        lemma_partition_nonempty(
            region.split_first(axis, percent),
            first,
            offset,
            sum(first),
            axis.orthogonal(),
        );
    }
}

/// Tiling completeness: for a region and a non-empty sequence of positive
/// weights, the tiles of the layout cover the region exactly. Every cell of
/// the region lies in a tile, every tile lies within the region, and no two
/// tiles share a cell.
pub proof fn lemma_layout_tiles_region(region: Region, weights: Seq<nat>, axis: Axis)
    requires
        0 <= region.width,
        0 <= region.height,
        weights.len() > 0,
        all_positive(weights),
    ensures
        tiles_exactly(partition(region, weights, 0, sum(weights), axis), region),
{
    let tiles = partition(region, weights, 0, sum(weights), axis);
    assert forall|cx: int, cy: int| #[trigger]
        coverage(tiles, cx, cy) == if region.contains(cx, cy) {
            1nat
        } else {
            0nat
        } by {
        lemma_partition_coverage(region, weights, 0, sum(weights), axis, cx, cy);
    }
    lemma_coverage_tiles_exactly(tiles, region);
}

/// Tiling completeness and count preservation for `layout`: a rectangle that
/// is divided among at least one entity, all of positive weight, with the sum
/// of their weights as the total, is covered exactly by as many tiles as
/// there are entities, the tile at each position that of the entity there.
pub proof fn lemma_layout_complete(region: Rectangle, entities: Seq<WeightedEntity>, axis: Axis)
    requires
        entities.len() > 0,
        all_positive(weights_of(entities)),
    ensures
        tiles_exactly(
            partition(region@, weights_of(entities), 0, sum(weights_of(entities)), axis),
            region@,
        ),
        partition(region@, weights_of(entities), 0, sum(weights_of(entities)), axis).len()
            == entities.len(),
        forall|k: int|
            0 <= k < entities.len() ==> (#[trigger] partition(
                region@,
                weights_of(entities),
                0,
                sum(weights_of(entities)),
                axis,
            )[k]).index == k,
{
    let weights = weights_of(entities);
    region.lemma_view_bounds();
    lemma_layout_tiles_region(region@, weights, axis);
    lemma_partition_one_tile_each(region@, weights, 0, sum(weights), axis);
}

/// Whatever the weights and the total, the partitioner emits at most one tile
/// for each entity, the tiles name positions of the given entities, and they
/// do so in ascending order.
pub proof fn lemma_partition_indices(
    region: Region,
    weights: Seq<nat>,
    offset: int,
    total: nat,
    axis: Axis,
)
    ensures
        partition(region, weights, offset, total, axis).len() <= weights.len(),
        forall|k: int|
            0 <= k < partition(region, weights, offset, total, axis).len() ==> offset <= (
            #[trigger] partition(region, weights, offset, total, axis)[k]).index < offset
                + weights.len(),
        forall|j: int, k: int|
            0 <= j < k < partition(region, weights, offset, total, axis).len() ==> (
            #[trigger] partition(region, weights, offset, total, axis)[j]).index < (
            #[trigger] partition(region, weights, offset, total, axis)[k]).index,
    decreases weights.len(),
{
    if weights.len() >= 2 && total != 0 {
        let mid = first_group_len(weights.len()) as int;
        let first = weights.subrange(0, mid);
        let second = weights.subrange(mid, weights.len() as int);
        let percent = shares(sum(first), total).0 as int;
        lemma_partition_indices(
            region.split_first(axis, percent),
            first,
            offset,
            sum(first),
            axis.orthogonal(),
        );
        lemma_partition_indices(
            region.split_second(axis, percent),
            second,
            offset + mid,
            remaining_weight(total, sum(first)),
            axis.orthogonal(),
        );
    }
}

} // verus!
