//! The heatmap of a set of entities: each entity a coloured block, sized by
//! its weight and coloured by its change.

use vstd::prelude::*;
use vstd::string::StringExecFns;
use crate::entity::{
    all_positive, entity_weights, lemma_sum_has_positive, magnitudes, sum, sum_weights,
    weights_of, WeightedEntity,
};
use crate::change::{Change, ChangeView};
use crate::geometry::{Axis, Rectangle, Region};
use crate::gradient::{color_for, color_spec, Rgb};
use crate::text::{decimal, digit, digit_spec, push_decimal};
use crate::layout::{
    layout_weights, lemma_layout_fits, lemma_layout_tiles_region, lemma_partition_indices,
    lemma_partition_nonempty, lemma_partition_one_tile_each, partition, tiles_exactly, tiles_fit,
    tiles_of, Tile,
};
use crate::ranking::{
    is_ranking, lemma_ranked_descending, lemma_ranked_sum, lemma_ranking_exists, positions,
    rank_by_weight, ranked, ranking,
};

verus! {

/// The model of a block of the heatmap.
pub struct BlockView {
    pub index: int,
    pub region: Region,
    pub color: Rgb,
}

/// One block of the heatmap: the rectangle and the fill colour of the entity
/// at `index` of the sequence that was arranged.
#[derive(Clone, Copy, Debug, PartialEq, Eq, Structural)]
pub struct AssetBlock {
    pub index: usize,
    pub region: Rectangle,
    pub color: Rgb,
}

impl View for AssetBlock {
    type V = BlockView;

    open spec fn view(&self) -> BlockView {
        BlockView { index: self.index as int, region: self.region@, color: self.color }
    }
}

/// The models of a sequence of blocks.
pub open spec fn block_views(blocks: Seq<AssetBlock>) -> Seq<BlockView> {
    Seq::new(blocks.len(), |i: int| blocks[i]@)
}

/// The tiles that a sequence of blocks occupies.
pub open spec fn block_tiles(blocks: Seq<BlockView>) -> Seq<Tile> {
    Seq::new(blocks.len(), |i: int| Tile { index: blocks[i].index, region: blocks[i].region })
}

/// The heatmap of a set of assets.
pub struct AssetHeatmapWidget {}

impl AssetHeatmapWidget {
    /// The tiles of the heatmap of `entities` within `area`: the entities are
    /// ranked by weight, and the area is divided among them in that order,
    /// side by side at the first level. The index of a tile is a position of
    /// the ranking.
    pub open spec fn ranked_tiles(area: Region, entities: Seq<WeightedEntity>) -> Seq<Tile> {
        let weights = weights_of(entities);
        partition(area, ranked(weights, ranking(weights)), 0, sum(weights), Axis::Horizontal)
    }

    /// The blocks of the heatmap of `entities` within `area`: one for each
    /// tile, with the position of the entity in `entities` and the colour for
    /// its change.
    pub open spec fn arrangement(area: Region, entities: Seq<WeightedEntity>) -> Seq<BlockView> {
        let order = ranking(weights_of(entities));
        let tiles = Self::ranked_tiles(area, entities);
        Seq::new(
            tiles.len(),
            |k: int|
                BlockView {
                    index: order[tiles[k].index],
                    region: tiles[k].region,
                    color: color_spec(entities[order[tiles[k].index]].change@),
                },
        )
    }

    /// The blocks to paint for `entities` within `area`. Where there are no
    /// entities, or their weights are all 0, there are no blocks, and the
    /// caller shows that there is nothing to display.
    pub fn arrange(&self, area: Rectangle, entities: &Vec<WeightedEntity>) -> (blocks: Vec<
        AssetBlock,
    >)
        ensures
            block_views(blocks@) == Self::arrangement(area@, entities@),
            entities.len() == 0 || sum(weights_of(entities@)) == 0 ==> blocks@.len() == 0,
            entities.len() > 0 && sum(weights_of(entities@)) > 0 ==> blocks@.len() > 0,
            forall|k: int| 0 <= k < blocks@.len() ==> (#[trigger] blocks@[k]).index < entities.len(),
    {
        let weights = entity_weights(entities);
        let total: u128 = sum_weights(&weights);
        let order = rank_by_weight(&weights);
        let ghost w = weights_of(entities@);
        let ghost ranks = positions(order@);
        let mut sorted: Vec<u64> = Vec::new();
        let mut i: usize = 0;
        while i < order.len()
            invariant
                i <= order.len(),
                order@.len() == weights@.len(),
                ranks == positions(order@),
                w == magnitudes(weights@),
                is_ranking(w, ranks),
                sorted@.len() == i,
                forall|k: int| 0 <= k < i ==> sorted@[k] == weights@[order@[k] as int],
            decreases order.len() - i,
        {
            assert(0 <= ranks[i as int] < w.len());
            sorted.push(weights[order[i]]);
            i = i + 1;
        }
        proof {
            assert forall|k: int| 0 <= k < ranks.len() implies magnitudes(sorted@)[k]
                == w[ranks[k]] by {
                assert(0 <= ranks[k] < w.len());
            }
            assert(magnitudes(sorted@) =~= ranked(w, ranks));
        }
        let placements = layout_weights(area, &sorted, total, Axis::Horizontal);
        let ghost tiles = Self::ranked_tiles(area@, entities@);
        proof {
            assert(tiles_of(placements@) == tiles);
            lemma_partition_indices(
                area@,
                ranked(w, ranks),
                0,
                total as nat,
                Axis::Horizontal,
            );
        }
        let mut blocks: Vec<AssetBlock> = Vec::new();
        let mut k: usize = 0;
        while k < placements.len()
            invariant
                k <= placements.len(),
                order@.len() == entities.len(),
                ranks == positions(order@),
                is_ranking(w, ranks),
                w == weights_of(entities@),
                ranks == ranking(w),
                tiles == Self::ranked_tiles(area@, entities@),
                tiles_of(placements@) == tiles,
                forall|j: int| 0 <= j < tiles.len() ==> 0 <= (#[trigger] tiles[j]).index < ranks.len(),
                blocks@.len() == k,
                forall|j: int|
                    0 <= j < k ==> (#[trigger] blocks@[j])@ == Self::arrangement(
                        area@,
                        entities@,
                    )[j],
                forall|j: int| 0 <= j < k ==> (#[trigger] blocks@[j]).index < entities.len(),
            decreases placements.len() - k,
        {
            let placement = placements[k];
            proof {
                assert(tiles_of(placements@)[k as int] == placement@);
                assert(0 <= tiles[k as int].index < ranks.len());
                assert(0 <= ranks[placement.index as int] < w.len());
            }
            let index: usize = order[placement.index];
            blocks.push(
                AssetBlock {
                    index,
                    region: placement.region,
                    color: color_for(entities[index].change),
                },
            );
            k = k + 1;
        }
        proof {
            assert(block_views(blocks@) =~= Self::arrangement(area@, entities@));
            if entities.len() != 0 && sum(w) == 0 {
                assert(total == 0);
            }
            if entities.len() > 0 && sum(w) > 0 {
                Self::lemma_arrangement_nonempty(area@, entities@);
            }
        }
        blocks
    }

    /// The sign that a title shows before the size of a change: `+` for a
    /// gain, `-` for a loss, nothing for no change.
    pub open spec fn sign_spec(change: ChangeView) -> Seq<char> {
        if change.is_gain() {
            seq!['+']
        } else if change.is_loss() {
            seq!['-']
        } else {
            Seq::<char>::empty()
        }
    }

    /// The title of the block of an entity: its label and its signed change
    /// in percent with two decimals, as in ` AAPL (+3.42%) `, ` AAPL (-0.07%) `
    /// or ` AAPL (0.00%) `. The sign is that of the change itself, also where
    /// its size rounds to `0.00`.
    pub open spec fn title_spec(label: Seq<char>, change: ChangeView) -> Seq<char> {
        let size = change.hundredths();
        seq![' '] + label + seq![' ', '('] + Self::sign_spec(change) + decimal(size / 100) + seq![
            '.',
            digit_spec(size / 10 % 10),
            digit_spec(size % 10),
            '%',
            ')',
            ' ',
        ]
    }

    /// The title of the block of an entity.
    pub fn title(&self, label: &str, change: Change) -> (text: String)
        ensures
            text@ == Self::title_spec(label@, change@),
    {
        let size: u128 = change.hundredths();
        let mut text: String = " ".to_owned();
        text.append(label);
        text.push(' ');
        text.push('(');
        if change.is_gain() {
            text.push('+');
        } else if change.is_loss() {
            text.push('-');
        }
        let ghost head = text@;
        push_decimal(&mut text, size / 100);
        text.push('.');
        text.push(digit((size / 10 % 10) as u8));
        text.push(digit((size % 10) as u8));
        text.push('%');
        text.push(')');
        text.push(' ');
        proof {
            reveal_strlit(" ");
            assert(" "@ =~= seq![' ']);
            assert(head =~= seq![' '] + label@ + seq![' ', '('] + Self::sign_spec(change@));
            assert(text@ =~= Self::title_spec(label@, change@));
        }
        text
    }

    /// The blocks occupy the regions of the ranked tiles, one for one.
    pub proof fn lemma_blocks_follow_tiles(area: Region, entities: Seq<WeightedEntity>)
        ensures
            block_tiles(Self::arrangement(area, entities)).len() == Self::ranked_tiles(
                area,
                entities,
            ).len(),
            forall|k: int|
                0 <= k < Self::ranked_tiles(area, entities).len() ==> (#[trigger] block_tiles(
                    Self::arrangement(area, entities),
                )[k]).region == Self::ranked_tiles(area, entities)[k].region,
    {
    }

    /// Where there is an entity and the weights are not all 0, the heatmap
    /// has a block: the caller has something to paint.
    pub proof fn lemma_arrangement_nonempty(area: Region, entities: Seq<WeightedEntity>)
        requires
            entities.len() > 0,
            sum(weights_of(entities)) > 0,
        ensures
            Self::arrangement(area, entities).len() > 0,
    {
        let w = weights_of(entities);
        let order = ranking(w);
        lemma_ranking_exists(w);
        let at = lemma_sum_has_positive(w);
        assert(order.contains(at));
        let k = choose|k: int| 0 <= k < order.len() && order[k] == at;
        lemma_ranked_descending(w, order);
        assert(ranked(w, order)[0] >= ranked(w, order)[k]);
        assert(0 <= order[0] < w.len());
        lemma_partition_nonempty(area, ranked(w, order), 0, sum(w), Axis::Horizontal);
    }

    /// Containment and separation for the heatmap, whatever the weights:
    /// every block lies within the area, and no two blocks share a cell.
    pub proof fn lemma_arrangement_fits(area: Rectangle, entities: Seq<WeightedEntity>)
        ensures
            tiles_fit(block_tiles(Self::arrangement(area@, entities)), area@),
    {
        let w = weights_of(entities);
        lemma_layout_fits(area, ranked(w, ranking(w)), sum(w), Axis::Horizontal);
        Self::lemma_blocks_follow_tiles(area@, entities);
        let tiles = Self::ranked_tiles(area@, entities);
        let blocks = block_tiles(Self::arrangement(area@, entities));
        assert forall|k: int, cx: int, cy: int|
            0 <= k < blocks.len() && (#[trigger] blocks[k].region.contains(
                cx,
                cy,
            )) implies area@.contains(cx, cy) by {
            assert(tiles[k].region.contains(cx, cy));
        }
        assert forall|j: int, k: int, cx: int, cy: int|
            0 <= j < k < blocks.len() && (#[trigger] blocks[j].region.contains(cx, cy)) implies !(
            #[trigger] blocks[k].region.contains(cx, cy)) by {
            assert(tiles[j].region.contains(cx, cy));
            if blocks[k].region.contains(cx, cy) {
                assert(tiles[k].region.contains(cx, cy));
            }
        }
    }

    /// Count preservation and tiling completeness for the heatmap: where
    /// there is at least one entity and every weight is positive, every
    /// entity has exactly one block, the blocks come in the order of the
    /// ranking, and together they cover the area exactly.
    pub proof fn lemma_arrangement_complete(area: Rectangle, entities: Seq<WeightedEntity>)
        requires
            entities.len() > 0,
            all_positive(weights_of(entities)),
        ensures
            Self::arrangement(area@, entities).len() == entities.len(),
            forall|k: int|
                0 <= k < entities.len() ==> (#[trigger] Self::arrangement(area@, entities)[k]).index
                    == ranking(weights_of(entities))[k],
            tiles_exactly(block_tiles(Self::arrangement(area@, entities)), area@),
    {
        let w = weights_of(entities);
        let order = ranking(w);
        let sorted = ranked(w, order);
        area.lemma_view_bounds();
        lemma_ranking_exists(w);
        lemma_ranked_sum(w, order);
        assert forall|k: int| 0 <= k < sorted.len() implies sorted[k] > 0 by {
            assert(0 <= order[k] < w.len());
        }
        lemma_partition_one_tile_each(area@, sorted, 0, sum(sorted), Axis::Horizontal);
        lemma_layout_tiles_region(area@, sorted, Axis::Horizontal);
        Self::lemma_arrangement_fits(area, entities);
        let tiles = Self::ranked_tiles(area@, entities);
        let blocks = block_tiles(Self::arrangement(area@, entities));
        assert forall|cx: int, cy: int| #[trigger] area@.contains(cx, cy) implies exists|k: int|
            0 <= k < blocks.len() && (#[trigger] blocks[k]).region.contains(cx, cy) by {
            let k = choose|k: int|
                0 <= k < tiles.len() && (#[trigger] tiles[k]).region.contains(cx, cy);
            assert(blocks[k].region.contains(cx, cy));
        }
    }
}

} // verus!
