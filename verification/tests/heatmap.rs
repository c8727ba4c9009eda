use asset_heatmap::assets::Asset;
use asset_heatmap::change::Change;
use asset_heatmap::entity::{
    entity_weights, last_two, range_weight, sum_weights, total_weight, WeightedEntity,
};
use asset_heatmap::text::{collect_range, digit, push_all, push_decimal, range_is, text_is};
use asset_heatmap::geometry::Rectangle;
use asset_heatmap::gradient::Rgb;
use asset_heatmap::heatmap::{AssetBlock, AssetHeatmapWidget};
use asset_heatmap::ranking::rank_by_weight;

fn entity(label: &str, weight: u64, change_bp: i64) -> WeightedEntity {
    WeightedEntity { label: label.to_string(), weight, change: Change::basis_points(change_bp) }
}

#[test]
fn weights_are_summed_exactly() {
    let list = vec![entity("A", u64::MAX, 0), entity("B", u64::MAX, 0), entity("C", 2, 0)];
    assert_eq!(total_weight(&list), 2 * (u64::MAX as u128) + 2);
    assert_eq!(total_weight(&Vec::new()), 0);
    assert_eq!(entity_weights(&list), vec![u64::MAX, u64::MAX, 2]);
    assert_eq!(sum_weights(&vec![1, 2, 3, 4]), 10);
    assert_eq!(range_weight(&vec![1, 2, 3, 4], 1, 3), 5);
    assert_eq!(range_weight(&vec![1, 2, 3, 4], 2, 2), 0);
}

#[test]
fn ranking_is_by_descending_weight() {
    assert_eq!(rank_by_weight(&vec![1, 100, 7, 30]), vec![1, 3, 2, 0]);
    assert_eq!(rank_by_weight(&vec![]), Vec::<usize>::new());
    assert_eq!(rank_by_weight(&vec![4]), vec![0]);
    assert_eq!(rank_by_weight(&vec![1, 2, 3, 4, 5]), vec![4, 3, 2, 1, 0]);
}

#[test]
fn ranking_keeps_equal_weights_in_their_order() {
    assert_eq!(rank_by_weight(&vec![5, 9, 5, 1, 9]), vec![1, 4, 0, 2, 3]);
    assert_eq!(rank_by_weight(&vec![0, 0, 0]), vec![0, 1, 2]);
}

#[test]
fn arrange_nothing() {
    let widget = AssetHeatmapWidget {};
    let area = Rectangle::new(0, 1, 80, 20);
    assert!(widget.arrange(area, &Vec::new()).is_empty());
    assert!(widget.arrange(area, &vec![entity("A", 0, 5), entity("B", 0, -5)]).is_empty());
}

#[test]
fn arrange_one_asset() {
    let widget = AssetHeatmapWidget {};
    let area = Rectangle::new(0, 1, 80, 20);
    assert_eq!(
        widget.arrange(area, &vec![entity("A", 3, 500)]),
        vec![AssetBlock { index: 0, region: area, color: Rgb { r: 100, g: 255, b: 100 } }]
    );
}

#[test]
fn arrange_ranks_sizes_and_colours() {
    let widget = AssetHeatmapWidget {};
    let area = Rectangle::new(0, 0, 100, 40);
    let list = vec![
        entity("SMALL", 1, -500),
        entity("BIG", 100, 1000),
        entity("FLAT", 1, 0),
        entity("DOWN", 1, -2000),
    ];
    assert_eq!(
        widget.arrange(area, &list),
        vec![
            AssetBlock {
                index: 1,
                region: Rectangle::new(0, 0, 95, 38),
                color: Rgb { r: 0, g: 255, b: 0 },
            },
            AssetBlock {
                index: 0,
                region: Rectangle::new(0, 38, 95, 2),
                color: Rgb { r: 255, g: 100, b: 100 },
            },
            AssetBlock {
                index: 2,
                region: Rectangle::new(95, 0, 5, 20),
                color: Rgb { r: 100, g: 100, b: 100 },
            },
            AssetBlock {
                index: 3,
                region: Rectangle::new(95, 20, 5, 20),
                color: Rgb { r: 255, g: 0, b: 0 },
            },
        ]
    );
}

#[test]
fn arrange_covers_the_area_once() {
    let widget = AssetHeatmapWidget {};
    let area = Rectangle::new(3, 2, 61, 17);
    let list: Vec<WeightedEntity> =
        [7u64, 300, 12, 12, 45, 1, 90].iter().map(|w| entity("X", *w, 0)).collect();
    let blocks = widget.arrange(area, &list);
    assert_eq!(blocks.len(), list.len());
    let mut seen: Vec<usize> = blocks.iter().map(|b| b.index).collect();
    assert_eq!(seen, vec![1, 6, 4, 2, 3, 0, 5]);
    seen.sort();
    assert_eq!(seen, vec![0, 1, 2, 3, 4, 5, 6]);
    for cx in 0..70u16 {
        for cy in 0..25u16 {
            let hits = blocks
                .iter()
                .filter(|b| {
                    let r = b.region;
                    r.x() <= cx && cx < r.x() + r.width() && r.y() <= cy && cy < r.y() + r.height()
                })
                .count();
            let inside = 3 <= cx && cx < 64 && 2 <= cy && cy < 19;
            assert_eq!(hits, if inside { 1 } else { 0 });
        }
    }
}

#[test]
fn change_between_two_prices_is_kept_exactly() {
    assert_eq!(
        Change::between(100_00, 103_42),
        Change { negative: false, numerator: 3_42, denominator: 100_00 }
    );
    assert_eq!(
        Change::between(100_00, 95_00),
        Change { negative: true, numerator: 5_00, denominator: 100_00 }
    );
    assert_eq!(
        Change::between(u64::MAX, 0),
        Change { negative: true, numerator: u64::MAX, denominator: u64::MAX }
    );
    assert_eq!(
        Change::between(0, u64::MAX),
        Change { negative: false, numerator: u64::MAX, denominator: 0 }
    );
}

#[test]
fn change_by_parts() {
    assert_eq!(Change::percent(5), Change { negative: false, numerator: 5, denominator: 100 });
    assert_eq!(Change::percent(-5), Change { negative: true, numerator: 5, denominator: 100 });
    assert_eq!(
        Change::basis_points(-342),
        Change { negative: true, numerator: 342, denominator: 10000 }
    );
    assert_eq!(
        Change::percent(i64::MIN),
        Change { negative: true, numerator: 1 << 63, denominator: 100 }
    );
    assert_eq!(
        Change::basis_points(i64::MAX),
        Change { negative: false, numerator: i64::MAX as u64, denominator: 10000 }
    );
}

#[test]
fn change_knows_its_direction() {
    let gain = Change::between(1_000_000, 1_000_001);
    assert!(gain.is_gain() && !gain.is_loss() && !gain.is_zero());
    let loss = Change::between(1_000_001, 1_000_000);
    assert!(loss.is_loss() && !loss.is_gain() && !loss.is_zero());
    let none = Change::between(5, 5);
    assert!(none.is_zero() && !none.is_gain() && !none.is_loss());
    let unknown = Change::between(0, 5);
    assert!(unknown.is_zero() && !unknown.is_gain() && !unknown.is_loss());
    assert!(Change::percent(0).is_zero());
    assert!(Change { negative: true, numerator: 0, denominator: 9 }.is_zero());
}

#[test]
fn change_size_in_hundredths_of_a_percent() {
    assert_eq!(Change::between(100_00, 103_42).hundredths(), 342);
    assert_eq!(Change::between(100_00, 95_00).hundredths(), 500);
    assert_eq!(Change::between(100_00, 0).hundredths(), 10000);
    assert_eq!(Change::between(100, 200).hundredths(), 10000);
    assert_eq!(Change::between(5, 5).hundredths(), 0);
    assert_eq!(Change::between(0, 5).hundredths(), 0);
    assert_eq!(Change::percent(-7).hundredths(), 700);
    assert_eq!(Change::basis_points(7).hundredths(), 7);
}

#[test]
fn change_size_rounds_to_the_nearest() {
    // 1/3 = 3333.33.. hundredths of a percent, 2/3 = 6666.66..
    assert_eq!(Change::between(3, 4).hundredths(), 3333);
    assert_eq!(Change::between(3, 5).hundredths(), 6667);
    assert_eq!(Change::between(3, 2).hundredths(), 3333);
    assert_eq!(Change::between(3, 1).hundredths(), 6667);
    // 1/20000 is half a hundredth of a percent
    assert_eq!(Change::between(20000, 20001).hundredths(), 1);
    assert_eq!(Change::between(20000, 19999).hundredths(), 1);
    assert_eq!(Change::between(40000, 40001).hundredths(), 0);
}

#[test]
fn change_size_of_extreme_prices() {
    assert_eq!(Change::between(1, u64::MAX).hundredths(), (u64::MAX as u128 - 1) * 10000);
    assert_eq!(Change::between(u64::MAX, u64::MAX).hundredths(), 0);
    assert_eq!(Change::between(u64::MAX, 0).hundredths(), 10000);
    assert_eq!(Change::between(u64::MAX / 2, u64::MAX).hundredths(), 10000);
    assert_eq!(
        Change { negative: false, numerator: u64::MAX, denominator: u64::MAX }.hundredths(),
        10000
    );
}

#[test]
fn last_two_observations() {
    assert_eq!(last_two(&vec![1.5f64, 2.5, 3.5]), Some((2.5, 3.5)));
    assert_eq!(last_two(&vec![7u8, 9]), Some((7, 9)));
    assert_eq!(last_two(&vec![7u8]), None);
    assert_eq!(last_two(&Vec::<f64>::new()), None);
}

#[test]
fn titles_show_label_and_signed_change() {
    let widget = AssetHeatmapWidget {};
    assert_eq!(widget.title("TICKER", Change::between(100_0000, 103_4200)), " TICKER (+3.42%) ");
    assert_eq!(widget.title("AAPL", Change::basis_points(342)), " AAPL (+3.42%) ");
    assert_eq!(widget.title("AAPL", Change::basis_points(-150)), " AAPL (-1.50%) ");
    assert_eq!(widget.title("X", Change::basis_points(7)), " X (+0.07%) ");
    assert_eq!(widget.title("X", Change::basis_points(-7)), " X (-0.07%) ");
    assert_eq!(widget.title("", Change::basis_points(12345)), "  (+123.45%) ");
    assert_eq!(widget.title("GOOG", Change::percent(100)), " GOOG (+100.00%) ");
    assert_eq!(widget.title("GOOG", Change::between(200, 190)), " GOOG (-5.00%) ");
}

#[test]
fn title_of_no_change_has_no_sign() {
    let widget = AssetHeatmapWidget {};
    assert_eq!(widget.title("X", Change::percent(0)), " X (0.00%) ");
    assert_eq!(widget.title("X", Change::between(9, 9)), " X (0.00%) ");
    assert_eq!(widget.title("X", Change::between(0, 9)), " X (0.00%) ");
}

#[test]
fn title_keeps_the_sign_of_a_change_that_rounds_to_nothing() {
    let widget = AssetHeatmapWidget {};
    assert_eq!(widget.title("X", Change::between(1_000_000, 1_000_001)), " X (+0.00%) ");
    assert_eq!(widget.title("X", Change::between(1_000_001, 1_000_000)), " X (-0.00%) ");
    assert_eq!(widget.title("X", Change::between(20000, 20001)), " X (+0.01%) ");
}

#[test]
fn titles_of_extreme_changes() {
    let widget = AssetHeatmapWidget {};
    assert_eq!(
        widget.title("M", Change::basis_points(i64::MAX)),
        " M (+92233720368547758.07%) "
    );
    assert_eq!(
        widget.title("M", Change::basis_points(i64::MIN)),
        " M (-92233720368547758.08%) "
    );
    assert_eq!(
        widget.title("M", Change::percent(i64::MAX)),
        " M (+9223372036854775807.00%) "
    );
    assert_eq!(
        widget.title("M", Change::between(1, u64::MAX)),
        " M (+1844674407370955161400.00%) "
    );
}

#[test]
fn decimal_numerals() {
    let mut text = String::from("n=");
    push_decimal(&mut text, 0);
    push_decimal(&mut text, 907);
    push_decimal(&mut text, u128::MAX);
    assert_eq!(text, "n=0907340282366920938463463374607431768211455");
    assert_eq!(digit(0), '0');
    assert_eq!(digit(9), '9');
    let chars: Vec<char> = "ADD X".chars().collect();
    assert!(range_is(&chars, 0, 3, "ADD"));
    assert!(!range_is(&chars, 0, 3, "ADX"));
    assert!(!range_is(&chars, 0, 4, "ADD"));
    assert!(range_is(&chars, 2, 2, ""));
    assert!(text_is("1D", "1D"));
    assert!(!text_is("1D", "1W"));
    assert!(!text_is("1D", "1"));
    assert_eq!(collect_range(&chars, 4, 5), "X");
    assert_eq!(collect_range(&chars, 1, 1), "");
    let mut s = String::from("> ");
    push_all(&mut s, &chars);
    assert_eq!(s, "> ADD X");
}

#[test]
fn asset_keeps_what_it_is_given() {
    let asset = Asset::new("AAPL".to_string(), 100_0000, 103_4200, 3_000_000_000_000);
    assert_eq!(asset.get_ticker(), "AAPL");
    assert_eq!(asset.get_prev_price(), 100_0000);
    assert_eq!(asset.get_price(), 103_4200);
    assert_eq!(asset.get_market_cap(), 3_000_000_000_000);
    assert_eq!(asset.get_percentage_price_change(), Change::between(100_0000, 103_4200));
    assert_eq!(asset.get_percentage_price_change().hundredths(), 342);
    assert!(asset.get_percentage_price_change().is_gain());
}

#[test]
fn asset_update_replaces_all_but_the_ticker() {
    let mut asset = Asset::new("AAPL".to_string(), 100, 110, 5);
    asset.update(110, 99, 7);
    assert_eq!(asset.get_ticker(), "AAPL");
    assert_eq!(asset.get_prev_price(), 110);
    assert_eq!(asset.get_price(), 99);
    assert_eq!(asset.get_market_cap(), 7);
    assert_eq!(
        asset.get_percentage_price_change(),
        Change { negative: true, numerator: 11, denominator: 110 }
    );
    assert_eq!(asset.get_percentage_price_change().hundredths(), 1000);
}

#[test]
fn asset_without_an_earlier_price_has_not_changed() {
    let asset = Asset::new("NEW".to_string(), 0, 110, 5);
    assert!(asset.get_percentage_price_change().is_zero());
    let entity = asset.entity();
    assert_eq!((entity.label.as_str(), entity.weight), ("NEW", 5));
    assert!(entity.change.is_zero());
}

#[test]
fn asset_as_entity() {
    let entity = Asset::new("PLTR".to_string(), 200, 190, 77).entity();
    assert_eq!(entity.label, "PLTR");
    assert_eq!(entity.weight, 77);
    assert_eq!(entity.change, Change::between(200, 190));
    assert_eq!(entity.change.hundredths(), 500);
    assert!(entity.change.is_loss());
}

#[test]
fn arrange_has_a_block_whenever_a_weight_is_positive() {
    let widget = AssetHeatmapWidget {};
    let area = Rectangle::new(0, 0, 100, 10);
    let blocks = widget.arrange(area, &vec![entity("A", 0, 5), entity("B", 5, -5)]);
    assert_eq!(
        blocks,
        vec![AssetBlock {
            index: 1,
            region: Rectangle::new(0, 0, 95, 10),
            color: Rgb { r: 255, g: 199, b: 199 },
        }]
    );
    let blocks = widget.arrange(area, &vec![entity("A", 0, 0), entity("B", 0, 0), entity("C", 1, 0)]);
    assert!(!blocks.is_empty());
    assert_eq!(blocks[0].index, 2);
}

#[test]
fn arrange_colours_the_smallest_gain_green() {
    let widget = AssetHeatmapWidget {};
    let area = Rectangle::new(0, 0, 10, 10);
    let tiny = Asset::new("T".to_string(), 1_000_000, 1_000_001, 9).entity();
    assert_eq!(
        widget.arrange(area, &vec![tiny]),
        vec![AssetBlock { index: 0, region: area, color: Rgb { r: 200, g: 255, b: 200 } }]
    );
}
