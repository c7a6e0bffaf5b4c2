use seed_io::layout::grid::{
    auto_placement, grid_size, item_tracks, parse_item_alignment, ContentAlignment, GridPlacement,
    ItemAlignment,
};
use seed_io::layout::text::TextAlign;
use seed_io::scene::{Axis, Units};

#[test]
fn placements() {
    let c = GridPlacement::cell(2, 3);
    assert_eq!((c.column_start, c.column_end, c.row_start, c.row_end), (Some(2), Some(3), Some(3), Some(4)));
    assert_eq!(c.column_span(), 1);
    let s = GridPlacement::span_columns(1, 3, 1);
    assert_eq!(s.column_span(), 3);
    assert_eq!(s.row_span(), 1);
    let r = GridPlacement::span_rows(1, 2, 4);
    assert_eq!(r.row_span(), 4);
    let backwards = GridPlacement { column_start: Some(5), column_end: Some(2), ..GridPlacement::default() };
    assert_eq!(backwards.column_span(), 1);
    assert_eq!(GridPlacement::default().row_span(), 1);
}

#[test]
fn alignment_keywords() {
    assert_eq!(parse_item_alignment("start"), ItemAlignment::Start);
    assert_eq!(parse_item_alignment("center"), ItemAlignment::Center);
    assert_eq!(parse_item_alignment("end"), ItemAlignment::End);
    assert_eq!(parse_item_alignment("stretch"), ItemAlignment::Stretch);
    assert_eq!(parse_item_alignment("baseline"), ItemAlignment::Start);
    assert_eq!(ItemAlignment::default(), ItemAlignment::Start);
    assert_eq!(ContentAlignment::default(), ContentAlignment::Start);
    assert_eq!(TextAlign::default(), TextAlign::Left);
    assert_eq!(Units::default(), Units::Meters);
    assert_eq!(Axis::default(), Axis::Y);
}

#[test]
fn auto_placement_is_row_major_in_first_row() {
    let p = auto_placement(2);
    assert_eq!((p.column_start, p.column_end, p.row_start, p.row_end), (Some(3), Some(4), Some(1), Some(2)));
}

#[test]
fn grid_sizes() {
    assert_eq!(grid_size(2, 1, &[]), (2, 1));
    assert_eq!(grid_size(0, 0, &[GridPlacement::default()]), (1, 1));
    let items = [GridPlacement::span_columns(1, 3, 1), auto_placement(4), GridPlacement::cell(1, 3)];
    assert_eq!(grid_size(2, 1, &items), (5, 3));
    let start_only = GridPlacement { column_start: Some(7), ..GridPlacement::default() };
    assert_eq!(grid_size(0, 0, &[start_only]), (7, 1));
}

#[test]
fn tracks_of_items() {
    assert_eq!(item_tracks(Some(2), Some(4)), (1, 3));
    assert_eq!(item_tracks(None, None), (0, 1));
    assert_eq!(item_tracks(Some(3), None), (2, 3));
    assert_eq!(item_tracks(Some(0), Some(0)), (0, 0));
}
