use conclave::layout::areas::{compute_named_areas, find_area, place_in_areas};
use conclave::layout::grid::{check_grid_size, clipped_span, place_items, rows_used, GridItem};
use conclave::layout::tracks::{
    column_kinds, expand_auto_repeat_tracks, row_kinds, ColumnKind, RowKind,
};
use conclave::layout::{AutoRepeat, AutoRepeatMode, AutoRepeatTrack, GridTrack, MinMaxBound};

fn auto() -> GridItem {
    GridItem {
        in_flow: true,
        row_start: None,
        column_start: None,
        row_span: None,
        column_span: None,
    }
}

fn spanning(cols: usize, rows: usize) -> GridItem {
    GridItem { row_span: Some(rows), column_span: Some(cols), ..auto() }
}

#[test]
fn items_fill_rows_from_the_left() {
    let items = [auto(), auto(), auto(), auto()];
    assert!(check_grid_size(&items, 2));
    assert_eq!(
        place_items(&items, 2),
        vec![Some((0, 0)), Some((0, 1)), Some((1, 0)), Some((1, 1))]
    );
}

#[test]
fn wide_items_go_where_there_is_room() {
    let items = [auto(), spanning(2, 1), auto()];
    assert_eq!(place_items(&items, 2), vec![Some((0, 0)), Some((1, 0)), Some((2, 0))]);
}

#[test]
fn items_out_of_flow_have_no_place() {
    let items = [auto(), GridItem { in_flow: false, ..auto() }, auto()];
    assert_eq!(place_items(&items, 3), vec![Some((0, 0)), None, Some((0, 1))]);
}

#[test]
fn items_with_a_place_keep_it() {
    let fixed = GridItem { row_start: Some(2), column_start: Some(2), ..auto() };
    assert_eq!(place_items(&[fixed], 3), vec![Some((1, 1))]);
}

fn names(rows: &[&[&str]]) -> Vec<Vec<String>> {
    rows.iter().map(|r| r.iter().map(|s| s.to_string()).collect()).collect()
}

#[test]
fn areas_are_the_hulls_of_their_names() {
    let grid = names(&[&["hdr", "hdr"], &["side", "main"], &["side", "."]]);
    let areas = compute_named_areas(&grid);
    assert_eq!(areas.len(), 3);
    let side = &areas[find_area(&areas, "side").expect("side")];
    assert_eq!((side.row, side.col, side.rows, side.cols), (1, 0, 2, 1));
    let hdr = &areas[find_area(&areas, "hdr").expect("hdr")];
    assert_eq!((hdr.row, hdr.col, hdr.rows, hdr.cols), (0, 0, 1, 2));
    assert!(find_area(&areas, ".").is_none());

    let items = [auto(), auto()];
    let wanted = [Some("main".to_string()), Some("nowhere".to_string())];
    let placed = place_in_areas(&items, &wanted, &areas);
    assert_eq!((placed[0].row_start, placed[0].column_start), (Some(2), Some(2)));
    assert_eq!(placed[1], items[1]);
}

#[test]
fn repeated_tracks_are_written_out() {
    let tracks = [
        GridTrack::Px(10),
        GridTrack::AutoRepeat(AutoRepeat {
            mode: AutoRepeatMode::Fill,
            min_px: 100,
            tracks: vec![AutoRepeatTrack::Fr(1), AutoRepeatTrack::Auto],
        }),
    ];
    let out = expand_auto_repeat_tracks(&tracks, &[0, 4], 1);
    assert_eq!(out.len(), 9);
    assert!(matches!(out[0], GridTrack::Px(10)));
    assert!(matches!(out[1], GridTrack::Fr(1)));
    assert!(matches!(out[8], GridTrack::Auto));
    let none: Vec<GridTrack<i32>> = expand_auto_repeat_tracks(&[], &[], 3);
    assert_eq!(none.len(), 1);
    assert!(matches!(none[0], GridTrack::Auto));
}

#[test]
fn fitted_tracks_are_no_more_than_the_items() {
    let fitted = |mode: AutoRepeatMode| {
        let tracks = [GridTrack::AutoRepeat(AutoRepeat {
            mode,
            min_px: 100,
            tracks: vec![AutoRepeatTrack::Px(100)],
        })];
        expand_auto_repeat_tracks(&tracks, &[6], 2).len()
    };
    assert_eq!(fitted(AutoRepeatMode::Fill), 6);
    assert_eq!(fitted(AutoRepeatMode::Fit), 2);
}

#[test]
fn rows_behind_the_template_are_automatic() {
    let kinds = row_kinds(&[GridTrack::Px(40)], &None, 2);
    assert!(matches!(kinds[0], RowKind::Px(40)));
    assert!(matches!(kinds[1], RowKind::Auto));
    let kinds = row_kinds(&[], &Some(GridTrack::Pct(50)), 1);
    assert!(matches!(kinds[0], RowKind::Pct(50)));
}

#[test]
fn columns_share_what_is_left() {
    let tracks: [GridTrack<i32>; 4] = [
        GridTrack::Px(100),
        GridTrack::Fr(2),
        GridTrack::Auto,
        GridTrack::MinMax { min: MinMaxBound::Px(50), max: MinMaxBound::Fr(1) },
    ];
    let kinds = column_kinds(&tracks);
    assert!(matches!(kinds[0], ColumnKind::Px(100)));
    assert!(matches!(kinds[1], ColumnKind::Shares(2)));
    assert!(matches!(kinds[2], ColumnKind::OneShare));
    assert!(matches!(kinds[3], ColumnKind::AtLeastPx(50, _)));
    assert!(matches!(column_kinds(&[GridTrack::<i32>::Subgrid])[0], ColumnKind::OneShare));
}

#[test]
fn spans_end_with_the_grid() {
    assert_eq!(clipped_span(None, 0, 3), 1);
    assert_eq!(clipped_span(Some(0), 2, 3), 1);
    assert_eq!(clipped_span(Some(2), 0, 3), 2);
    assert_eq!(clipped_span(Some(9), 1, 3), 2);
}

#[test]
fn rows_reach_to_the_last_item() {
    assert_eq!(rows_used(&[]), 0);
    assert_eq!(rows_used(&[Some((0, 1)), None, Some((4, 0)), Some((2, 2))]), 5);
}
