use pisnge::work_item_movement::{
    parse_work_item_movement, validate_work_item_movement, parse_and_validate_work_item_movement,
    WorkItemMovement, WorkItem,
};
use pisnge::wim_layout::{wim_layout, column_positions, WimMetrics, item_label};

#[test]
fn test_parse_work_item_movement() {
    let input = r#"work-item-movement
  title 'Work Item Changes'
  columns [Not Existing, Draft, To Do, In Progress, In Review, In Test, Done]
  PJ-633 Not Existing: 0 -> Draft: 1
  PJ-491 In Review: 3 -> Done: 3
  PJ-1 In Progress: 5 -> Draft: 8
"#;

    let result = parse_work_item_movement(input, None);
    assert!(result.is_ok(), "Failed to parse: {:?}", result);

    let chart = result.unwrap();
    assert_eq!(chart.title, Some("Work Item Changes".to_string()));
    assert_eq!(chart.columns.len(), 7);
    assert_eq!(chart.columns[0], "Not Existing");
    assert_eq!(chart.columns[6], "Done");
    assert_eq!(chart.items.len(), 3);

    let item = &chart.items[0];
    assert_eq!(item.id, "PJ-633");
    assert_eq!(item.from_state, "Not Existing");
    assert_eq!(item.from_points, 0);
    assert_eq!(item.to_state, "Draft");
    assert_eq!(item.to_points, 1);
    assert_eq!(item.points_change(), 1);

    let item = &chart.items[2];
    assert_eq!(item.id, "PJ-1");
    assert_eq!(item.from_state, "In Progress");
    assert_eq!(item.from_points, 5);
    assert_eq!(item.to_state, "Draft");
    assert_eq!(item.to_points, 8);
    assert_eq!(item.points_change(), 3);
}

#[test]
fn validation_is_case_insensitive() {
    let input = "work-item-movement\n  columns [Done, Draft]\n  PJ-1 done: 1 -> DRAFT: 2\n";
    let chart = parse_work_item_movement(input, None).unwrap();
    assert!(validate_work_item_movement(&chart).is_ok());
}

#[test]
fn validation_reports_first_unknown_state() {
    let input = "work-item-movement\n  columns [Done]\n  PJ-9 Done: 1 -> Missing: 2\n";
    let chart = parse_work_item_movement(input, None).unwrap();
    let err = validate_work_item_movement(&chart).unwrap_err();
    assert_eq!(
        err.message,
        "Work item 'PJ-9' references column 'Missing' which does not exist. \
         Available columns are: [\"Done\"]"
    );
    assert!(parse_and_validate_work_item_movement(input, None).is_err());
}

#[test]
fn missing_columns_line_is_error() {
    let result = parse_work_item_movement("work-item-movement\n  title 'x'\n", None);
    assert!(result.is_err());
}

fn no_metrics() -> WimMetrics {
    WimMetrics { title_height_milli: None, column_widths_milli: None }
}

#[test]
fn column_positions_pin_ends_and_stay_monotone() {
    let input = "work-item-movement\n  columns [aa, b, cccc]\n";
    let chart = parse_work_item_movement(input, None).unwrap();
    let pos = column_positions(&chart, &no_metrics(), 800);
    assert_eq!(pos.len(), 3);
    // first: margin + half of "aa" at 8px per character
    assert_eq!(pos[0], 20_000 + 8_000);
    // last: width - margin - half of "cccc"
    assert_eq!(pos[2], 800_000 - 20_000 - 16_000);
    // interior: evenly spaced between the pinned ends
    assert_eq!(pos[1], pos[0] + (pos[2] - pos[0]) / 2);
    assert!(pos[0] <= pos[1] && pos[1] <= pos[2]);
}

#[test]
fn single_column_centres() {
    let input = "work-item-movement\n  columns [Only]\n";
    let chart = parse_work_item_movement(input, None).unwrap();
    let pos = column_positions(&chart, &no_metrics(), 640);
    assert_eq!(pos, vec![320_000]);
}

#[test]
fn vertical_rows_take_more_room() {
    let input = "work-item-movement\n  columns [A, B]\n  PJ-1 A: 1 -> B: 2\n  PJ-2 A: 1 -> A: 5\n  PJ-3 B: 2 -> A: 1\n";
    let chart = parse_work_item_movement(input, None).unwrap();
    let layout = wim_layout(&chart, &no_metrics(), 800);
    assert_eq!(layout.rows.len(), 3);
    assert!(!layout.rows[0].vertical);
    assert!(layout.rows[1].vertical);
    // items start below margin + column header + gap (no title)
    assert_eq!(layout.items_top_milli, 20_000 + 40_000 + 20_000);
    assert_eq!(layout.rows[0].y_milli, layout.items_top_milli);
    assert_eq!(layout.rows[1].y_milli, layout.rows[0].y_milli + 50_000);
    // the vertical row advances by the taller slot
    assert_eq!(layout.rows[2].y_milli, layout.rows[1].y_milli + 130_000);
    // guide lines replay the same advancement
    assert_eq!(layout.guide_top_milli, layout.items_top_milli - 30_000);
    assert_eq!(
        layout.guide_bottom_milli,
        layout.items_top_milli + (50_000 + 130_000 + 50_000) - 50_000 + 30_000
    );
}

#[test]
fn empty_item_list_keeps_header_height() {
    let input = "work-item-movement\n  columns [A]\n";
    let chart = parse_work_item_movement(input, None).unwrap();
    let layout = wim_layout(&chart, &no_metrics(), 800);
    assert_eq!(layout.rows.len(), 0);
    assert_eq!(layout.height_px, (layout.items_top_milli as u32 + 20_000) / 1000);
}

#[test]
fn item_labels_show_signed_deltas() {
    let plus = WorkItem {
        id: "PJ-1".to_string(),
        from_state: "A".to_string(),
        from_points: 2,
        to_state: "B".to_string(),
        to_points: 5,
    };
    assert_eq!(item_label(&plus), "PJ-1: +3");
    let minus = WorkItem { to_points: 1, ..plus.clone() };
    assert_eq!(item_label(&minus), "PJ-1: -1");
    let zero = WorkItem { to_points: 2, ..plus };
    assert_eq!(item_label(&zero), "PJ-1");
}

#[test]
fn unknown_state_draws_in_first_column() {
    let input = "work-item-movement\n  columns [A, B]\n  PJ-1 Nowhere: 1 -> B: 2\n";
    let chart = parse_work_item_movement(input, None).unwrap();
    let layout = wim_layout(&chart, &no_metrics(), 800);
    assert_eq!(layout.rows[0].from_idx, 0);
    assert_eq!(layout.rows[0].to_idx, 1);
}

#[test]
fn parse_error_carries_the_failing_line() {
    let err = parse_work_item_movement("work-item-movement\n  nope\n", None).unwrap_err();
    assert_eq!(err.remaining, "nope\n");
}

#[test]
fn validation_message_escapes_quoted_names() {
    let input = "work-item-movement\n  columns [A\"B]\n  PJ-1 C: 1 -> C: 2\n";
    let chart = parse_work_item_movement(input, None).unwrap();
    assert_eq!(chart.columns, vec!["A\"B".to_string()]);
    let err = validate_work_item_movement(&chart).unwrap_err();
    assert_eq!(
        err.message,
        "Work item 'PJ-1' references column 'C' which does not exist. \
         Available columns are: [\"A\\\"B\"]"
    );
}
