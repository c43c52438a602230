use pisnge::pie_chart::{parse_pie_chart, PieChart};
use pisnge::pie_layout::{pie_layout, PieMetrics, FULL_TURN};
use pisnge::common::vars_get;

fn var<'a>(chart: &'a PieChart, key: &str) -> Option<&'a String> {
    vars_get(&chart.config.as_ref().unwrap().theme_variables, key)
}

#[test]
fn test_parse_pie_chart() {
    let input = r#"%%{init: {'theme': 'dark', 'themeVariables': {'pieStrokeColor': 'white', 'pie1': 'blue'}}}%%
pie showData title Story points by status
  "Done": 262
  "To Do": 129
  "In test": 87
  "Ready for QA": 46
  "Blocked": 20
  "In Progress": 20
"#;

    let result = parse_pie_chart(input);
    assert!(result.is_ok());

    let pie_chart = result.unwrap();
    assert!(pie_chart.config.is_some());
    let config = pie_chart.config.as_ref().unwrap();
    assert_eq!(config.theme, "dark");
    assert_eq!(var(&pie_chart, "pieStrokeColor"), Some(&"white".to_string()));
    assert_eq!(var(&pie_chart, "pie1"), Some(&"blue".to_string()));
    assert_eq!(pie_chart.show_data, true);
    assert_eq!(pie_chart.title, Some("Story points by status".to_string()));
    assert_eq!(pie_chart.data.len(), 6);
    assert_eq!(pie_chart.data[0].label, "Done");
    assert_eq!(pie_chart.data[0].value_milli, 262_000);
}

#[test]
fn parser_test_parse_pie_chart() {
    let input = r#"%%{init: {'theme': 'dark', 'themeVariables': {'pieStrokeColor': 'white', 'pie1': 'blue'}}}%%
pie showData title Story points by status
  "Done": 262
  "To Do": 129
  "In test": 87
  "Ready for QA": 46
  "Blocked": 20
  "In Progress": 20
"#;

    let result = parse_pie_chart(input);
    assert!(result.is_ok());

    let pie_chart = result.unwrap();
    assert!(pie_chart.config.is_some());
    let config = pie_chart.config.as_ref().unwrap();
    assert_eq!(config.theme, "dark");
    assert_eq!(var(&pie_chart, "pieStrokeColor"), Some(&"white".to_string()));
    assert_eq!(var(&pie_chart, "pie1"), Some(&"blue".to_string()));
    assert_eq!(pie_chart.show_data, true);
    assert_eq!(pie_chart.title, Some("Story points by status".to_string()));
    assert_eq!(pie_chart.data.len(), 6);
    assert_eq!(pie_chart.data[0].label, "Done");
    assert_eq!(pie_chart.data[0].value_milli, 262_000);
}

fn no_metrics() -> PieMetrics {
    PieMetrics { title_height_milli: None, legend_text_widths_milli: None }
}

#[test]
fn single_entry_spans_full_circle() {
    let result = parse_pie_chart("pie\n  \"Only\": 100\n");
    let chart = result.unwrap();
    assert_eq!(chart.data.len(), 1);
    let layout = pie_layout(&chart, 800, 600, &no_metrics());
    assert_eq!(layout.slices.len(), 1);
    assert_eq!(layout.slices[0].start_uturn, 0);
    assert_eq!(layout.slices[0].end_uturn, FULL_TURN as i128);
}

#[test]
fn slice_spans_tile_the_circle() {
    let input = "pie\n  \"a\": 1\n  \"b\": 2\n  \"c\": 4\n";
    let chart = parse_pie_chart(input).unwrap();
    let layout = pie_layout(&chart, 800, 600, &no_metrics());
    assert_eq!(layout.slices.len(), 3);
    assert_eq!(layout.slices[0].start_uturn, 0);
    let mut sum: i128 = 0;
    for k in 0..layout.slices.len() {
        if k > 0 {
            assert_eq!(layout.slices[k].start_uturn, layout.slices[k - 1].end_uturn);
        }
        sum += layout.slices[k].end_uturn - layout.slices[k].start_uturn;
    }
    assert_eq!(sum, FULL_TURN as i128);
    // 1/7, 2/7, 4/7 of a turn, rounded down at each boundary
    assert_eq!(layout.slices[0].end_uturn, 1_000_000 / 7);
    assert_eq!(layout.slices[1].end_uturn, 3_000_000 / 7);
}

#[test]
fn zero_total_draws_no_slices() {
    let chart = parse_pie_chart("pie\n  \"a\": 0\n  \"b\": 0\n").unwrap();
    let layout = pie_layout(&chart, 800, 600, &no_metrics());
    assert_eq!(layout.slices.len(), 0);
    assert_eq!(layout.legend.len(), 2);
}

#[test]
fn empty_pie_parses_and_lays_out() {
    let chart = parse_pie_chart("pie\n").unwrap();
    assert_eq!(chart.data.len(), 0);
    let layout = pie_layout(&chart, 800, 600, &no_metrics());
    assert_eq!(layout.slices.len(), 0);
}

#[test]
fn percentage_labels_round_half_up() {
    let chart = parse_pie_chart("pie showData\n  \"a\": 1\n  \"b\": 2\n").unwrap();
    let layout = pie_layout(&chart, 800, 600, &no_metrics());
    // 1/3 is 33.3%, 2/3 is 66.7%
    assert_eq!(layout.slices[0].pct_label.as_deref(), Some("33%"));
    assert_eq!(layout.slices[1].pct_label.as_deref(), Some("67%"));
}

#[test]
fn legend_text_shows_fractional_values() {
    let chart = parse_pie_chart("pie\n  \"a\": 8.5\n  \"b\": 262\n").unwrap();
    let layout = pie_layout(&chart, 800, 600, &no_metrics());
    assert_eq!(layout.legend[0].text, "a [8.5]");
    assert_eq!(layout.legend[1].text, "b [262]");
}

#[test]
fn config_width_overrides_default() {
    let input = "%%{init: {'width': 262}}%%\npie\n  \"a\": 1\n";
    let chart = parse_pie_chart(input).unwrap();
    assert_eq!(chart.config.as_ref().unwrap().width, Some(262));
    let layout = pie_layout(&chart, 800, 600, &no_metrics());
    assert_eq!(layout.width_px, 262);
}

#[test]
fn slice_colors_use_theme_then_palette() {
    let input = "%%{init: {'themeVariables': {'pie1': 'blue'}}}%%\npie\n  \"a\": 1\n  \"b\": 1\n";
    let chart = parse_pie_chart(input).unwrap();
    let layout = pie_layout(&chart, 800, 600, &no_metrics());
    assert_eq!(layout.slices[0].color, "blue");
    assert_eq!(layout.slices[1].color, "#ff7f0e");
}

#[test]
fn pie_keyword_missing_is_error() {
    let err = parse_pie_chart("nope\n").unwrap_err();
    assert_eq!(err.remaining, "nope\n");
}
