use pisnge::xychart::{parse_xychart, SeriesType, YAxis};
use pisnge::string_parser::{parse_label, parse_labels_list};
use pisnge::xy_layout::{y_tick_values, y_tick_labels, bar_draw_order, split_commas,
    get_color_for_series, get_stroke_style, get_plot_point_shape, xy_geometry, XYMetrics};

fn chars(s: &str) -> Vec<char> {
    s.chars().collect()
}

fn rest(s: &Vec<char>, i: usize) -> String {
    s[i..].iter().collect()
}

#[test]
fn test_parse_xychart() {
    let input = r##"%%{init: {'theme': 'base', 'themeVariables': {"xyChart":{"plotColorPalette":"#ff8b00, #9c1de9"}}}}%%
xychart-beta
  title "Issues in review or ready for QA"
  x-axis [NP-213, NP-341, NP-481, NP-482, NP-420]
  y-axis "Number of days in status" 0 --> 10
  bar [2, 4, 6, 8, 9]
  bar [8.5, 7, 5, 3, 1]
"##;

    let result = parse_xychart(input);
    assert!(result.is_ok(), "Failed to parse: {:?}", result);

    let xychart = result.unwrap();
    assert!(xychart.config.is_some());
    let config = xychart.config.as_ref().unwrap();
    assert_eq!(config.theme, "base");
    assert_eq!(
        xychart.title,
        Some("Issues in review or ready for QA".to_string())
    );
    assert_eq!(xychart.x_axis.labels.len(), 5);
    assert_eq!(xychart.x_axis.labels[0], "NP-213");
    assert_eq!(xychart.y_axis.title, "Number of days in status".to_string());
    assert_eq!(xychart.y_axis.min_milli, 0);
    assert_eq!(xychart.y_axis.max_milli, 10_000);
    assert_eq!(xychart.series.len(), 2);
    assert_eq!(xychart.series[0].series_type, SeriesType::Bar);
    assert_eq!(xychart.series[0].data_milli, vec![2_000, 4_000, 6_000, 8_000, 9_000]);
    assert_eq!(xychart.series[1].data_milli, vec![8_500, 7_000, 5_000, 3_000, 1_000]);
}

#[test]
fn test_parse_label_function() {
    // Test quoted string with comma
    let input = chars(r#""A,B""#);
    let (_, label) = parse_label(&input, 0);
    assert_eq!(label, "A,B");

    // Test single quoted string with comma
    let input = chars(r#"'C,D'"#);
    let (_, label) = parse_label(&input, 0);
    assert_eq!(label, "C,D");
}

#[test]
fn parser_test_parse_labels_list() {
    // Test simple quoted labels with commas
    let input = chars(r#""A,B", "C,D"]"#);
    let result = parse_labels_list(&input, 0);
    assert!(result.is_some(), "Failed to parse labels list");
    let (next, labels) = result.unwrap();
    assert_eq!(rest(&input, next), "]");
    assert_eq!(labels.len(), 2);
    assert_eq!(labels[0], "A,B");
    assert_eq!(labels[1], "C,D");
}

#[test]
fn test_parse_xychart_with_quoted_labels() {
    let input = r##"xychart-beta
  title "Test Chart"
  x-axis ["Label with, comma", 'Another, with comma', "Simple Label", UnquotedLabel]
  y-axis "Values" 0 --> 100
  bar [10, 20, 30, 40]
"##;

    let result = parse_xychart(input);
    assert!(result.is_ok(), "Failed to parse: {:?}", result);

    let xychart = result.unwrap();
    assert_eq!(xychart.x_axis.labels.len(), 4);
    assert_eq!(xychart.x_axis.labels[0], "Label with, comma");
    assert_eq!(xychart.x_axis.labels[1], "Another, with comma");
    assert_eq!(xychart.x_axis.labels[2], "Simple Label");
    assert_eq!(xychart.x_axis.labels[3], "UnquotedLabel");
}

#[test]
fn eleven_ticks_run_from_max_to_min() {
    let y = YAxis { title: "t".to_string(), min_milli: 0, max_milli: 10_000 };
    let ticks = y_tick_values(&y);
    assert_eq!(ticks.len(), 11);
    // values are in ten-thousandths of a unit: (10 - i) * max + i * min
    for i in 0..11 {
        assert_eq!(ticks[i], (10 - i as i64) * 10_000);
    }
    assert_eq!(ticks[0], 100_000); // max, scaled by ten
    assert_eq!(ticks[10], 0); // min
    let labels = y_tick_labels(&y);
    assert_eq!(labels[0], "10");
    assert_eq!(labels[5], "5");
    assert_eq!(labels[10], "0");
}

#[test]
fn ticks_interpolate_fractional_ranges_exactly() {
    let y = YAxis { title: "t".to_string(), min_milli: 1_000, max_milli: 2_000 };
    let ticks = y_tick_values(&y);
    // tick i is max - i*(max-min)/10; in ten-thousandths that is 20000 - i*1000
    for i in 0..11 {
        assert_eq!(ticks[i], 20_000 - (i as i64) * 1_000);
    }
}

#[test]
fn bars_draw_tallest_first() {
    let values = vec![3_000i64, 9_000, 1_000, 9_000];
    let order = bar_draw_order(&values);
    assert_eq!(order.len(), 4);
    let drawn: Vec<i64> = order.iter().map(|&i| values[i]).collect();
    assert_eq!(drawn, vec![9_000, 9_000, 3_000, 1_000]);
    let mut seen = order.clone();
    seen.sort();
    assert_eq!(seen, vec![0, 1, 2, 3]);
}

#[test]
fn series_styles_come_from_theme_variables() {
    let input = "%%{init: {'themeVariables': {'xyChart': {'plotColorPalette': '#ff8b00, #9c1de9', 'strokeStyles': 'solid, dashed', 'plotPoints': 'none, diamond'}}}}%%\nxychart-beta\n  x-axis [a]\n  y-axis \"t\" 0 --> 1\n  line [1]\n";
    let chart = parse_xychart(input).unwrap();
    let cfg = chart.config.clone();
    assert_eq!(get_color_for_series(&cfg, 0), "#ff8b00");
    assert_eq!(get_color_for_series(&cfg, 1), "#9c1de9");
    assert_eq!(get_color_for_series(&cfg, 2), "#2ca02c");
    assert_eq!(get_stroke_style(&cfg, 1), "dashed");
    assert_eq!(get_stroke_style(&cfg, 5), "solid");
    assert_eq!(get_plot_point_shape(&cfg, 0), None);
    assert_eq!(get_plot_point_shape(&cfg, 1), Some("diamond".to_string()));
    assert_eq!(get_plot_point_shape(&cfg, 7), None);
}

#[test]
fn split_commas_trims_segments() {
    let parts = split_commas(" a , b,c ");
    assert_eq!(parts, vec!["a", "b", "c"]);
}

#[test]
fn unknown_series_keyword_defaults_to_bar() {
    let input = "xychart-beta\n  x-axis [a]\n  y-axis \"t\" 0 --> 1\n  wiggle [1]\n";
    let chart = parse_xychart(input).unwrap();
    assert_eq!(chart.series.len(), 1);
    assert_eq!(chart.series[0].series_type, SeriesType::Bar);
}

#[test]
fn missing_x_axis_is_error() {
    let input = "xychart-beta\n  y-axis \"t\" 0 --> 1\n";
    let err = parse_xychart(input).unwrap_err();
    assert!(err.remaining.starts_with("y-axis"));
}

#[test]
fn geometry_defaults_without_metrics() {
    let input = "xychart-beta\n  x-axis [a, b]\n  y-axis \"t\" 0 --> 10\n  bar [1, 2]\n";
    let chart = parse_xychart(input).unwrap();
    let metrics = XYMetrics {
        title_height_milli: None,
        max_y_label_width_milli: None,
        x_label_widths_milli: None,
        max_legend_width_milli: None,
    };
    let geom = xy_geometry(&chart, 800, 600, &metrics);
    assert_eq!(geom.width_px, 800);
    assert!(!geom.vertical_labels);
    // y label space falls back to two characters at 60% of the label font
    let max_y_label = 16_000 * 6 / 10 * 2;
    let y_space = max_y_label + 10_000 + 12_000 + 20_000;
    assert_eq!(geom.chart_left_milli, 35_000 + y_space);
    assert_eq!(geom.chart_top_milli, 35_000);
    assert_eq!(geom.chart_width_milli, 800_000 - 70_000 - y_space);
    assert_eq!(geom.chart_height_milli, 600_000 - 70_000 - 40_000);
    assert_eq!(geom.category_width_milli, geom.chart_width_milli / 2);
}

#[test]
fn legend_between_title_and_axes() {
    let input = "xychart-beta\n  title \"T\"\n  legend [First, Second]\n  x-axis [a, b]\n  y-axis \"v\" 0 --> 10\n  bar [1, 2]\n  line [2, 1]\n";
    let chart = parse_xychart(input).unwrap();
    assert_eq!(chart.legend, Some(vec!["First".to_string(), "Second".to_string()]));
    let metrics = XYMetrics {
        title_height_milli: None,
        max_y_label_width_milli: None,
        x_label_widths_milli: None,
        max_legend_width_milli: Some(50_000),
    };
    let geom = xy_geometry(&chart, 800, 600, &metrics);
    // swatch + gap + widest text + right margin
    assert_eq!(geom.legend_width_milli, 18_000 + 4_000 + 50_000 + 20_000);
}

#[test]
fn negative_and_fractional_bounds_parse() {
    let input = "xychart-beta\n  x-axis [a]\n  y-axis \"v\" -5.25 --> 10.5\n  bar [-1.5]\n";
    let chart = parse_xychart(input).unwrap();
    assert_eq!(chart.y_axis.min_milli, -5_250);
    assert_eq!(chart.y_axis.max_milli, 10_500);
    assert_eq!(chart.series[0].data_milli, vec![-1_500]);
}

#[test]
fn empty_y_range_is_rejected() {
    // the data-model invariant: the maximum must exceed the minimum
    let input = "xychart-beta\n  x-axis [a]\n  y-axis \"t\" 0 --> 0\n  bar [1]\n";
    let err = parse_xychart(input).unwrap_err();
    assert!(err.remaining.starts_with("y-axis"));

    let input = "xychart-beta\n  x-axis [a]\n  y-axis \"t\" 5 --> 2\n";
    assert!(parse_xychart(input).is_err());

    let input = "xychart-beta\n  x-axis [a]\n  y-axis \"t\" 0 --> 1\n";
    let chart = parse_xychart(input).unwrap();
    assert!(chart.y_axis.min_milli < chart.y_axis.max_milli);
}
