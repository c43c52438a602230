use pisnge::common::{parse_theme_variables, parse_nested_theme_variables, vars_get};
use pisnge::detect::{parse_config_and_detect_type, detect_chart_type, detect_format_from_extension,
    ChartType};
use pisnge::numbers::milli_to_string;
use pisnge::pie_layout::parse_font_size;
use pisnge::png::PngError;

fn get(vars: &Vec<(String, String)>, key: &str) -> Option<String> {
    vars_get(vars, key).cloned()
}

#[test]
fn nested_theme_variables_flatten_with_dots() {
    let mut vars: Vec<(String, String)> = Vec::new();
    parse_theme_variables("'xyChart': {'titleFontSize': '20'}}", &mut vars);
    assert_eq!(get(&vars, "xyChart.titleFontSize"), Some("20".to_string()));
}

#[test]
fn config_header_flattens_nested_objects() {
    let input = "%%{init: {'theme': 'base', 'themeVariables': {'xyChart': {'titleFontSize': '20'}}}}%%\npie\n  \"a\": 1\n";
    let (config, chart_type, remaining) = parse_config_and_detect_type(input).unwrap();
    assert_eq!(chart_type, ChartType::Pie);
    assert!(remaining.starts_with("pie"));
    let config = config.unwrap();
    assert_eq!(config.theme, "base");
    assert_eq!(get(&config.theme_variables, "xyChart.titleFontSize"), Some("20".to_string()));
}

#[test]
fn nested_variables_prefix_joins_with_dot() {
    let mut vars: Vec<(String, String)> = Vec::new();
    parse_nested_theme_variables("'a': '1', 'b': '2'", "pie", &mut vars);
    assert_eq!(get(&vars, "pie.a"), Some("1".to_string()));
    assert_eq!(get(&vars, "pie.b"), Some("2".to_string()));
}

#[test]
fn later_duplicate_keys_overwrite() {
    let mut vars: Vec<(String, String)> = Vec::new();
    parse_theme_variables("'k': 'one', 'k': 'two'}", &mut vars);
    assert_eq!(vars.len(), 1);
    assert_eq!(get(&vars, "k"), Some("two".to_string()));
}

#[test]
fn quoted_values_may_hold_commas() {
    let mut vars: Vec<(String, String)> = Vec::new();
    parse_theme_variables("'palette': '#ff8b00, #9c1de9'}", &mut vars);
    assert_eq!(get(&vars, "palette"), Some("#ff8b00, #9c1de9".to_string()));
}

#[test]
fn malformed_fragments_are_dropped_silently() {
    let mut vars: Vec<(String, String)> = Vec::new();
    parse_theme_variables("oops no colon, 'good': 'yes'}", &mut vars);
    assert_eq!(vars.len(), 1);
    assert_eq!(get(&vars, "good"), Some("yes".to_string()));
}

#[test]
fn detector_prefers_longer_keywords() {
    let input: Vec<char> = "work-item-movement\n...".chars().collect();
    let (_, t) = detect_chart_type(&input, 0).unwrap();
    assert_eq!(t, ChartType::WorkItemMovement);

    let input: Vec<char> = "xychart-beta\n".chars().collect();
    let (_, t) = detect_chart_type(&input, 0).unwrap();
    assert_eq!(t, ChartType::XY);

    let input: Vec<char> = "pie\n".chars().collect();
    let (_, t) = detect_chart_type(&input, 0).unwrap();
    assert_eq!(t, ChartType::Pie);
}

#[test]
fn unknown_chart_type_is_terminal_error() {
    let input: Vec<char> = "scatter\n".chars().collect();
    assert!(detect_chart_type(&input, 0).is_none());
    let err = parse_config_and_detect_type("scatter\n").unwrap_err();
    assert_eq!(err.remaining, "scatter\n");
}

#[test]
fn unclosed_header_is_not_a_header() {
    // the header never closes, so it is treated as absent and the raw text
    // reaches the detector, which then finds no keyword
    let input = "%%{init: {'theme': 'dark'\npie\n  \"a\": 1\n";
    let err = parse_config_and_detect_type(input).unwrap_err();
    assert_eq!(err.remaining, input);
}

#[test]
fn format_detection_reads_extensions() {
    assert_eq!(detect_format_from_extension("out.png"), Some("png".to_string()));
    assert_eq!(detect_format_from_extension("dir.d/out.SVG"), Some("svg".to_string()));
    assert_eq!(detect_format_from_extension("no_extension"), None);
    assert_eq!(detect_format_from_extension("chart.pdf"), None);
    assert_eq!(detect_format_from_extension(".png"), None);
}

#[test]
fn milli_values_print_without_trailing_zeros() {
    assert_eq!(milli_to_string(262_000), "262");
    assert_eq!(milli_to_string(8_500), "8.5");
    assert_eq!(milli_to_string(-1_250), "-1.25");
    assert_eq!(milli_to_string(60), "0.06");
    assert_eq!(milli_to_string(0), "0");
}

#[test]
fn font_sizes_need_a_px_suffix() {
    assert_eq!(parse_font_size("25px", 17_000), 25_000);
    assert_eq!(parse_font_size("12.5px", 17_000), 12_500);
    assert_eq!(parse_font_size("25", 17_000), 17_000);
    assert_eq!(parse_font_size("largepx", 17_000), 17_000);
}

#[test]
fn png_errors_keep_their_kind() {
    let parse = PngError::SvgParse("bad markup".to_string());
    assert_eq!(parse.message(), "SVG parsing error: bad markup");
    let render = PngError::Render("no pixmap".to_string());
    assert_eq!(render.message(), "PNG rendering error: no pixmap");
}
