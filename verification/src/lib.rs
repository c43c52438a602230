pub mod text;
pub mod numbers;
pub mod string_parser;
pub mod common;
pub mod detect;
pub mod pie_chart;
pub mod pie_layout;
pub mod work_item_movement;
pub mod wim_layout;
pub mod xychart;
pub mod xy_layout;
pub mod png;
