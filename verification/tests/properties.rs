use lune_std_roblox::markup::{render_markdown, Segment};
use lune_std_roblox::property::{
    format_complex_property, parse_vector_components, should_split_property,
};
use lune_std_roblox::values::{format_enum_value, format_unique_id, unique_id_is_formattable};

fn number_text(slot: &Option<String>) -> String {
    let value: f32 = slot
        .as_ref()
        .and_then(|text| text.parse::<f32>().ok())
        .unwrap_or(0.0);
    format!("{}", value)
}

fn render(segments: &Vec<Segment>) -> String {
    let numbers: Vec<String> = segments
        .iter()
        .filter_map(|s| match s {
            Segment::Number(slot) => Some(number_text(slot)),
            Segment::Text(_) => None,
        })
        .collect();
    render_markdown(segments, &numbers)
}

fn complex(value: &str) -> String {
    let mut out = Vec::new();
    format_complex_property(&mut out, value);
    render(&out)
}

#[test]
fn split_for_vector_and_color_types() {
    assert!(should_split_property("CFrame(CFrame { })"));
    assert!(should_split_property("Vector3(Vector3 { x: 1.0 })"));
    assert!(should_split_property("Vector2(Vector2 { x: 1.0 })"));
    assert!(should_split_property("Color3(Color3 { r: 1.0 })"));
}

#[test]
fn split_for_lists_only_with_separators() {
    assert!(should_split_property("[a, b]"));
    assert!(should_split_property("[a; b]"));
    assert!(!should_split_property("[ab]"));
    assert!(!should_split_property("a, b"));
    assert!(!should_split_property("Int32(5)"));
    assert!(!should_split_property(""));
}

#[test]
fn vector3_fields_one_per_line() {
    assert_eq!(
        complex("Vector3(Vector3 { x: 1.0, y: 2.0, z: 3.0 })"),
        "  - x: 1.0\n  - y: 2.0\n  - z: 3.0 \n"
    );
}

#[test]
fn vector3_without_brace_gives_nothing() {
    assert_eq!(complex("Vector3 x: 1.0"), "");
}

#[test]
fn color3_fields_one_per_line() {
    assert_eq!(
        complex("Color3(Color3 { r: 0.5, g: 0.25, b: 1.0 })"),
        "  - r: 0.5\n  - g: 0.25\n  - b: 1.0 \n"
    );
}

#[test]
fn list_parts_trimmed_one_per_line() {
    assert_eq!(complex("[a, b; c]"), "  - a\n  - b\n  - c\n");
    assert_eq!(complex("{{1,2}}"), "  - 1\n  - 2\n");
    assert_eq!(complex("[a,,b]"), "  - a\n  - \n  - b\n");
}

#[test]
fn cframe_position_and_axes() {
    let value = "CFrame(CFrame { position: Vector3 { x: 1.0, y: 2.0, z: 3.0 }, orientation: Matrix3 { x: Vector3 { x: 1.0, y: 0.0, z: 0.0 }, y: Vector3 { x: 0.0, y: 1.0, z: 0.0 }, z: Vector3 { x: 0.0, y: 0.0, z: 1.0 } } })";
    assert_eq!(
        complex(value),
        "  - position: \n    - x: 1.0\n    - y: 2.0\n    - z: 3.0 \n  - orientation: \n    - x-axis: [1, 0, 0]\n    - y-axis: [0, 1, 0]\n    - z-axis: [0, 0, 1]\n"
    );
}

#[test]
fn cframe_axes_are_number_slots() {
    let mut out = Vec::new();
    format_complex_property(
        &mut out,
        "CFrame { orientation: Matrix3 { x: Vector3 { x: 0.5, y: -2, z: abc } } }",
    );
    let slots: Vec<Option<String>> = out
        .iter()
        .filter_map(|s| match s {
            Segment::Number(slot) => Some(slot.clone()),
            Segment::Text(_) => None,
        })
        .collect();
    assert_eq!(
        slots,
        vec![Some("0.5".to_string()), Some("-2".to_string()), Some("abc".to_string())]
    );
    assert_eq!(
        render(&out),
        "  - position: \n  - orientation: \n    - x-axis: [0.5, -2, 0]\n"
    );
}

#[test]
fn cframe_without_fields_keeps_headings() {
    assert_eq!(complex("CFrame"), "  - position: \n  - orientation: \n");
}

#[test]
fn vector_components_are_trimmed() {
    assert_eq!(
        parse_vector_components(" { x: 1.5, y: -2 , z: 3 "),
        (Some("1.5".to_string()), Some("-2".to_string()), Some("3".to_string()))
    );
}

#[test]
fn vector_components_need_a_comma_except_the_last() {
    assert_eq!(parse_vector_components("x: 1"), (None, None, None));
    assert_eq!(
        parse_vector_components("z: 7"),
        (None, None, Some("7".to_string()))
    );
}

#[test]
fn enum_value_is_extracted() {
    assert_eq!(format_enum_value("Enum(Enum { value: 256 })"), "256");
    assert_eq!(format_enum_value("no value here"), "no value here");
    assert_eq!(format_enum_value("value: 3"), "value: 3");
}

#[test]
fn unique_id_without_comma_after_random_is_cleaned() {
    assert_eq!(
        format_unique_id("UniqueId(UniqueId { index: 1, time: 2, random: 3 })"),
        "index: 1-time: 2-3"
    );
}

#[test]
fn unique_id_random_part_is_cut_out() {
    assert_eq!(format_unique_id("{ random: 12345678, x }"), "1234567");
    assert_eq!(format_unique_id("{ random: \"abcd\", x }"), "\"abcd");
}

#[test]
fn unique_id_without_braces_is_unchanged() {
    assert_eq!(format_unique_id("abc"), "abc");
    assert_eq!(format_unique_id("{abc"), "{abc");
}

#[test]
fn unique_id_replacements_do_not_overlap() {
    assert_eq!(format_unique_id("{a, , b}"), "a--b");
    assert_eq!(format_unique_id("{ x random: y }"), "x y");
}

#[test]
fn unique_id_formattable_inputs() {
    assert!(unique_id_is_formattable("abc"));
    assert!(unique_id_is_formattable("UniqueId(UniqueId { index: 1, time: 2, random: 3 })"));
    assert!(unique_id_is_formattable("{random:ab,}"));
    assert!(!unique_id_is_formattable("}{"));
    assert!(!unique_id_is_formattable("{random:,}"));
    assert!(!unique_id_is_formattable("{random:a,}"));
    assert!(!unique_id_is_formattable("{random:é12345,}"));
    assert!(!unique_id_is_formattable("{random:12345é,}"));
}

#[test]
fn unique_id_shortest_random_part_is_empty() {
    assert_eq!(format_unique_id("{random:ab,}"), "");
}

#[test]
fn list_parts_trim_unicode_whitespace() {
    assert_eq!(complex("[\u{3000}a\u{a0}, b\t]"), "  - a\n  - b\n");
}

#[test]
fn only_cframe_items_hold_numbers() {
    let mut out = Vec::new();
    format_complex_property(&mut out, "Vector3(Vector3 { x: 1.0, y: 2.0, z: 3.0 })");
    format_complex_property(&mut out, "[1, 2]");
    assert!(out.iter().all(|s| matches!(s, Segment::Text(_))));
}

#[test]
fn enum_cleanup_twice_is_cleanup_once() {
    for raw in [
        "Enum(Enum { value: 256 })",
        "value: value: x}",
        "value: 3",
        "plain",
        "a value:  7 } b }",
    ] {
        let once = format_enum_value(raw);
        assert_eq!(format_enum_value(&once), once);
    }
    assert_eq!(format_enum_value("value: value: x}"), "value: x");
}
