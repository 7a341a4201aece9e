use freya_state::color::{parse_color, parse_rgb, Color};
use freya_state::cursor::{parse_cursor, CursorMode, CursorSettings};
use freya_state::fixed::Fixed;
use freya_state::font::{parse_font_style, parse_text_align, FontEmphasis, FontStyle, TextAlign};
use freya_state::node::{AttrValue, Attribute, DirtyNodes, NodeState, NodeView, StateError};
use freya_state::refs::{CursorReference, References};
use freya_state::scroll::Scroll;
use freya_state::size::{parse_calc, parse_size, CalcType, DirectionMode, Size, SizeMode};
use freya_state::style::{parse_display, parse_shadow, DisplayMode, ShadowSettings, Style};

fn fx(v: f32) -> Fixed {
    Fixed {
        micros: (v * 1_000_000.0).round() as i64,
    }
}

fn text_attr(name: &str, value: &str) -> Attribute {
    Attribute {
        name: name.to_string(),
        value: AttrValue::Text(value.to_string()),
    }
}

fn bytes_attr(name: &str, value: &[u8]) -> Attribute {
    Attribute {
        name: name.to_string(),
        value: AttrValue::Bytes(value.to_vec()),
    }
}

fn node(id: usize, attrs: Vec<Attribute>) -> NodeView {
    NodeView {
        id,
        tag: None,
        text: None,
        attributes: attrs,
    }
}

#[test]
fn parse_size_basic_forms() {
    assert_eq!(parse_size("auto"), Some(SizeMode::Auto));
    assert_eq!(parse_size("stretch"), Some(SizeMode::Percentage(fx(100.0))));
    assert_eq!(parse_size("50%"), Some(SizeMode::Percentage(fx(50.0))));
    assert_eq!(parse_size("12.5"), Some(SizeMode::Manual(fx(12.5))));
    assert_eq!(parse_size("abc"), None);
    assert_eq!(parse_size(""), None);
}

#[test]
fn parse_size_round_trips() {
    for s in ["auto", "50%", "12.5", "calc(100% - 20)", "stretch", "-3.25"] {
        let first = parse_size(s).unwrap();
        let rendered = first.to_text();
        let second = parse_size(&rendered).unwrap();
        assert_eq!(first, second, "round trip failed for {s} via {rendered}");
    }
}

#[test]
fn parse_calc_example() {
    assert_eq!(
        parse_calc("calc(100% - 20)"),
        Some(vec![
            CalcType::Percentage(fx(100.0)),
            CalcType::Sub,
            CalcType::Manual(fx(20.0)),
        ])
    );
}

#[test]
fn parse_calc_missing_wrapper_fails() {
    assert_eq!(parse_calc("100% - 20"), None);
    assert_eq!(parse_size("calc(100% - 20"), None);
}

#[test]
fn parse_calc_bad_token_fails() {
    assert_eq!(parse_calc("calc(1 x)"), None);
}

#[test]
fn parse_calc_all_operators() {
    assert_eq!(
        parse_calc("calc(1 + 2 * 3 / 4 - 5)"),
        Some(vec![
            CalcType::Manual(fx(1.0)),
            CalcType::Add,
            CalcType::Manual(fx(2.0)),
            CalcType::Mul,
            CalcType::Manual(fx(3.0)),
            CalcType::Div,
            CalcType::Manual(fx(4.0)),
            CalcType::Sub,
            CalcType::Manual(fx(5.0)),
        ])
    );
}

#[test]
fn size_mode_to_text_renders() {
    assert_eq!(SizeMode::Auto.to_text(), "auto");
    assert_eq!(SizeMode::Manual(fx(5.0)).to_text(), "5");
    assert_eq!(SizeMode::Percentage(fx(50.0)).to_text(), "50%");
    assert_eq!(
        SizeMode::Calculation(vec![
            CalcType::Percentage(fx(100.0)),
            CalcType::Sub,
            CalcType::Manual(fx(20.0)),
        ])
        .to_text(),
        "calc(100% - 20)"
    );
}

#[test]
fn parse_color_named_and_rgb() {
    assert_eq!(parse_color("rgb(10, 20, 30)"), Some(Color::from_rgb(10, 20, 30)));
    assert_eq!(parse_color("red"), Some(Color::from_rgb(255, 0, 0)));
    assert_eq!(parse_color("white"), Some(Color::from_rgb(255, 255, 255)));
    assert_eq!(parse_color("not-a-color"), None);
}

#[test]
fn parse_rgb_limits() {
    assert_eq!(parse_rgb("rgb(0,0,0)"), Some(Color::from_rgb(0, 0, 0)));
    assert_eq!(parse_rgb("rgb(255, 255, 255)"), Some(Color::from_rgb(255, 255, 255)));
    assert_eq!(parse_rgb("rgb(256, 0, 0)"), None);
    assert_eq!(parse_rgb("rgb(1, 2)"), None);
}

#[test]
fn parse_shadow_example() {
    let s = parse_shadow("2 2 100 5 black").unwrap();
    assert_eq!(
        s,
        ShadowSettings {
            x: fx(2.0),
            y: fx(2.0),
            intensity: 100,
            size: fx(5.0),
            color: Color::from_rgb(0, 0, 0),
        }
    );
}

#[test]
fn parse_shadow_missing_color_fails() {
    assert_eq!(parse_shadow("2 2 100 5"), None);
    assert_eq!(parse_shadow("2 2 900 5 black"), None);
}

#[test]
fn parse_closed_set_mappings() {
    assert_eq!(parse_display("center"), DisplayMode::Center);
    assert_eq!(parse_display("whatever"), DisplayMode::Normal);
    assert_eq!(parse_cursor("editable"), CursorMode::Editable);
    assert_eq!(parse_cursor("whatever"), CursorMode::Unset);
    assert_eq!(parse_text_align("center"), TextAlign::Center);
    assert_eq!(parse_text_align("justify"), TextAlign::Justify);
    assert_eq!(parse_text_align("nonsense"), TextAlign::Left);
    assert_eq!(parse_font_style("italic"), FontEmphasis::Italic);
    assert_eq!(parse_font_style("bold"), FontEmphasis::Bold);
    assert_eq!(parse_font_style("bold-italic"), FontEmphasis::BoldItalic);
    assert_eq!(parse_font_style("nonsense"), FontEmphasis::Normal);
}

#[test]
fn font_full_inheritance_fallback() {
    let mut parent = FontStyle::default();
    parent.font_size = fx(20.0);
    let mut child = FontStyle::default();
    let changed = child.reduce(&node(1, vec![]), Some(&parent));
    assert!(changed);
    assert_eq!(child.font_size, fx(20.0));
    assert_eq!(child.font_family, "Fira Sans");
}

#[test]
fn font_own_attributes_override() {
    let parent = FontStyle::default();
    let mut child = FontStyle::default();
    child.reduce(
        &node(
            1,
            vec![
                text_attr("color", "red"),
                text_attr("font_size", "20"),
                text_attr("align", "center"),
                text_attr("max_lines", "3"),
                text_attr("font_style", "bold"),
            ],
        ),
        Some(&parent),
    );
    assert_eq!(child.color, Color::from_rgb(255, 0, 0));
    assert_eq!(child.font_size, fx(20.0));
    assert_eq!(child.align, TextAlign::Center);
    assert_eq!(child.max_lines, Some(3));
    assert_eq!(child.font_style, FontEmphasis::Bold);
}

#[test]
fn font_malformed_field_keeps_inherited() {
    let mut parent = FontStyle::default();
    parent.font_size = fx(20.0);
    let mut child = FontStyle::default();
    child.reduce(&node(1, vec![text_attr("font_size", "oops")]), Some(&parent));
    assert_eq!(child.font_size, fx(20.0));
}

#[test]
fn size_change_detection_and_dirty_sink() {
    let mut dirty = DirtyNodes::new();
    let mut size = Size::default();
    let n = node(7, vec![text_attr("width", "50%")]);
    let changed = size.reduce(&n, None, &mut dirty);
    assert!(changed);
    assert_eq!(size.width, SizeMode::Percentage(fx(50.0)));
    assert_eq!(dirty.entries, vec![7]);

    // Identical attributes again: no change, no dirty call.
    let n2 = node(7, vec![text_attr("width", "50%")]);
    let changed = size.reduce(&n2, None, &mut dirty);
    assert!(!changed);
    assert_eq!(dirty.entries, vec![7]);

    // A different width: one more dirty call carrying this node's identity.
    let n3 = node(7, vec![text_attr("width", "60%")]);
    let changed = size.reduce(&n3, None, &mut dirty);
    assert!(changed);
    assert_eq!(size.width, SizeMode::Percentage(fx(60.0)));
    assert_eq!(dirty.entries, vec![7, 7]);
}

#[test]
fn size_padding_splits_in_four() {
    let mut dirty = DirtyNodes::new();
    let mut size = Size::default();
    size.reduce(&node(1, vec![text_attr("padding", "10")]), None, &mut dirty);
    assert_eq!(size.padding, (fx(5.0), fx(5.0), fx(5.0), fx(5.0)));
}

#[test]
fn size_direction_and_tag_defaults() {
    let mut dirty = DirtyNodes::new();
    let mut size = Size::default();
    size.reduce(&node(1, vec![text_attr("direction", "horizontal")]), None, &mut dirty);
    assert_eq!(size.direction, DirectionMode::Horizontal);

    let mut size = Size::default();
    let n = NodeView {
        id: 2,
        tag: Some("label".to_string()),
        text: None,
        attributes: vec![],
    };
    size.reduce(&n, None, &mut dirty);
    assert_eq!(size.direction, DirectionMode::Both);

    let mut size = Size::default();
    let n = NodeView {
        id: 3,
        tag: Some("rect".to_string()),
        text: Some("hi".to_string()),
        attributes: vec![],
    };
    size.reduce(&n, None, &mut dirty);
    assert_eq!(size.direction, DirectionMode::Both);
}

#[test]
fn size_bad_padding_is_reported() {
    let mut dirty = DirtyNodes::new();
    let mut size = Size::default();
    let r = size.checked_reduce(&node(1, vec![text_attr("padding", "oops")]), None, &mut dirty);
    assert_eq!(r, Err(StateError::BadPadding));
    assert!(dirty.entries.is_empty());
}

#[test]
fn size_expanded_fills_parent() {
    let e = Size::expanded();
    assert_eq!(e.width, SizeMode::Percentage(fx(100.0)));
    assert_eq!(e.height, SizeMode::Percentage(fx(100.0)));
    assert_eq!(e.min_width, SizeMode::Manual(fx(0.0)));
    assert_eq!(e.direction, DirectionMode::Both);
}

#[test]
fn scroll_reads_offsets_and_marks_dirty() {
    let mut dirty = DirtyNodes::new();
    let mut scroll = Scroll::default();
    let changed = scroll
        .checked_reduce(
            &node(9, vec![text_attr("scroll_x", "1.5"), text_attr("scroll_y", "-2")]),
            None,
            &mut dirty,
        )
        .unwrap();
    assert!(changed);
    assert_eq!(scroll.scroll_x, fx(1.5));
    assert_eq!(scroll.scroll_y, fx(-2.0));
    assert_eq!(scroll.id, 9);
    assert_eq!(dirty.entries, vec![9]);
}

#[test]
fn scroll_bad_value_is_reported() {
    let mut dirty = DirtyNodes::new();
    let mut scroll = Scroll::default();
    let r = scroll.checked_reduce(&node(1, vec![text_attr("scroll_x", "oops")]), None, &mut dirty);
    assert_eq!(r, Err(StateError::BadScroll));
    assert_eq!(scroll, Scroll::default());
    assert!(dirty.entries.is_empty());
}

#[test]
fn style_reads_own_attributes() {
    let mut style = Style::default();
    style.reduce(&node(
        1,
        vec![
            text_attr("background", "blue"),
            text_attr("layer", "-2"),
            text_attr("radius", "4"),
            text_attr("shadow", "1 1 50 3 red"),
            bytes_attr("image_data", &[1, 2, 3]),
            text_attr("display", "center"),
        ],
    ));
    assert_eq!(style.background, Color::from_rgb(0, 0, 255));
    assert_eq!(style.relative_layer, -2);
    assert_eq!(style.radius, fx(4.0));
    assert_eq!(style.shadow.intensity, 50);
    assert_eq!(style.image_data, Some(vec![1, 2, 3]));
    assert_eq!(style.display, DisplayMode::Center);
}

#[test]
fn style_svg_content_becomes_bytes() {
    let mut style = Style::default();
    style.reduce(&node(1, vec![text_attr("svg_content", "<svg/>")]));
    assert_eq!(style.svg_data, Some(b"<svg/>".to_vec()));
}

#[test]
fn style_change_flag_ignores_svg_and_display() {
    let mut style = Style::default();
    // Only display differs from the previous state: the published flag stays false.
    let changed = style.reduce(&node(1, vec![text_attr("display", "center")]));
    assert!(!changed);
    assert_eq!(style.display, DisplayMode::Center);

    let changed = style.reduce(&node(1, vec![text_attr("svg_content", "<svg/>")]));
    assert!(!changed);

    let changed = style.reduce(&node(1, vec![text_attr("background", "red")]));
    assert!(changed);
}

#[test]
fn cursor_none_keeps_inherited_position() {
    let mut parent = CursorSettings::default();
    parent.position = Some(3);
    let mut child = CursorSettings::default();
    child
        .checked_reduce(&node(1, vec![text_attr("cursor_index", "none")]), Some(&parent))
        .unwrap();
    assert_eq!(child.position, Some(3));
}

#[test]
fn cursor_own_index_wins() {
    let mut parent = CursorSettings::default();
    parent.position = Some(3);
    let mut child = CursorSettings::default();
    child
        .checked_reduce(&node(1, vec![text_attr("cursor_index", "7")]), Some(&parent))
        .unwrap();
    assert_eq!(child.position, Some(7));
}

#[test]
fn cursor_other_attributes() {
    let mut c = CursorSettings::default();
    c.checked_reduce(
        &node(
            1,
            vec![
                text_attr("cursor_color", "black"),
                text_attr("cursor_mode", "editable"),
                text_attr("cursor_id", "4"),
            ],
        ),
        None,
    )
    .unwrap();
    assert_eq!(c.color, Color::from_rgb(0, 0, 0));
    assert_eq!(c.mode, CursorMode::Editable);
    assert_eq!(c.id, Some(4));
}

#[test]
fn cursor_bad_index_is_reported() {
    let mut c = CursorSettings::default();
    let r = c.checked_reduce(&node(1, vec![text_attr("cursor_index", "oops")]), None);
    assert_eq!(r, Err(StateError::BadCursorIndex));
    assert_eq!(c, CursorSettings::default());
}

fn cursor_reference() -> CursorReference {
    let (tx, _rx) = tokio::sync::mpsc::unbounded_channel();
    CursorReference {
        agent: tx,
        positions: std::sync::Arc::new(std::sync::Mutex::new(None)),
        id: std::sync::Arc::new(std::sync::Mutex::new(None)),
    }
}

#[test]
fn references_inherit_cursor_but_not_node_ref() {
    let (tx, _rx) = tokio::sync::mpsc::unbounded_channel();
    let mut parent = References::default();
    let n = NodeView {
        id: 1,
        tag: None,
        text: None,
        attributes: vec![
            Attribute {
                name: "reference".to_string(),
                value: AttrValue::SizeRef(tx),
            },
            Attribute {
                name: "cursor_reference".to_string(),
                value: AttrValue::CursorRef(cursor_reference()),
            },
        ],
    };
    let changed = parent.reduce(n, None);
    assert!(!changed);
    assert!(parent.node_ref.is_some());
    assert!(parent.cursor_ref.is_some());

    // The child inherits the cursor handle but never the geometry handle.
    let mut child = References::default();
    let changed = child.reduce(node(2, vec![]), Some(&parent));
    assert!(!changed);
    assert!(child.node_ref.is_none());
    assert!(child.cursor_ref.is_some());
}

#[test]
fn node_state_set_size() {
    let state = NodeState::default();
    let state = state.set_size(Size::expanded());
    assert_eq!(state.size.direction, DirectionMode::Both);
    assert_eq!(state.scroll, Scroll::default());
}

#[test]
fn fixed_parse_and_render() {
    assert_eq!(parse_size("1.5"), Some(SizeMode::Manual(fx(1.5))));
    assert_eq!(parse_size("+7"), Some(SizeMode::Manual(fx(7.0))));
    assert_eq!(parse_size("-0.25"), Some(SizeMode::Manual(fx(-0.25))));
    assert_eq!(SizeMode::Manual(fx(1.5)).to_text(), "1.5");
    assert_eq!(SizeMode::Manual(fx(-0.25)).to_text(), "-0.25");
    // More than six fraction digits is rejected, as is an exponent form.
    assert_eq!(parse_size("0.1234567"), None);
    assert_eq!(parse_size("1e3"), None);
}

#[test]
fn fixed_half_is_exact() {
    assert_eq!(fx(10.0).half(), fx(5.0));
    assert_eq!(fx(-3.0).half(), fx(-1.5));
}

#[test]
fn parse_calc_empty_expression() {
    assert_eq!(parse_calc("calc()"), Some(vec![]));
}

#[test]
fn parse_shadow_extra_tokens_ignored() {
    let s = parse_shadow("2 2 100 5 black extra").unwrap();
    assert_eq!(s.intensity, 100);
    assert_eq!(s.color, Color::from_rgb(0, 0, 0));
}

#[test]
fn parse_rgb_extra_components_ignored() {
    assert_eq!(parse_rgb("rgb(1, 2, 3, 4)"), Some(Color::from_rgb(1, 2, 3)));
    assert_eq!(parse_color("gray"), Some(Color::from_rgb(128, 128, 128)));
}

#[test]
fn scroll_rerun_is_clean() {
    let mut dirty = DirtyNodes::new();
    let mut scroll = Scroll::default();
    scroll
        .checked_reduce(&node(4, vec![text_attr("scroll_y", "8")]), None, &mut dirty)
        .unwrap();
    assert_eq!(dirty.entries, vec![4]);
    let changed = scroll
        .checked_reduce(&node(4, vec![text_attr("scroll_y", "8")]), None, &mut dirty)
        .unwrap();
    assert!(!changed);
    assert_eq!(dirty.entries, vec![4]);
}

#[test]
fn font_line_height_and_family_override() {
    let parent = FontStyle::default();
    let mut child = FontStyle::default();
    child.reduce(
        &node(
            1,
            vec![text_attr("font_family", "Inter"), text_attr("line_height", "1.5")],
        ),
        Some(&parent),
    );
    assert_eq!(child.font_family, "Inter");
    assert_eq!(child.line_height, fx(1.5));
}

#[test]
fn layer_parses_signed_sixteen_bit() {
    let mut style = Style::default();
    style.reduce(&node(1, vec![text_attr("layer", "-32768")]));
    assert_eq!(style.relative_layer, -32768);
    let mut style = Style::default();
    style.reduce(&node(1, vec![text_attr("layer", "40000")]));
    assert_eq!(style.relative_layer, 0);
}
