use ratatui_declare::lines::{scan_lines, Line};
use ratatui_declare::parse::{parse_lines, parse_text, TemplateParserError};
use ratatui_declare::region::Direction;
use ratatui_declare::text::{classify_line, LineKind};
use ratatui_declare::widget_wrappers::wrapper_widget::{
    get_indentation_level, load_config, load_line, WrapperWidget,
};
use ratatui_declare::widget_wrappers::wrapper_widgets::WrapperWidgets;

fn layout_of(widget: &WrapperWidgets) -> (Direction, usize) {
    match widget {
        WrapperWidgets::Layout(layout) => (layout.direction(), layout.children().len()),
        WrapperWidgets::Paragraph(_) => panic!("expected a layout"),
    }
}

fn child(widget: &WrapperWidgets, index: usize) -> &WrapperWidgets {
    match widget {
        WrapperWidgets::Layout(layout) => &layout.children()[index],
        WrapperWidgets::Paragraph(_) => panic!("expected a layout"),
    }
}

fn text_of(widget: &WrapperWidgets) -> String {
    match widget {
        WrapperWidgets::Paragraph(paragraph) => paragraph.text().to_string(),
        WrapperWidgets::Layout(_) => panic!("expected a paragraph"),
    }
}

#[test]
fn test_template_empty() {
    let test = r#""#;
    let e = parse_text(test).unwrap_err();
    assert_eq!(e, TemplateParserError::NoRoots);
}

#[test]
fn test_template_too_many_roots() {
    let test = r#"
Layout:
    Paragraph:
        text: "Hello!"
Layout:
    Paragraph:
        text: "Hello!"
"#;
    let e = parse_text(test).unwrap_err();
    assert_eq!(e, TemplateParserError::TooManyRoots(5, "Layout:".to_string()));
}

#[test]
fn indented_root_is_rejected() {
    let test = r#"
    Layout:
        Paragraph:
            text: "Hello!"
    Layout:
        Paragraph:
            text: "Hello!"
    "#;
    let e = parse_text(test).unwrap_err();
    assert_eq!(e, TemplateParserError::InvalidIndentation(2, 0, "    Layout:".to_string()));
}

#[test]
fn only_blank_and_comment_lines_have_no_root() {
    let e = parse_text("\n   \n// nothing here\n    // nor here\n\t\n").unwrap_err();
    assert_eq!(e, TemplateParserError::NoRoots);
}

#[test]
fn end_to_end_template_compiles() {
    let root = parse_text("Layout:\n    Paragraph:\n        text: \"{{hello}}{{world}}\"\n").unwrap();
    assert_eq!(layout_of(&root), (Direction::Vertical, 1));
    assert_eq!(text_of(child(&root, 0)), "\"{{hello}}{{world}}\"");
}

#[test]
fn attributes_and_children_in_order() {
    let text = "Layout:\n    direction: horizontal\n    Paragraph:\n        text: one\n    Layout:\n        direction: vertical\n        Paragraph:\n        Paragraph:\n            text: two: three\n    Paragraph:\n";
    let root = parse_text(text).unwrap();
    assert_eq!(layout_of(&root), (Direction::Horizontal, 3));
    assert_eq!(text_of(child(&root, 0)), "one");
    assert_eq!(layout_of(child(&root, 1)), (Direction::Vertical, 2));
    assert_eq!(text_of(child(child(&root, 1), 0)), "");
    assert_eq!(text_of(child(child(&root, 1), 1)), "two: three");
    assert_eq!(text_of(child(&root, 2)), "");
}

#[test]
fn comments_and_blank_lines_are_skipped_at_every_level() {
    let text = "// head\n\nLayout:\n    // inside\n\n    Paragraph:\n            // deep\n        text: x\n// tail\n";
    let root = parse_text(text).unwrap();
    assert_eq!(layout_of(&root), (Direction::Vertical, 1));
    assert_eq!(text_of(child(&root, 0)), "x");
}

#[test]
fn carriage_returns_before_line_feeds_end_lines() {
    let root = parse_text("Layout:\r\n    Paragraph:\r\n        text: x\r\n").unwrap();
    assert_eq!(text_of(child(&root, 0)), "x");
    let lines = scan_lines("a\r\nb\r");
    assert_eq!(lines.len(), 2);
    assert_eq!(lines[0].text, "a");
    assert_eq!(lines[1].text, "b\r");
}

#[test]
fn a_line_one_step_deeper_than_expected_joins_the_block() {
    let root = parse_text("Layout:\n        Paragraph:\n").unwrap();
    assert_eq!(layout_of(&root), (Direction::Vertical, 1));
}

#[test]
fn second_root_is_named_with_its_line() {
    let e = parse_text("Layout:\n\n// c\nLayout:\n").unwrap_err();
    assert_eq!(e, TemplateParserError::TooManyRoots(4, "Layout:".to_string()));
    let e = parse_text("Layout:\n    Paragraph:\ntext: x").unwrap_err();
    assert_eq!(e, TemplateParserError::TooManyRoots(3, "text: x".to_string()));
}

#[test]
fn indentation_must_be_a_multiple_of_four() {
    let e = parse_text("Layout:\n      Paragraph:\n").unwrap_err();
    assert_eq!(e, TemplateParserError::InvalidIndentation(2, 4, "      Paragraph:".to_string()));
    let e = parse_text("Layout:\n    Layout:\n         Paragraph:\n").unwrap_err();
    assert_eq!(e, TemplateParserError::InvalidIndentation(3, 8, "         Paragraph:".to_string()));
    let e = parse_text("Layout:\n  Paragraph:\n").unwrap_err();
    assert_eq!(e, TemplateParserError::InvalidIndentation(2, 0, "  Paragraph:".to_string()));
}

#[test]
fn indentation_must_not_jump_more_than_one_step() {
    let e = parse_text("Layout:\n            Paragraph:\n").unwrap_err();
    assert_eq!(
        e,
        TemplateParserError::InvalidIndentation(2, 4, "            Paragraph:".to_string())
    );
}

#[test]
fn a_tab_is_no_indentation() {
    assert_eq!(get_indentation_level("\tParagraph:"), 0);
    let e = parse_text("Layout:\n\tParagraph:\n").unwrap_err();
    assert_eq!(e, TemplateParserError::TooManyRoots(2, "\tParagraph:".to_string()));
}

#[test]
fn attribute_after_child_is_late() {
    let e = parse_text("Layout:\n    Paragraph:\n    direction: horizontal\n").unwrap_err();
    assert_eq!(e, TemplateParserError::LateAttribute(3, "    direction: horizontal".to_string()));
    let root = parse_text("Layout:\n    direction: horizontal\n    Paragraph:\n").unwrap();
    assert_eq!(layout_of(&root), (Direction::Horizontal, 1));
}

#[test]
fn leaf_cannot_contain_children() {
    let e = parse_text("Layout:\n    Paragraph:\n        Paragraph:\n").unwrap_err();
    assert_eq!(e, TemplateParserError::AddWidgetToNonContainer(3));
    let e = parse_text("Layout:\n    Paragraph:\n        Layout:\n            Paragraph:\n").unwrap_err();
    assert_eq!(e, TemplateParserError::AddWidgetToNonContainer(3));
}

#[test]
fn root_must_be_a_container() {
    let e = parse_text("Paragraph:\n    text: x\n").unwrap_err();
    assert_eq!(e, TemplateParserError::RootWidget(1, "Paragraph".to_string()));
}

#[test]
fn root_must_be_a_declaration() {
    let e = parse_text("\ndirection: horizontal\n").unwrap_err();
    assert_eq!(
        e,
        TemplateParserError::InvalidWidgetDeclaration(2, "direction: horizontal".to_string())
    );
    let e = parse_text("Layout").unwrap_err();
    assert_eq!(e, TemplateParserError::InvalidWidgetDeclaration(1, "Layout".to_string()));
}

#[test]
fn unknown_kinds_are_rejected() {
    let e = parse_text("Box:\n").unwrap_err();
    assert_eq!(e, TemplateParserError::InvalidWidgetType(1, "Box".to_string()));
    let e = parse_text("Layout:\n    Button :\n").unwrap_err();
    assert_eq!(e, TemplateParserError::InvalidWidgetType(2, "Button".to_string()));
    let e = parse_text("Layout:\n    layout:\n").unwrap_err();
    assert_eq!(e, TemplateParserError::InvalidWidgetType(2, "layout".to_string()));
}

#[test]
fn a_line_without_colon_has_no_context() {
    let e = parse_text("Layout:\n    Paragraph\n").unwrap_err();
    assert_eq!(e, TemplateParserError::InvalidContext(2, "    Paragraph".to_string()));
}

#[test]
fn unknown_attributes_are_rejected() {
    let e = parse_text("Layout:\n    text: x\n").unwrap_err();
    assert_eq!(
        e,
        TemplateParserError::InvalidWidgetAttributeName(2, "Layout".to_string(), "text".to_string())
    );
    let e = parse_text("Layout:\n    Paragraph:\n        direction: vertical\n").unwrap_err();
    assert_eq!(
        e,
        TemplateParserError::InvalidWidgetAttributeName(
            3,
            "Paragraph".to_string(),
            "direction".to_string()
        )
    );
}

#[test]
fn invalid_attribute_values_are_rejected() {
    let e = parse_text("Layout:\n    direction: diagonal\n").unwrap_err();
    assert_eq!(
        e,
        TemplateParserError::InvalidWidgetAttributeValue(
            2,
            "Layout".to_string(),
            "direction".to_string(),
            "diagonal".to_string()
        )
    );
    let e = parse_text("Layout:\n    direction: Horizontal\n").unwrap_err();
    assert_eq!(
        e,
        TemplateParserError::InvalidWidgetAttributeValue(
            2,
            "Layout".to_string(),
            "direction".to_string(),
            "Horizontal".to_string()
        )
    );
}

#[test]
fn errors_inside_a_nested_block_come_before_the_parent_rejects_the_child() {
    let e = parse_text("Layout:\n    Paragraph:\n        Paragraph:\n            nonsense\n").unwrap_err();
    assert_eq!(e, TemplateParserError::InvalidContext(4, "            nonsense".to_string()));
}

#[test]
fn lines_keep_their_numbers_and_indentation() {
    let lines = scan_lines("\n// c\nLayout:\n\n    a: b  \n");
    assert_eq!(lines.len(), 2);
    assert_eq!((lines[0].text.as_str(), lines[0].indentation, lines[0].number), ("Layout:", 0, 3));
    assert_eq!((lines[1].text.as_str(), lines[1].indentation, lines[1].number), ("    a: b  ", 4, 5));
    assert!(scan_lines("").is_empty());
    assert_eq!(scan_lines("x").len(), 1);
}

#[test]
fn lines_are_classified_by_their_colons() {
    assert!(matches!(classify_line("  Layout :  "), LineKind::Declaration { name } if name == "Layout"));
    assert!(matches!(classify_line(":"), LineKind::Declaration { name } if name.is_empty()));
    assert!(matches!(
        classify_line(" a : b : c "),
        LineKind::Attribute { key, value } if key == "a" && value == "b : c"
    ));
    assert!(matches!(
        classify_line(": b"),
        LineKind::Attribute { key, value } if key.is_empty() && value == "b"
    ));
    assert!(matches!(classify_line("plain"), LineKind::Other));
    assert!(matches!(classify_line(""), LineKind::Other));
}

#[test]
fn indentation_counts_leading_spaces() {
    assert_eq!(get_indentation_level(""), 0);
    assert_eq!(get_indentation_level("abc"), 0);
    assert_eq!(get_indentation_level("    abc  "), 4);
    assert_eq!(get_indentation_level("   "), 3);
    assert_eq!(get_indentation_level("  \t  x"), 2);
}

#[test]
fn registry_knows_two_kinds() {
    assert!(matches!(WrapperWidgets::resolve("Layout"), Some(WrapperWidgets::Layout(_))));
    assert!(matches!(WrapperWidgets::resolve("Paragraph"), Some(WrapperWidgets::Paragraph(_))));
    assert!(WrapperWidgets::resolve("").is_none());
    assert!(WrapperWidgets::resolve("Layout ").is_none());
    assert!(WrapperWidgets::resolve("Layout").unwrap().is_container());
    assert!(!WrapperWidgets::resolve("Paragraph").unwrap().is_container());
}

#[test]
fn widgets_take_attributes_and_children() {
    let mut layout = WrapperWidgets::resolve("Layout").unwrap();
    assert_eq!(layout_of(&layout), (Direction::Vertical, 0));
    assert_eq!(layout.load_value("direction", "horizontal", 7), Ok(()));
    assert_eq!(layout_of(&layout), (Direction::Horizontal, 0));
    let mut paragraph = WrapperWidgets::resolve("Paragraph").unwrap();
    assert_eq!(paragraph.load_value("text", "\"hi\"", 8), Ok(()));
    assert_eq!(
        paragraph.add_child(WrapperWidgets::resolve("Paragraph").unwrap(), 9),
        Err(TemplateParserError::AddWidgetToNonContainer(9))
    );
    assert_eq!(layout.add_child(paragraph, 8), Ok(()));
    assert_eq!(layout_of(&layout), (Direction::Horizontal, 1));
    assert_eq!(text_of(child(&layout, 0)), "\"hi\"");
}

#[test]
fn parsing_scanned_lines_is_parsing_the_text() {
    let text = "Layout:\n    Paragraph:\n        text: x\n";
    let root = parse_lines(&scan_lines(text)).unwrap();
    assert_eq!(text_of(child(&root, 0)), "x");
    assert_eq!(parse_lines(&Vec::new()).unwrap_err(), TemplateParserError::NoRoots);
}

fn line(text: &str, number: usize) -> Line {
    Line { text: text.to_string(), indentation: get_indentation_level(text), number }
}

#[test]
fn a_rejected_line_leaves_widget_and_flag_as_they_were() {
    let mut layout = WrapperWidgets::resolve("Layout").unwrap();
    let lines = vec![line("hello", 2)];
    let mut cursor = 0;
    let mut added = false;
    let result = load_line(&mut layout, &lines, &mut cursor, 4, &mut added);
    assert_eq!(result, Err(TemplateParserError::InvalidContext(2, "hello".to_string())));
    assert_eq!(layout_of(&layout), (Direction::Vertical, 0));
    assert!(!added);
    assert_eq!(cursor, 1);

    let lines = vec![line("Button:", 2)];
    let mut cursor = 0;
    let result = load_line(&mut layout, &lines, &mut cursor, 4, &mut added);
    assert_eq!(result, Err(TemplateParserError::InvalidWidgetType(2, "Button".to_string())));
    assert_eq!(layout_of(&layout), (Direction::Vertical, 0));
    assert!(!added);

    let lines = vec![line("    direction: horizontal", 5)];
    let mut cursor = 0;
    let mut added = true;
    let result = load_line(&mut layout, &lines, &mut cursor, 4, &mut added);
    assert_eq!(
        result,
        Err(TemplateParserError::LateAttribute(5, "    direction: horizontal".to_string()))
    );
    assert_eq!(layout_of(&layout), (Direction::Vertical, 0));
    assert!(added);

    let lines = vec![line("    direction: sideways", 5)];
    let mut cursor = 0;
    let mut added = false;
    assert!(load_line(&mut layout, &lines, &mut cursor, 4, &mut added).is_err());
    assert_eq!(layout_of(&layout), (Direction::Vertical, 0));
    assert!(!added);
}

#[test]
fn a_leaf_that_rejects_a_child_keeps_its_text() {
    let mut paragraph = WrapperWidgets::resolve("Paragraph").unwrap();
    assert_eq!(paragraph.load_value("text", "kept", 1), Ok(()));
    let lines = vec![line("        Paragraph:", 3), line("            text: x", 4)];
    let mut cursor = 0;
    let mut added = false;
    let result = load_line(&mut paragraph, &lines, &mut cursor, 8, &mut added);
    assert_eq!(result, Err(TemplateParserError::AddWidgetToNonContainer(3)));
    assert_eq!(text_of(&paragraph), "kept");
    assert!(!added);
    assert_eq!(cursor, 2);
}

#[test]
fn a_line_is_read_with_the_block_it_opens() {
    let mut layout = WrapperWidgets::resolve("Layout").unwrap();
    let lines = vec![
        line("    Paragraph:", 2),
        line("        text: x", 3),
        line("    Paragraph:", 4),
    ];
    let mut cursor = 0;
    let mut added = false;
    assert_eq!(load_line(&mut layout, &lines, &mut cursor, 4, &mut added), Ok(()));
    assert_eq!(cursor, 2);
    assert!(added);
    assert_eq!(layout_of(&layout), (Direction::Vertical, 1));
    assert_eq!(text_of(child(&layout, 0)), "x");
    let mut cursor = 3;
    assert_eq!(load_line(&mut layout, &lines, &mut cursor, 4, &mut added), Ok(()));
    assert_eq!(cursor, 3);
    assert_eq!(layout_of(&layout), (Direction::Vertical, 1));
}

#[test]
fn a_rejected_block_leaves_the_widget_as_far_as_it_was_read() {
    let mut layout = WrapperWidgets::resolve("Layout").unwrap();
    let lines = vec![line("      Paragraph:", 2)];
    let mut cursor = 0;
    let result = load_config(&mut layout, &lines, &mut cursor, 4);
    assert_eq!(
        result,
        Err(TemplateParserError::InvalidIndentation(2, 4, "      Paragraph:".to_string()))
    );
    assert_eq!(layout_of(&layout), (Direction::Vertical, 0));
    assert_eq!(cursor, 0);

    let lines = vec![line("    bogus", 1), line("      Paragraph:", 2)];
    let mut cursor = 0;
    let result = load_config(&mut layout, &lines, &mut cursor, 4);
    assert_eq!(result, Err(TemplateParserError::InvalidContext(1, "    bogus".to_string())));
    assert_eq!(layout_of(&layout), (Direction::Vertical, 0));

    let lines = vec![
        line("    direction: horizontal", 2),
        line("    Paragraph:", 3),
        line("    bogus", 4),
        line("    Paragraph:", 5),
    ];
    let mut cursor = 0;
    let result = load_config(&mut layout, &lines, &mut cursor, 4);
    assert_eq!(result, Err(TemplateParserError::InvalidContext(4, "    bogus".to_string())));
    assert_eq!(layout_of(&layout), (Direction::Horizontal, 1));
    assert_eq!(cursor, 3);
}

#[test]
fn a_block_ends_at_a_line_indented_less() {
    let mut layout = WrapperWidgets::resolve("Layout").unwrap();
    let lines = vec![line("        Paragraph:", 2), line("    Paragraph:", 3)];
    let mut cursor = 0;
    assert_eq!(load_config(&mut layout, &lines, &mut cursor, 8), Ok(()));
    assert_eq!(cursor, 1);
    assert_eq!(layout_of(&layout), (Direction::Vertical, 1));
    let mut cursor = 7;
    assert_eq!(load_config(&mut layout, &lines, &mut cursor, 8), Ok(()));
    assert_eq!(cursor, 7);
}

#[test]
fn the_root_of_a_compiled_tree_is_a_container() {
    for text in ["Layout:\n", "Layout:\n    Paragraph:\n", "Layout:\n    Layout:\n"] {
        assert!(parse_text(text).unwrap().is_container());
    }
}
