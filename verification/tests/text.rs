use ratatui_declare::parse::parse_text;
use ratatui_declare::region::Direction;
use ratatui_declare::text::{
    count_indentation, is_significant_line, is_whitespace_char, same_text, to_chars,
};
use ratatui_declare::widget_wrappers::wrapper_widgets::WrapperWidgets;

fn write(widget: &WrapperWidgets, indent: usize, out: &mut String) {
    let pad = " ".repeat(indent);
    match widget {
        WrapperWidgets::Layout(layout) => {
            out.push_str(&format!("{}Layout:\n", pad));
            let word = match layout.direction() {
                Direction::Horizontal => "horizontal",
                Direction::Vertical => "vertical",
            };
            out.push_str(&format!("{}    direction: {}\n", pad, word));
            for child in layout.children() {
                write(child, indent + 4, out);
            }
        }
        WrapperWidgets::Paragraph(paragraph) => {
            out.push_str(&format!("{}Paragraph:\n", pad));
            if !paragraph.text().is_empty() {
                out.push_str(&format!("{}    text: {}\n", pad, paragraph.text()));
            }
        }
    }
}

#[test]
fn canonical_template_compiles_to_the_same_tree() {
    let canonical = "Layout:\n    direction: horizontal\n    Paragraph:\n        text: \"{{hello}}: a\"\n    Layout:\n        direction: vertical\n        Paragraph:\n        Layout:\n            direction: vertical\n    Paragraph:\n        text: x\n";
    let tree = parse_text(canonical).unwrap();
    let mut written = String::new();
    write(&tree, 0, &mut written);
    assert_eq!(written, canonical);
    let again = parse_text(&written).unwrap();
    let mut rewritten = String::new();
    write(&again, 0, &mut rewritten);
    assert_eq!(rewritten, canonical);
}

#[test]
fn loosely_written_template_compiles_to_the_tree_of_its_canonical_form() {
    let loose = "// a form\n\nLayout :\n\n        Paragraph:   \n            text:   x  \n    Paragraph:\n";
    let tree = parse_text(loose).unwrap();
    let mut written = String::new();
    write(&tree, 0, &mut written);
    assert_eq!(
        written,
        "Layout:\n    direction: vertical\n    Paragraph:\n        text: x\n    Paragraph:\n"
    );
}

#[test]
fn white_space_is_what_unicode_classes_as_such() {
    for c in [
        '\t', '\n', '\u{0B}', '\u{0C}', '\r', ' ', '\u{85}', '\u{A0}', '\u{1680}', '\u{2000}',
        '\u{2005}', '\u{200A}', '\u{2028}', '\u{2029}', '\u{202F}', '\u{205F}', '\u{3000}',
    ] {
        assert!(is_whitespace_char(c));
    }
    for c in ['a', ':', '/', '\u{08}', '\u{0E}', '\u{200B}', '\u{1F}', '\u{FEFF}', '\u{2060}'] {
        assert!(!is_whitespace_char(c));
    }
    for code in 0..0x3100u32 {
        if let Some(c) = char::from_u32(code) {
            assert_eq!(is_whitespace_char(c), c.is_whitespace());
        }
    }
}

#[test]
fn characters_of_a_string() {
    assert_eq!(to_chars("aé:"), vec!['a', 'é', ':']);
    assert!(to_chars("").is_empty());
    assert_eq!(count_indentation(&to_chars("  é")), 2);
}

#[test]
fn same_text_compares_characters() {
    assert!(same_text("", ""));
    assert!(same_text("Layout", "Layout"));
    assert!(!same_text("Layout", "layout"));
    assert!(!same_text("Layout", "Layou"));
    assert!(!same_text("a", ""));
}

#[test]
fn significant_lines_are_neither_blank_nor_comments() {
    assert!(is_significant_line(&to_chars("Layout:")));
    assert!(is_significant_line(&to_chars("  / x")));
    assert!(is_significant_line(&to_chars("a // b")));
    assert!(is_significant_line(&to_chars("/")));
    assert!(!is_significant_line(&to_chars("")));
    assert!(!is_significant_line(&to_chars(" \t ")));
    assert!(!is_significant_line(&to_chars("//")));
    assert!(!is_significant_line(&to_chars("   // x")));
    assert!(!is_significant_line(&to_chars("\t//x")));
}
