use ratatui::backend::TestBackend;
use ratatui::Terminal;
use ratatui_declare::parse::parse_text;
use ratatui_declare::region::{split, Direction, Region};
use ratatui_declare::replacements::{interpolate, unquote, Replacements};
use ratatui_declare::widget_wrappers::wrapper_widget::{set_replacements, WrapperWidget};

fn hello_world() -> Replacements {
    let mut replacements = Replacements::new();
    replacements.insert("hello", "Hello, ");
    replacements.insert("world", "World!");
    replacements
}

fn row(terminal: &Terminal<TestBackend>, y: u16, from: u16, to: u16) -> String {
    let buffer = terminal.backend().buffer();
    let mut text = String::new();
    for x in from..to {
        text.push_str(buffer[(x, y)].symbol());
    }
    text
}

#[test]
fn interpolation_is_exact() {
    let text = set_replacements("\"{{hello}}{{world}}\"".to_string(), &hello_world());
    assert_eq!(text, "Hello, World!");
}

#[test]
fn absent_keys_are_left_verbatim() {
    let text = interpolate("{{hello}}{{name}}{{world}}", &hello_world());
    assert_eq!(text, "Hello, {{name}}World!");
    assert_eq!(interpolate("{{hello}}", &Replacements::new()), "{{hello}}");
}

#[test]
fn inserted_text_is_not_read_again() {
    let mut replacements = Replacements::new();
    replacements.insert("a", "{{b}}");
    replacements.insert("b", "{{a}}");
    assert_eq!(interpolate("{{a}}-{{b}}", &replacements), "{{b}}-{{a}}");
}

#[test]
fn tokens_close_at_the_nearest_braces() {
    let mut replacements = Replacements::new();
    replacements.insert("a", "A");
    assert_eq!(interpolate("{{{a}}", &replacements), "{A");
    assert_eq!(interpolate("{{x{{a}}}}", &replacements), "{{xA}}");
    assert_eq!(interpolate("{{a}", &replacements), "{{a}");
    assert_eq!(interpolate("{{a}}}", &replacements), "A}");
    assert_eq!(interpolate("{a}}", &replacements), "{a}}");
    assert_eq!(interpolate("{{ a }}", &replacements), "{{ a }}");
    assert_eq!(interpolate("", &replacements), "");
}

#[test]
fn a_later_insert_replaces_an_earlier_one() {
    let mut replacements = Replacements::new();
    assert!(replacements.get("k").is_none());
    replacements.insert("k", "one");
    replacements.insert("other", "x");
    assert_eq!(replacements.get("k").map(|s| s.as_str()), Some("one"));
    replacements.insert("k", "two");
    assert_eq!(replacements.get("k").map(|s| s.as_str()), Some("two"));
    assert_eq!(replacements.get("other").map(|s| s.as_str()), Some("x"));
    assert_eq!(interpolate("{{k}}", &replacements), "two");
}

#[test]
fn the_empty_key_is_a_key() {
    let mut replacements = Replacements::new();
    replacements.insert("", "nothing");
    assert_eq!(interpolate("{{}}", &replacements), "nothing");
}

#[test]
fn quotes_are_stripped_only_in_pairs() {
    assert_eq!(unquote("\"abc\"".to_string()), "abc");
    assert_eq!(unquote("\"\"".to_string()), "");
    assert_eq!(unquote("\"".to_string()), "\"");
    assert_eq!(unquote("\"abc".to_string()), "\"abc");
    assert_eq!(unquote("abc\"".to_string()), "abc\"");
    assert_eq!(unquote("abc".to_string()), "abc");
    assert_eq!(unquote("".to_string()), "");
    assert_eq!(unquote("\"a\"b\"".to_string()), "a\"b");
}

#[test]
fn non_ascii_text_is_handled_by_characters() {
    let mut replacements = Replacements::new();
    replacements.insert("né", "ça");
    assert_eq!(set_replacements("\"é{{né}}ü\"".to_string(), &replacements), "éçaü");
}

#[test]
fn region_clamps_its_far_edges() {
    let region = Region::new(1, 2, 3, 4);
    assert_eq!((region.x(), region.y(), region.width(), region.height()), (1, 2, 3, 4));
    let region = Region::new(65530, 65535, 10, 1);
    assert_eq!((region.x(), region.y(), region.width(), region.height()), (65530, 65535, 5, 0));
}

#[test]
fn split_gives_the_remainder_to_the_last_part() {
    let parts = split(Region::new(2, 3, 10, 4), Direction::Horizontal, 3);
    assert_eq!(
        parts,
        vec![Region::new(2, 3, 3, 4), Region::new(5, 3, 3, 4), Region::new(8, 3, 4, 4)]
    );
    let parts = split(Region::new(2, 3, 10, 7), Direction::Vertical, 2);
    assert_eq!(parts, vec![Region::new(2, 3, 10, 3), Region::new(2, 6, 10, 4)]);
}

#[test]
fn split_into_more_parts_than_cells() {
    let parts = split(Region::new(0, 0, 2, 1), Direction::Horizontal, 4);
    assert_eq!(
        parts,
        vec![
            Region::new(0, 0, 0, 1),
            Region::new(0, 0, 0, 1),
            Region::new(0, 0, 0, 1),
            Region::new(0, 0, 2, 1)
        ]
    );
    assert!(split(Region::new(0, 0, 2, 1), Direction::Horizontal, 0).is_empty());
    assert_eq!(
        split(Region::new(4, 5, 6, 7), Direction::Vertical, 1),
        vec![Region::new(4, 5, 6, 7)]
    );
}

#[test]
fn split_partitions_every_width() {
    for n in 1..=50usize {
        for w in (1..=10000u16).step_by(7).chain([1u16, 2, 49, 50, 51, 9999, 10000]) {
            let parts = split(Region::new(3, 0, w, 1), Direction::Horizontal, n);
            assert_eq!(parts.len(), n);
            let mut x = 3u16;
            let mut sum = 0u32;
            for part in &parts {
                assert_eq!(part.x(), x);
                assert_eq!((part.y(), part.height()), (0, 1));
                x += part.width();
                sum += part.width() as u32;
            }
            assert_eq!(sum, w as u32);
        }
    }
}

#[test]
fn draw_list_of_the_end_to_end_template() {
    let root = parse_text("Layout:\n    Paragraph:\n        text: \"{{hello}}{{world}}\"\n").unwrap();
    let draws = root.draw_list(Region::new(0, 0, 20, 2), &hello_world());
    assert_eq!(draws.len(), 1);
    assert_eq!(draws[0].area, Region::new(0, 0, 20, 2));
    assert_eq!(draws[0].text, "Hello, World!");
}

#[test]
fn draw_list_follows_the_tree() {
    let text = "Layout:\n    direction: horizontal\n    Paragraph:\n        text: \"a\"\n    Layout:\n        Paragraph:\n            text: \"b\"\n        Paragraph:\n            text: c\n    Layout:\n    Paragraph:\n        text: \"{{hello}}\"\n";
    let root = parse_text(text).unwrap();
    let draws = root.draw_list(Region::new(0, 0, 42, 5), &hello_world());
    let got: Vec<(Region, &str)> = draws.iter().map(|d| (d.area, d.text.as_str())).collect();
    assert_eq!(
        got,
        vec![
            (Region::new(0, 0, 10, 5), "a"),
            (Region::new(10, 0, 10, 2), "b"),
            (Region::new(10, 2, 10, 3), "c"),
            (Region::new(30, 0, 12, 5), "Hello, "),
        ]
    );
}

#[test]
fn empty_layout_draws_nothing() {
    let root = parse_text("Layout:\n").unwrap();
    assert!(root.draw_list(Region::new(0, 0, 10, 10), &Replacements::new()).is_empty());
}

#[test]
fn end_to_end_renders_into_the_full_frame() {
    let root = parse_text("Layout:\n    Paragraph:\n        text: \"{{hello}}{{world}}\"\n").unwrap();
    let replacements = hello_world();
    let mut terminal = Terminal::new(TestBackend::new(20, 3)).unwrap();
    terminal.draw(|frame| root.render(None, &replacements, frame).unwrap()).unwrap();
    assert_eq!(row(&terminal, 0, 0, 20), "Hello, World!       ");
    assert_eq!(row(&terminal, 1, 0, 20), "                    ");
}

#[test]
fn render_draws_each_child_into_its_part() {
    let text = "Layout:\n    direction: horizontal\n    Paragraph:\n        text: \"left\"\n    Layout:\n        Paragraph:\n            text: \"up\"\n        Paragraph:\n            text: \"down\"\n";
    let root = parse_text(text).unwrap();
    let replacements = Replacements::new();
    let mut terminal = Terminal::new(TestBackend::new(20, 4)).unwrap();
    terminal.draw(|frame| root.render(None, &replacements, frame).unwrap()).unwrap();
    assert_eq!(row(&terminal, 0, 0, 20), "left      up        ");
    assert_eq!(row(&terminal, 1, 0, 20), "                    ");
    assert_eq!(row(&terminal, 2, 0, 20), "          down      ");
}

#[test]
fn render_into_a_given_region() {
    let root = parse_text("Layout:\n    Paragraph:\n        text: \"abcdef\"\n").unwrap();
    let replacements = Replacements::new();
    let mut terminal = Terminal::new(TestBackend::new(10, 3)).unwrap();
    terminal
        .draw(|frame| root.render(Some(Region::new(2, 1, 4, 1)), &replacements, frame).unwrap())
        .unwrap();
    assert_eq!(row(&terminal, 0, 0, 10), "          ");
    assert_eq!(row(&terminal, 1, 0, 10), "  abcd    ");
}

#[test]
fn render_reports_success() {
    let root = parse_text("Layout:\n").unwrap();
    let replacements = Replacements::new();
    let mut terminal = Terminal::new(TestBackend::new(4, 1)).unwrap();
    let mut outcome = None;
    terminal
        .draw(|frame| outcome = Some(root.render(None, &replacements, frame)))
        .unwrap();
    assert_eq!(outcome, Some(Ok(())));
    assert_eq!(row(&terminal, 0, 0, 4), "    ");
}

#[test]
fn a_paragraph_is_drawn_at_most_32767_columns_wide() {
    let long = "a".repeat(40000);
    let text = format!("Layout:\n    Paragraph:\n        text: \"{}\"\n", long);
    let root = parse_text(&text).unwrap();
    let replacements = Replacements::new();
    let draws = root.draw_list(Region::new(0, 0, 65535, 1), &replacements);
    assert_eq!(draws[0].area, Region::new(0, 0, 65535, 1));
    let mut terminal = Terminal::new(TestBackend::new(65535, 1)).unwrap();
    terminal.draw(|frame| root.render(None, &replacements, frame).unwrap()).unwrap();
    assert_eq!(row(&terminal, 0, 0, 3), "aaa");
    assert_eq!(row(&terminal, 0, 32764, 32770), "aaa   ");
}

#[test]
fn a_wide_frame_is_still_divided_exactly() {
    let text = "Layout:\n    direction: horizontal\n    Paragraph:\n        text: \"l\"\n    Paragraph:\n        text: \"r\"\n";
    let root = parse_text(text).unwrap();
    let replacements = Replacements::new();
    let mut terminal = Terminal::new(TestBackend::new(65535, 1)).unwrap();
    terminal.draw(|frame| root.render(None, &replacements, frame).unwrap()).unwrap();
    assert_eq!(row(&terminal, 0, 0, 2), "l ");
    assert_eq!(row(&terminal, 0, 32766, 32769), " r ");
}
