//! The canonical template of a widget tree, and the proof that compiling it
//! gives the tree back.
//!
//! A widget is written as its declaration followed, one step deeper, by its
//! attributes and then by its children. A layout always states its
//! direction; a paragraph states its text unless the text is empty.

use vstd::prelude::*;
use crate::lines::{lemma_scan_shift, scan, scan_from, LineView};
use crate::parse::{spec_parse_text, ErrorView};
use crate::region::Direction;
use crate::text::{
    classify, indentation, is_significant, is_whitespace, lemma_find_is, lemma_indentation_is,
    lemma_trim_end_is, lemma_trim_start_is, LineKindView,
};
use crate::widget_wrappers::wrapper_widget::{
    spec_load_config, spec_load_line, BlockOutcome, WidgetTree,
};

verus! {

/// `count` spaces.
pub open spec fn spaces(count: nat) -> Seq<char> {
    Seq::new(count, |i: int| ' ')
}

/// A name or a key that can be written on a line and read back: not empty,
/// free of white space and colons, and not beginning like a comment.
pub open spec fn is_word(word: Seq<char>) -> bool {
    &&& word.len() > 0
    &&& word[0] != '/'
    &&& forall|i: int| 0 <= i < word.len() ==> !is_whitespace(#[trigger] word[i]) && word[i] != ':'
}

/// A value that can be written behind a key and read back: not empty, on one
/// line, without white space at either end, and not ending in a colon.
pub open spec fn is_value(value: Seq<char>) -> bool {
    &&& value.len() > 0
    &&& !is_whitespace(value[0])
    &&& !is_whitespace(value[value.len() - 1])
    &&& value[value.len() - 1] != ':'
    &&& forall|i: int| 0 <= i < value.len() ==> #[trigger] value[i] != '\n'
}

/// The line that declares a widget of kind `name` at `indent`.
pub open spec fn declaration_line(indent: nat, name: Seq<char>) -> Seq<char> {
    spaces(indent) + name + seq![':']
}

/// The line that sets `key` to `value` at `indent`.
pub open spec fn attribute_line(indent: nat, key: Seq<char>, value: Seq<char>) -> Seq<char> {
    spaces(indent) + key + seq![':', ' '] + value
}

/// A line that the scanner keeps whole: significant, free of line feeds, and
/// not ending in a carriage return.
pub open spec fn is_plain_line(line: Seq<char>) -> bool {
    &&& line.len() > 0
    &&& is_significant(line)
    &&& line[line.len() - 1] != '\r'
    &&& forall|i: int| 0 <= i < line.len() ==> #[trigger] line[i] != '\n'
}

/// A declaration line is read as the declaration it was written from.
pub proof fn lemma_declaration_line(indent: nat, name: Seq<char>)
    requires
        is_word(name),
    ensures
        classify(declaration_line(indent, name)) == (LineKindView::Declaration { name }),
        indentation(declaration_line(indent, name)) == indent,
        is_plain_line(declaration_line(indent, name)),
{
    let line = declaration_line(indent, name);
    let n = line.len() as int;
    let i0 = indent as int;
    assert forall|i: int| 0 <= i < i0 implies #[trigger] line[i] == ' ' by {}
    assert forall|i: int| i0 <= i < n - 1 implies #[trigger] line[i] == name[i - i0] by {}
    lemma_trim_start_is(line, 0, n, i0);
    lemma_trim_end_is(line, i0, n, n);
    lemma_trim_start_is(line, i0, n - 1, i0);
    lemma_trim_end_is(line, i0, n - 1, n - 1);
    assert(line.subrange(i0, n - 1) =~= name);
    lemma_indentation_is(line, i0);
    assert forall|i: int| 0 <= i < n implies #[trigger] line[i] != '\n' by {}
}

/// An attribute line is read as the attribute it was written from.
pub proof fn lemma_attribute_line(indent: nat, key: Seq<char>, value: Seq<char>)
    requires
        is_word(key),
        is_value(value),
    ensures
        classify(attribute_line(indent, key, value)) == (LineKindView::Attribute { key, value }),
        indentation(attribute_line(indent, key, value)) == indent,
        is_plain_line(attribute_line(indent, key, value)),
{
    let line = attribute_line(indent, key, value);
    let n = line.len() as int;
    let i0 = indent as int;
    let colon = i0 + key.len();
    assert forall|i: int| 0 <= i < i0 implies #[trigger] line[i] == ' ' by {}
    assert forall|i: int| i0 <= i < colon implies #[trigger] line[i] == key[i - i0] by {}
    assert forall|i: int| colon + 2 <= i < n implies #[trigger] line[i] == value[i - colon - 2] by {}
    lemma_trim_start_is(line, 0, n, i0);
    lemma_trim_end_is(line, i0, n, n);
    assert forall|i: int| i0 <= i < colon implies #[trigger] line[i] != ':' by {}
    lemma_find_is(line, ':', i0, n, colon);
    lemma_trim_start_is(line, i0, colon, i0);
    lemma_trim_end_is(line, i0, colon, colon);
    assert(line.subrange(i0, colon) =~= key);
    assert forall|i: int| colon + 1 <= i < colon + 2 implies is_whitespace(#[trigger] line[i]) by {}
    lemma_trim_start_is(line, colon + 1, n, colon + 2);
    lemma_trim_end_is(line, colon + 2, n, n);
    assert(line.subrange(colon + 2, n) =~= value);
    lemma_indentation_is(line, i0);
    assert forall|i: int| 0 <= i < n implies #[trigger] line[i] != '\n' by {}
}

/// The text made of `lines`, each followed by a line feed.
pub open spec fn join_lines(lines: Seq<Seq<char>>) -> Seq<char>
    decreases lines.len(),
{
    if lines.len() == 0 {
        Seq::empty()
    } else {
        lines[0] + seq!['\n'] + join_lines(lines.drop_first())
    }
}

/// `texts` as scanned lines, numbered from `number` on.
pub open spec fn numbered(texts: Seq<Seq<char>>, number: nat) -> Seq<LineView> {
    Seq::new(
        texts.len(),
        |i: int| LineView { text: texts[i], indentation: indentation(texts[i]), number: number + i as nat },
    )
}

/// Scanning the text that plain lines were joined to gives those lines back,
/// numbered in order.
pub proof fn lemma_scan_joined(texts: Seq<Seq<char>>, number: nat)
    requires
        forall|i: int| 0 <= i < texts.len() ==> is_plain_line(#[trigger] texts[i]),
    ensures
        scan_from(join_lines(texts), 0, number) == numbered(texts, number),
    decreases texts.len(),
{
    if texts.len() > 0 {
        let text = join_lines(texts);
        let first = texts[0];
        let rest = texts.drop_first();
        let feed = first.len() as int;
        assert forall|i: int| 0 <= i < feed implies #[trigger] text[i] != '\n' by {}
        lemma_find_is(text, '\n', 0, text.len() as int, feed);
        assert(text.subrange(0, feed) =~= first);
        lemma_scan_shift(text, feed + 1, number + 1);
        assert(text.skip(feed + 1) =~= join_lines(rest));
        assert forall|i: int| 0 <= i < rest.len() implies is_plain_line(#[trigger] rest[i]) by {}
        lemma_scan_joined(rest, number + 1);
    }
}

/// The word that states a direction.
pub open spec fn direction_word(direction: Direction) -> Seq<char> {
    match direction {
        Direction::Horizontal => "horizontal"@,
        Direction::Vertical => "vertical"@,
    }
}

/// The name of the kind of a widget.
pub open spec fn kind_name(tree: WidgetTree) -> Seq<char> {
    match tree {
        WidgetTree::Layout { direction, children } => "Layout"@,
        WidgetTree::Paragraph { text } => "Paragraph"@,
    }
}

/// A widget of the kind of `tree` as the registry makes it.
pub open spec fn fresh(tree: WidgetTree) -> WidgetTree {
    match tree {
        WidgetTree::Layout { direction, children } => WidgetTree::Layout {
            direction: Direction::Vertical,
            children: Seq::empty(),
        },
        WidgetTree::Paragraph { text } => WidgetTree::Paragraph { text: Seq::empty() },
    }
}

/// Whether a tree can be written as a template and read back: the text of
/// every paragraph in it is empty or a value that a line can carry.
pub open spec fn is_writable(tree: WidgetTree) -> bool
    decreases tree,
{
    match tree {
        WidgetTree::Paragraph { text } => text.len() > 0 ==> is_value(text),
        WidgetTree::Layout { direction, children } => forall|i: int|
            0 <= i < children.len() ==> is_writable(#[trigger] children[i]),
    }
}

/// The lines of a widget declared at `indent`: its declaration, then its
/// block one step deeper.
pub open spec fn widget_lines(tree: WidgetTree, indent: nat) -> Seq<Seq<char>>
    decreases tree, 2nat, 0nat,
{
    seq![declaration_line(indent, kind_name(tree))] + body_lines(tree, indent + 4)
}

/// The lines of the block of a widget, written at `indent`: its attribute,
/// then its children.
pub open spec fn body_lines(tree: WidgetTree, indent: nat) -> Seq<Seq<char>>
    decreases tree, 1nat, 0nat,
{
    match tree {
        WidgetTree::Paragraph { text } => {
            if text.len() > 0 {
                seq![attribute_line(indent, "text"@, text)]
            } else {
                Seq::empty()
            }
        },
        WidgetTree::Layout { direction, children } => seq![
            attribute_line(indent, "direction"@, direction_word(direction)),
        ] + children_lines(tree, indent, 0),
    }
}

/// The lines of the children of a layout from child `from` on, each declared
/// at `indent`.
pub open spec fn children_lines(tree: WidgetTree, indent: nat, from: nat) -> Seq<Seq<char>>
    decreases tree, 0nat, tree->children.len() - from,
{
    match tree {
        WidgetTree::Layout { direction, children } => {
            if from < children.len() {
                widget_lines(children[from as int], indent) + children_lines(
                    tree,
                    indent,
                    from + 1,
                )
            } else {
                Seq::empty()
            }
        },
        WidgetTree::Paragraph { text } => Seq::empty(),
    }
}

/// The canonical template of a widget tree.
pub open spec fn template(tree: WidgetTree) -> Seq<char> {
    join_lines(widget_lines(tree, 0))
}

/// The words of the language are words, and they differ from each other.
pub proof fn lemma_words()
    ensures
        is_word("Layout"@),
        is_word("Paragraph"@),
        is_word("direction"@),
        is_word("text"@),
        is_value("horizontal"@),
        is_value("vertical"@),
        "Layout"@ != "Paragraph"@,
        "horizontal"@ != "vertical"@,
{
    reveal_strlit("Layout");
    reveal_strlit("Paragraph");
    reveal_strlit("direction");
    reveal_strlit("text");
    reveal_strlit("horizontal");
    reveal_strlit("vertical");
    lemma_letters("Layout"@);
    lemma_letters("Paragraph"@);
    lemma_letters("direction"@);
    lemma_letters("text"@);
    lemma_letters("horizontal"@);
    lemma_letters("vertical"@);
}

/// A sequence of ASCII letters is a word and a value.
proof fn lemma_letters(word: Seq<char>)
    requires
        word.len() > 0,
        forall|i: int|
            0 <= i < word.len() ==> ('a' <= #[trigger] word[i] <= 'z' || 'A' <= word[i] <= 'Z'),
    ensures
        is_word(word),
        is_value(word),
{
    assert forall|i: int| 0 <= i < word.len() implies !is_whitespace(#[trigger] word[i]) && word[i]
        != ':' && word[i] != '\n' && word[i] != '/' by {}
}

/// Whether the lines from `at` on carry `texts`, each with the indentation
/// that its text has.
pub open spec fn carries(lines: Seq<LineView>, at: nat, texts: Seq<Seq<char>>) -> bool {
    &&& at + texts.len() <= lines.len()
    &&& forall|j: int|
        0 <= j < texts.len() ==> (#[trigger] lines[at + j]).text == texts[j] && lines[at
            + j].indentation == indentation(texts[j])
}

/// Whether a block that expects `indent` ends at line `at`.
pub open spec fn ends_block(lines: Seq<LineView>, at: nat, indent: nat) -> bool {
    at >= lines.len() || lines[at as int].indentation < indent
}

/// Lines that carry two runs of texts carry each of them.
proof fn lemma_carries_split(
    lines: Seq<LineView>,
    at: nat,
    first: Seq<Seq<char>>,
    second: Seq<Seq<char>>,
)
    requires
        carries(lines, at, first + second),
    ensures
        carries(lines, at, first),
        carries(lines, at + first.len(), second),
{
    let both = first + second;
    assert forall|j: int| 0 <= j < first.len() implies (#[trigger] lines[at + j]).text == first[j]
        && lines[at + j].indentation == indentation(first[j]) by {}
    assert forall|j: int| 0 <= j < second.len() implies (#[trigger] lines[at + first.len()
        + j]).text == second[j] && lines[at + first.len() + j].indentation == indentation(
        second[j],
    ) by {
        assert(lines[at + (first.len() + j)].text == both[first.len() + j]);
    }
}

/// Reading the lines of the children of a layout from child `from` on, for
/// the layout as it is after the children before `from`, gives the layout.
proof fn lemma_children_read_back(
    lines: Seq<LineView>,
    at: nat,
    tree: WidgetTree,
    indent: nat,
    from: nat,
)
    requires
        tree is Layout,
        is_writable(tree),
        indent % 4 == 0,
        from <= tree->children.len(),
        carries(lines, at, children_lines(tree, indent, from)),
        ends_block(lines, at + children_lines(tree, indent, from).len(), indent),
    ensures
        spec_load_config(
            lines,
            at,
            WidgetTree::Layout {
                direction: tree->direction,
                children: tree->children.take(from as int),
            },
            indent,
            from > 0,
        ) == (BlockOutcome {
            result: Ok(tree),
            consumed: children_lines(tree, indent, from).len(),
            widget: tree,
        }),
    decreases tree, 0nat, tree->children.len() - from,
{
    let children = tree->children;
    let current = WidgetTree::Layout {
        direction: tree->direction,
        children: children.take(from as int),
    };
    if from >= children.len() {
        assert(children.take(from as int) =~= children);
    } else {
        let child = children[from as int];
        let body = body_lines(child, indent + 4);
        let later = children_lines(tree, indent, from + 1);
        let head = declaration_line(indent, kind_name(child));
        lemma_carries_split(lines, at, widget_lines(child, indent), later);
        lemma_carries_split(lines, at, seq![head], body);
        lemma_words();
        lemma_declaration_line(indent, kind_name(child));
        assert(lines[at as int + 0].text == head);
        // The block of the child ends where the next child begins, or where
        // the enclosing block ends.
        let next = (at + 1 + body.len()) as nat;
        assert(ends_block(lines, next, indent + 4)) by {
            if from + 1 < children.len() {
                let sibling = children[from as int + 1];
                lemma_declaration_line(indent, kind_name(sibling));
                assert(later == widget_lines(sibling, indent) + children_lines(
                    tree,
                    indent,
                    from + 2,
                ));
                assert(later[0] == declaration_line(indent, kind_name(sibling)));
            }
        }
        lemma_body_reads_back(lines, (at + 1) as nat, child, indent + 4);
        // The line declares the child; with its block read, the child is added.
        let step = spec_load_line(lines, at, current, indent, from > 0);
        assert(children.take(from as int).push(child) =~= children.take(from as int + 1));
        assert(step.result == Ok::<WidgetTree, ErrorView>(
            WidgetTree::Layout {
                direction: tree->direction,
                children: children.take(from as int + 1),
            },
        ));
        lemma_children_read_back(lines, next, tree, indent, from + 1);
    }
}

/// Reading the lines of the block of a widget, for the widget as the
/// registry makes it, gives the widget.
proof fn lemma_body_reads_back(lines: Seq<LineView>, at: nat, tree: WidgetTree, indent: nat)
    requires
        is_writable(tree),
        indent % 4 == 0,
        carries(lines, at, body_lines(tree, indent)),
        ends_block(lines, at + body_lines(tree, indent).len(), indent),
    ensures
        spec_load_config(lines, at, fresh(tree), indent, false) == (BlockOutcome {
            result: Ok(tree),
            consumed: body_lines(tree, indent).len(),
            widget: tree,
        }),
    decreases tree, 1nat, 0nat,
{
    lemma_words();
    match tree {
        WidgetTree::Paragraph { text } => {
            if text.len() > 0 {
                lemma_attribute_line(indent, "text"@, text);
                let step = spec_load_line(lines, at, fresh(tree), indent, false);
                assert(step.result == Ok::<WidgetTree, ErrorView>(tree));
                assert(spec_load_config(lines, at + 1, tree, indent, false).consumed == 0);
            } else {
                assert(text =~= Seq::<char>::empty());
            }
        },
        WidgetTree::Layout { direction, children } => {
            let line = attribute_line(indent, "direction"@, direction_word(direction));
            lemma_carries_split(lines, at, seq![line], children_lines(tree, indent, 0));
            lemma_attribute_line(indent, "direction"@, direction_word(direction));
            assert(lines[at as int + 0].text == line);
            // The line sets the direction of a layout that has no child yet.
            let step = spec_load_line(lines, at, fresh(tree), indent, false);
            assert(children.take(0) =~= Seq::<WidgetTree>::empty());
            assert(step.result == Ok::<WidgetTree, ErrorView>(
                WidgetTree::Layout { direction, children: children.take(0) },
            ));
            lemma_children_read_back(lines, at + 1, tree, indent, 0);
        },
    }
}

/// Whether every line of `texts` is a plain line.
pub open spec fn all_plain(texts: Seq<Seq<char>>) -> bool {
    forall|i: int| 0 <= i < texts.len() ==> is_plain_line(#[trigger] texts[i])
}

/// Two runs of plain lines make one run of plain lines.
proof fn lemma_all_plain_concat(first: Seq<Seq<char>>, second: Seq<Seq<char>>)
    requires
        all_plain(first),
        all_plain(second),
    ensures
        all_plain(first + second),
{
    let both = first + second;
    assert forall|i: int| 0 <= i < both.len() implies is_plain_line(#[trigger] both[i]) by {
        if i >= first.len() {
            assert(both[i] == second[i - first.len()]);
        }
    }
}

/// Every line of the canonical template of a writable tree is a plain line.
proof fn lemma_widget_lines_plain(tree: WidgetTree, indent: nat)
    requires
        is_writable(tree),
    ensures
        all_plain(widget_lines(tree, indent)),
    decreases tree, 2nat, 0nat,
{
    lemma_words();
    lemma_declaration_line(indent, kind_name(tree));
    lemma_body_lines_plain(tree, indent + 4);
    let head = seq![declaration_line(indent, kind_name(tree))];
    lemma_all_plain_concat(head, body_lines(tree, indent + 4));
}

proof fn lemma_body_lines_plain(tree: WidgetTree, indent: nat)
    requires
        is_writable(tree),
    ensures
        all_plain(body_lines(tree, indent)),
    decreases tree, 1nat, 0nat,
{
    lemma_words();
    match tree {
        WidgetTree::Paragraph { text } => {
            if text.len() > 0 {
                lemma_attribute_line(indent, "text"@, text);
            }
        },
        WidgetTree::Layout { direction, children } => {
            lemma_attribute_line(indent, "direction"@, direction_word(direction));
            lemma_children_lines_plain(tree, indent, 0);
            let head = seq![attribute_line(indent, "direction"@, direction_word(direction))];
            lemma_all_plain_concat(head, children_lines(tree, indent, 0));
        },
    }
}

proof fn lemma_children_lines_plain(tree: WidgetTree, indent: nat, from: nat)
    requires
        tree is Layout,
        is_writable(tree),
    ensures
        all_plain(children_lines(tree, indent, from)),
    decreases tree, 0nat, tree->children.len() - from,
{
    if from < tree->children.len() {
        lemma_widget_lines_plain(tree->children[from as int], indent);
        lemma_children_lines_plain(tree, indent, from + 1);
        lemma_all_plain_concat(
            widget_lines(tree->children[from as int], indent),
            children_lines(tree, indent, from + 1),
        );
    }
}

/// Compiling the canonical template of a tree gives the tree back.
///
/// This holds of every tree whose root is a layout and whose paragraphs hold
/// texts that a line can carry. The template indents each block by exactly
/// four spaces more than the block around it.
pub proof fn lemma_template_round_trip(tree: WidgetTree)
    requires
        tree is Layout,
        is_writable(tree),
    ensures
        spec_parse_text(template(tree)) == Ok::<WidgetTree, ErrorView>(tree),
{
    let texts = widget_lines(tree, 0);
    let body = body_lines(tree, 4);
    lemma_widget_lines_plain(tree, 0);
    lemma_scan_joined(texts, 1);
    let lines = scan(template(tree));
    assert(lines == numbered(texts, 1));
    // The first line declares the root at indentation 0.
    lemma_words();
    lemma_declaration_line(0, kind_name(tree));
    assert(lines[0].text == declaration_line(0, kind_name(tree)));
    // The other lines are the block of the root, and no line is left.
    assert(carries(lines, 1, body)) by {
        assert forall|j: int| 0 <= j < body.len() implies (#[trigger] lines[1 + j]).text == body[j]
            && lines[1 + j].indentation == indentation(body[j]) by {
            assert(texts[1 + j] == body[j]);
        }
    }
    lemma_body_reads_back(lines, 1, tree, 4);
}

} // verus!
