//! What every widget can do, and the structural parser that builds a widget
//! tree from the significant lines of a template.
//!
//! A block is the run of lines that belongs to one widget. It is read with an
//! expected indentation. A line indented less ends the block and is left for
//! an enclosing block. Any other line must be indented by a multiple of four
//! and by at most four more than expected. A declaration opens a nested
//! block, expected four spaces deeper, and the widget it yields becomes a
//! child of the widget of the current block. An attribute is handed to the
//! widget of the current block, and must come before the first child.

use vstd::prelude::*;
use crate::lines::{line_views, Line, LineView};
use crate::parse::{ErrorView, TemplateParserError};
use crate::region::{spec_split, Direction, Region};
use crate::replacements::{interpolate, spec_set_replacements, unquote, Replacements};
use crate::drawing::{all_within, lemma_draws_are_disjoint_and_inside, none_overlap};
use crate::terminal::{
    draw_text, frame_cells, frame_extent, full_area, kept_outside, none_painted_over, painted,
    whole_area,
};
use crate::text::{
    classify, classify_line, count_indentation, indentation, to_chars, LineKind, LineKindView,
};
use crate::widget_wrappers::wrapper_widgets::WrapperWidgets;

verus! {

/// A widget tree over character sequences: what a widget is, apart from how
/// it is stored.
pub enum WidgetTree {
    /// A container: an axis and the children in drawing order.
    Layout { direction: Direction, children: Seq<WidgetTree> },
    /// A leaf: the text as it stands in the template.
    Paragraph { text: Seq<char> },
}

/// A text and the region it is drawn into, over a character sequence.
pub struct DrawnTextView {
    pub area: Region,
    pub text: Seq<char>,
}

/// A text and the region it is drawn into.
#[derive(Debug)]
pub struct DrawnText {
    pub area: Region,
    pub text: String,
}

impl View for DrawnText {
    type V = DrawnTextView;

    open spec fn view(&self) -> DrawnTextView {
        DrawnTextView { area: self.area, text: self.text@ }
    }
}

/// Why a widget could not be drawn.
#[derive(Debug, PartialEq, Eq)]
pub enum RenderError {
    /// The frame did not take what was drawn. Holds what it reported.
    Draw(String),
}

/// The views of a list of drawn texts.
pub open spec fn drawn_views(draws: Seq<DrawnText>) -> Seq<DrawnTextView> {
    Seq::new(draws.len(), |i: int| draws[i]@)
}

/// The registry of widget kinds: the widget that a kind name stands for, as
/// it is before any attribute is set.
pub open spec fn resolve(name: Seq<char>) -> Option<WidgetTree> {
    if name == "Layout"@ {
        Some(WidgetTree::Layout { direction: Direction::Vertical, children: Seq::empty() })
    } else if name == "Paragraph"@ {
        Some(WidgetTree::Paragraph { text: Seq::empty() })
    } else {
        None
    }
}

/// Whether a widget can hold children.
pub open spec fn is_container(tree: WidgetTree) -> bool {
    tree is Layout
}

/// `tree` after the attribute `key` is set to `value` by line `line`, or the
/// reason why it cannot be.
///
/// A layout has the attribute `direction`, with the values `horizontal` and
/// `vertical`. A paragraph has the attribute `text`, which takes any value.
pub open spec fn tree_load_value(tree: WidgetTree, key: Seq<char>, value: Seq<char>, line: nat)
    -> Result<WidgetTree, ErrorView> {
    match tree {
        WidgetTree::Layout { direction, children } => {
            if key == "direction"@ {
                if value == "horizontal"@ {
                    Ok(WidgetTree::Layout { direction: Direction::Horizontal, children })
                } else if value == "vertical"@ {
                    Ok(WidgetTree::Layout { direction: Direction::Vertical, children })
                } else {
                    Err(ErrorView::InvalidWidgetAttributeValue(line, "Layout"@, key, value))
                }
            } else {
                Err(ErrorView::InvalidWidgetAttributeName(line, "Layout"@, key))
            }
        },
        WidgetTree::Paragraph { text } => {
            if key == "text"@ {
                Ok(WidgetTree::Paragraph { text: value })
            } else {
                Err(ErrorView::InvalidWidgetAttributeName(line, "Paragraph"@, key))
            }
        },
    }
}

/// `tree` after `child`, declared on line `line`, is added to it, or the
/// reason why it cannot be: a layout takes the child as its last, a paragraph
/// takes none.
pub open spec fn tree_add_child(tree: WidgetTree, child: WidgetTree, line: nat) -> Result<
    WidgetTree,
    ErrorView,
> {
    match tree {
        WidgetTree::Layout { direction, children } => Ok(
            WidgetTree::Layout { direction, children: children.push(child) },
        ),
        WidgetTree::Paragraph { text } => Err(ErrorView::AddWidgetToNonContainer(line)),
    }
}

/// What reading one line makes of a widget.
pub struct LineOutcome {
    /// The widget after the line, or the error.
    pub result: Result<WidgetTree, ErrorView>,
    /// How many lines the nested block took, if the line opened one.
    pub nested: nat,
    /// Whether the block has seen a child by now.
    pub widget_was_added: bool,
}

/// What reading a block makes of a widget.
pub struct BlockOutcome {
    /// The widget after the block, or the first error.
    pub result: Result<WidgetTree, ErrorView>,
    /// How many lines were taken.
    pub consumed: nat,
    /// The widget as far as it was read: after the whole block, or as it was
    /// before the line at fault.
    pub widget: WidgetTree,
}

/// How many lines stand at or after `at`.
pub open spec fn lines_left(lines: Seq<LineView>, at: nat) -> nat {
    if at < lines.len() {
        (lines.len() - at) as nat
    } else {
        0
    }
}

/// Whether the indentation of a line is acceptable in a block that expects
/// `indent`: a multiple of four, and at most one step deeper.
pub open spec fn indentation_fits(indentation: nat, indent: nat) -> bool {
    indentation <= indent + 4 && indentation % 4 == 0
}

/// Reads line `at` for the widget `tree` of a block that expects `indent`.
pub open spec fn spec_load_line(
    lines: Seq<LineView>,
    at: nat,
    tree: WidgetTree,
    indent: nat,
    widget_was_added: bool,
) -> LineOutcome
    decreases lines_left(lines, at), 0nat,
{
    if at >= lines.len() {
        LineOutcome { result: Ok(tree), nested: 0, widget_was_added }
    } else {
        let line = lines[at as int];
        match classify(line.text) {
            LineKindView::Declaration { name } => match resolve(name) {
                None => LineOutcome {
                    result: Err(ErrorView::InvalidWidgetType(line.number, name)),
                    nested: 0,
                    widget_was_added,
                },
                Some(fresh) => {
                    let block = spec_load_config(lines, at + 1, fresh, indent + 4, false);
                    match block.result {
                        Err(e) => LineOutcome {
                            result: Err(e),
                            nested: block.consumed,
                            widget_was_added,
                        },
                        Ok(child) => LineOutcome {
                            result: tree_add_child(tree, child, line.number),
                            nested: block.consumed,
                            widget_was_added: true,
                        },
                    }
                },
            },
            LineKindView::Attribute { key, value } => {
                if widget_was_added {
                    LineOutcome {
                        result: Err(ErrorView::LateAttribute(line.number, line.text)),
                        nested: 0,
                        widget_was_added,
                    }
                } else {
                    LineOutcome {
                        result: tree_load_value(tree, key, value, line.number),
                        nested: 0,
                        widget_was_added,
                    }
                }
            },
            LineKindView::Other => LineOutcome {
                result: Err(ErrorView::InvalidContext(line.number, line.text)),
                nested: 0,
                widget_was_added,
            },
        }
    }
}

/// Reads the block of the widget `tree` from line `at` on, expecting `indent`.
pub open spec fn spec_load_config(
    lines: Seq<LineView>,
    at: nat,
    tree: WidgetTree,
    indent: nat,
    widget_was_added: bool,
) -> BlockOutcome
    decreases lines_left(lines, at), 1nat,
{
    if at >= lines.len() || lines[at as int].indentation < indent {
        BlockOutcome { result: Ok(tree), consumed: 0, widget: tree }
    } else if !indentation_fits(lines[at as int].indentation, indent) {
        BlockOutcome {
            result: Err(
                ErrorView::InvalidIndentation(
                    lines[at as int].number,
                    indent,
                    lines[at as int].text,
                ),
            ),
            consumed: 0,
            widget: tree,
        }
    } else {
        let step = spec_load_line(lines, at, tree, indent, widget_was_added);
        match step.result {
            Err(e) => BlockOutcome { result: Err(e), consumed: 1 + step.nested, widget: tree },
            Ok(next) => {
                let rest = spec_load_config(
                    lines,
                    at + 1 + step.nested,
                    next,
                    indent,
                    step.widget_was_added,
                );
                BlockOutcome {
                    result: rest.result,
                    consumed: 1 + step.nested + rest.consumed,
                    widget: rest.widget,
                }
            },
        }
    }
}

/// What a widget draws into `area`: a paragraph its interpolated text, a
/// layout what its children draw, each into its part of `area`.
pub open spec fn spec_draws(tree: WidgetTree, area: Region, map: Map<Seq<char>, Seq<char>>) -> Seq<
    DrawnTextView,
>
    decreases tree, 1nat, 0nat,
{
    match tree {
        WidgetTree::Paragraph { text } => seq![
            DrawnTextView { area, text: spec_set_replacements(text, map) },
        ],
        WidgetTree::Layout { direction, children } => spec_draws_children(
            tree,
            area,
            map,
            children.len(),
        ),
    }
}

/// What the first `upto` children of the layout `tree` draw, in order.
pub open spec fn spec_draws_children(
    tree: WidgetTree,
    area: Region,
    map: Map<Seq<char>, Seq<char>>,
    upto: nat,
) -> Seq<DrawnTextView>
    decreases tree, 0nat, upto,
{
    match tree {
        WidgetTree::Layout { direction, children } => {
            if 0 < upto <= children.len() {
                spec_draws_children(tree, area, map, (upto - 1) as nat) + spec_draws(
                    children[upto - 1],
                    spec_split(area, direction, children.len())[upto - 1],
                    map,
                )
            } else {
                Seq::empty()
            }
        },
        WidgetTree::Paragraph { text } => Seq::empty(),
    }
}

/// A line that is indented at least as far as its block expects, but by no
/// multiple of four or by more than one step beyond, is rejected with
/// `InvalidIndentation`, whatever the line holds.
pub proof fn lemma_misfit_indentation_is_rejected(
    lines: Seq<LineView>,
    at: nat,
    tree: WidgetTree,
    indent: nat,
    widget_was_added: bool,
)
    requires
        at < lines.len(),
        lines[at as int].indentation >= indent,
        lines[at as int].indentation % 4 != 0 || lines[at as int].indentation > indent + 4,
    ensures
        spec_load_config(lines, at, tree, indent, widget_was_added) == (BlockOutcome {
            result: Err(
                ErrorView::InvalidIndentation(
                    lines[at as int].number,
                    indent,
                    lines[at as int].text,
                ),
            ),
            consumed: 0,
            widget: tree,
        }),
{
}

/// A block never takes more lines than there are, and where it is read
/// without error every line it takes is indented by a multiple of four and
/// at least as far as the block expects.
pub proof fn lemma_block_lines_fit(
    lines: Seq<LineView>,
    at: nat,
    tree: WidgetTree,
    indent: nat,
    widget_was_added: bool,
)
    requires
        at <= lines.len(),
    ensures
        at + spec_load_config(lines, at, tree, indent, widget_was_added).consumed <= lines.len(),
        spec_load_config(lines, at, tree, indent, widget_was_added).result is Ok ==> forall|i: int|
            at <= i < at + spec_load_config(lines, at, tree, indent, widget_was_added).consumed
                ==> (#[trigger] lines[i]).indentation % 4 == 0 && lines[i].indentation >= indent,
    decreases lines_left(lines, at), 1nat,
{
    if at >= lines.len() || lines[at as int].indentation < indent {
    } else if !indentation_fits(lines[at as int].indentation, indent) {
    } else {
        lemma_line_lines_fit(lines, at, tree, indent, widget_was_added);
        let step = spec_load_line(lines, at, tree, indent, widget_was_added);
        match step.result {
            Err(e) => {},
            Ok(next) => {
                lemma_block_lines_fit(lines, at + 1 + step.nested, next, indent, step.widget_was_added);
            },
        }
    }
}

/// The block that a declaration opens stays within the lines, and where the
/// line is read without error every line of that block is indented by a
/// multiple of four and deeper than the declaration's block expects.
pub proof fn lemma_line_lines_fit(
    lines: Seq<LineView>,
    at: nat,
    tree: WidgetTree,
    indent: nat,
    widget_was_added: bool,
)
    requires
        at < lines.len(),
    ensures
        at + 1 + spec_load_line(lines, at, tree, indent, widget_was_added).nested <= lines.len(),
        spec_load_line(lines, at, tree, indent, widget_was_added).result is Ok ==> forall|i: int|
            at + 1 <= i < at + 1 + spec_load_line(lines, at, tree, indent, widget_was_added).nested
                ==> (#[trigger] lines[i]).indentation % 4 == 0 && lines[i].indentation >= indent
                + 4,
    decreases lines_left(lines, at), 0nat,
{
    let line = lines[at as int];
    match classify(line.text) {
        LineKindView::Declaration { name } => match resolve(name) {
            None => {},
            Some(fresh) => {
                lemma_block_lines_fit(lines, at + 1, fresh, indent + 4, false);
            },
        },
        LineKindView::Attribute { key, value } => {},
        LineKindView::Other => {},
    }
}

/// A block that is read without error ends at the end of the lines or at a
/// line that is indented less than the block expects, and the widget it
/// leaves is its result.
pub proof fn lemma_block_ends_at_shallower_line(
    lines: Seq<LineView>,
    at: nat,
    tree: WidgetTree,
    indent: nat,
    widget_was_added: bool,
)
    requires
        spec_load_config(lines, at, tree, indent, widget_was_added).result is Ok,
    ensures
        ({
            let block = spec_load_config(lines, at, tree, indent, widget_was_added);
            &&& block.result == Ok::<WidgetTree, ErrorView>(block.widget)
            &&& (at + block.consumed >= lines.len() || lines[at as int
                + block.consumed].indentation < indent)
        }),
    decreases lines_left(lines, at), 1nat,
{
    if at >= lines.len() || lines[at as int].indentation < indent {
    } else if !indentation_fits(lines[at as int].indentation, indent) {
    } else {
        let step = spec_load_line(lines, at, tree, indent, widget_was_added);
        match step.result {
            Err(e) => {},
            Ok(next) => {
                lemma_block_ends_at_shallower_line(
                    lines,
                    at + 1 + step.nested,
                    next,
                    indent,
                    step.widget_was_added,
                );
            },
        }
    }
}

/// Reading a block never changes the kind of its widget: what was a
/// container stays one, what was a leaf stays one, whether the block is read
/// without error or not.
pub proof fn lemma_block_keeps_kind(
    lines: Seq<LineView>,
    at: nat,
    tree: WidgetTree,
    indent: nat,
    widget_was_added: bool,
)
    ensures
        is_container(spec_load_config(lines, at, tree, indent, widget_was_added).widget)
            == is_container(tree),
    decreases lines_left(lines, at), 1nat,
{
    if at >= lines.len() || lines[at as int].indentation < indent {
    } else if !indentation_fits(lines[at as int].indentation, indent) {
    } else {
        let step = spec_load_line(lines, at, tree, indent, widget_was_added);
        match step.result {
            Err(e) => {},
            Ok(next) => {
                assert(is_container(next) == is_container(tree));
                lemma_block_keeps_kind(lines, at + 1 + step.nested, next, indent, step.widget_was_added);
            },
        }
    }
}

/// In a block that has seen a child, an attribute is rejected with
/// `LateAttribute`, whatever its key and value.
pub proof fn lemma_attribute_after_child_is_late(
    lines: Seq<LineView>,
    at: nat,
    tree: WidgetTree,
    indent: nat,
)
    requires
        at < lines.len(),
        lines[at as int].indentation >= indent,
        indentation_fits(lines[at as int].indentation, indent),
        classify(lines[at as int].text) is Attribute,
    ensures
        spec_load_config(lines, at, tree, indent, true) == (BlockOutcome {
            result: Err(ErrorView::LateAttribute(lines[at as int].number, lines[at as int].text)),
            consumed: 1,
            widget: tree,
        }),
{
    let step = spec_load_line(lines, at, tree, indent, true);
    assert(step.result == Err::<WidgetTree, ErrorView>(
        ErrorView::LateAttribute(lines[at as int].number, lines[at as int].text),
    ));
    assert(step.nested == 0);
}

/// In a block that has seen no child, an attribute is handed to the widget
/// of the block: it is rejected only if the widget rejects it, and otherwise
/// the block goes on with the widget that took it.
pub proof fn lemma_attribute_before_child_is_loaded(
    lines: Seq<LineView>,
    at: nat,
    tree: WidgetTree,
    indent: nat,
)
    requires
        at < lines.len(),
        lines[at as int].indentation >= indent,
        indentation_fits(lines[at as int].indentation, indent),
        classify(lines[at as int].text) is Attribute,
    ensures
        ({
            let key = classify(lines[at as int].text)->key;
            let value = classify(lines[at as int].text)->value;
            match tree_load_value(tree, key, value, lines[at as int].number) {
                Err(e) => spec_load_config(lines, at, tree, indent, false) == (BlockOutcome {
                    result: Err(e),
                    consumed: 1,
                    widget: tree,
                }),
                Ok(next) => {
                    let rest = spec_load_config(lines, at + 1, next, indent, false);
                    spec_load_config(lines, at, tree, indent, false) == (BlockOutcome {
                        result: rest.result,
                        consumed: 1 + rest.consumed,
                        widget: rest.widget,
                    })
                },
            }
        }),
{
    let key = classify(lines[at as int].text)->key;
    let value = classify(lines[at as int].text)->value;
    let step = spec_load_line(lines, at, tree, indent, false);
    assert(step.result == tree_load_value(tree, key, value, lines[at as int].number));
    assert(step.nested == 0);
    assert(!step.widget_was_added);
}

/// A declaration nested under a widget that takes no children is rejected
/// with `AddWidgetToNonContainer`, once the block it opens is read without
/// error.
pub proof fn lemma_leaf_takes_no_child(
    lines: Seq<LineView>,
    at: nat,
    tree: WidgetTree,
    indent: nat,
    widget_was_added: bool,
)
    requires
        at < lines.len(),
        !is_container(tree),
        classify(lines[at as int].text) is Declaration,
        resolve(classify(lines[at as int].text)->name) is Some,
        spec_load_config(
            lines,
            at + 1,
            resolve(classify(lines[at as int].text)->name).unwrap(),
            indent + 4,
            false,
        ).result is Ok,
    ensures
        spec_load_line(lines, at, tree, indent, widget_was_added).result == Err::<
            WidgetTree,
            ErrorView,
        >(ErrorView::AddWidgetToNonContainer(lines[at as int].number)),
{
}

/// The region that a widget is drawn into: the one given, or the whole area
/// of the frame where none is given.
pub open spec fn render_area(maybe_layout: Option<Region>, frame: ratatui::Frame<'_>) -> Region {
    match maybe_layout {
        Some(area) => area,
        None => whole_area(frame),
    }
}

/// The symbols that the cells of a frame hold after `tree` has been drawn
/// into `area`, where they held `cells` before: every text that the tree
/// draws is drawn into its region, in drawing order.
pub open spec fn rendered(
    cells: Map<(u16, u16), Seq<char>>,
    tree: WidgetTree,
    area: Region,
    map: Map<Seq<char>, Seq<char>>,
) -> Map<(u16, u16), Seq<char>> {
    painted(cells, spec_draws(tree, area, map), spec_draws(tree, area, map).len())
}

/// Whether `result` and the widget `after` the call are what `expected` asks
/// for: on success the expected widget, on failure the expected error.
pub open spec fn updated(
    result: Result<(), TemplateParserError>,
    after: WidgetTree,
    expected: Result<WidgetTree, ErrorView>,
) -> bool {
    match expected {
        Ok(tree) => result is Ok && after == tree,
        Err(e) => result is Err && result->Err_0@ == e,
    }
}

/// The capabilities of a widget: to take an attribute, to take a child, and
/// to be drawn.
pub trait WrapperWidget: View<V = WidgetTree> + Sized {
    /// Whether the widget can hold children.
    fn is_container(&self) -> (container: bool)
        ensures
            container == is_container(self@),
    ;

    /// Sets the attribute `k` to `v`. On failure the widget is unchanged.
    fn load_value(&mut self, k: &str, v: &str, line_no: usize) -> (result: Result<
        (),
        TemplateParserError,
    >)
        ensures
            updated(result, final(self)@, tree_load_value(old(self)@, k@, v@, line_no as nat)),
            result is Err ==> final(self)@ == old(self)@,
    ;

    /// Adds `child` behind the children the widget has. On failure the widget
    /// is unchanged.
    fn add_child(&mut self, child: WrapperWidgets, line_no: usize) -> (result: Result<
        (),
        TemplateParserError,
    >)
        ensures
            updated(
                result,
                final(self)@,
                tree_add_child(old(self)@, child.tree(), line_no as nat),
            ),
            result is Err ==> final(self)@ == old(self)@,
    ;

    /// The texts that the widget draws into `area`, each with its region, in
    /// drawing order.
    fn draw_list(&self, area: Region, replacements: &Replacements) -> (draws: Vec<DrawnText>)
        ensures
            drawn_views(draws@) == spec_draws(self@, area, replacements@),
    ;

    /// Draws the widget into `frame`: the texts of [`WrapperWidget::draw_list`]
    /// for `maybe_layout`, or for the whole area of the frame where that is
    /// `None`, in their order. The area of the frame stays as it is, cells
    /// outside the region drawn into keep their symbols, and no text is
    /// painted over by a later one. Drawing into a frame never fails.
    fn render(
        &self,
        maybe_layout: Option<Region>,
        replacements: &Replacements,
        frame: &mut ratatui::Frame<'_>,
    ) -> (result: Result<(), RenderError>)
        ensures
            result is Ok,
            frame_extent(*final(frame)) == frame_extent(*old(frame)),
            frame_cells(*final(frame)) == rendered(
                frame_cells(*old(frame)),
                self@,
                render_area(maybe_layout, *old(frame)),
                replacements@,
            ),
            kept_outside(
                frame_cells(*old(frame)),
                frame_cells(*final(frame)),
                render_area(maybe_layout, *old(frame)),
            ),
            none_painted_over(
                frame_cells(*old(frame)),
                frame_cells(*final(frame)),
                spec_draws(self@, render_area(maybe_layout, *old(frame)), replacements@),
                spec_draws(self@, render_area(maybe_layout, *old(frame)), replacements@).len(),
            ),
    {
        let area = match maybe_layout {
            Some(area) => area,
            None => full_area(frame),
        };
        let draws = self.draw_list(area, replacements);
        let ghost texts = drawn_views(draws@);
        let ghost first = frame_cells(*frame);
        proof {
            use_type_invariant(&area);
            lemma_draws_are_disjoint_and_inside(self@, area, replacements@);
        }
        let mut index: usize = 0;
        while index < draws.len()
            invariant
                index <= draws.len(),
                texts == drawn_views(draws@),
                first == frame_cells(*old(frame)),
                all_within(texts, area),
                none_overlap(texts),
                frame_extent(*frame) == frame_extent(*old(frame)),
                frame_cells(*frame) == painted(first, texts, index as nat),
                kept_outside(first, frame_cells(*frame), area),
                none_painted_over(first, frame_cells(*frame), texts, index as nat),
            decreases draws.len() - index,
        {
            let ghost before = frame_cells(*frame);
            draw_text(frame, draws[index].area, draws[index].text.as_str());
            proof {
                let after = frame_cells(*frame);
                let drawn = texts[index as int];
                assert(drawn == draws[index as int]@);
                assert(after == painted(first, texts, (index + 1) as nat));
                assert(drawn.area.within(area));
                assert forall|column: u16, row: u16|
                    first.contains_key((column, row)) && !area.holds(
                        column as int,
                        row as int,
                    ) implies #[trigger] after[(column, row)] == first[(column, row)] by {
                    assert(!drawn.area.holds(column as int, row as int));
                    assert(after[(column, row)] == before[(column, row)]);
                }
                assert forall|count: nat, column: u16, row: u16|
                    1 <= count <= index + 1 && count <= texts.len() && first.contains_key(
                        (column, row),
                    ) && texts[count - 1].area.holds(column as int, row as int) implies after[(
                        column,
                        row,
                    )] == #[trigger] painted(first, texts, count)[(column, row)] by {
                    if count <= index {
                        assert(!texts[count - 1].area.overlaps(drawn.area));
                        assert(!drawn.area.holds(column as int, row as int));
                        assert(after[(column, row)] == before[(column, row)]);
                    }
                }
            }
            index = index + 1;
        }
        Ok(())
    }
}

/// Reads the line at `*cursor` for `widget` and moves the cursor behind the
/// line and behind the block it opens, if it opens one. Where no line is
/// left, nothing changes. On an error the widget and the flag are left as
/// they were.
pub fn load_line<W: WrapperWidget>(
    widget: &mut W,
    lines: &Vec<Line>,
    cursor: &mut usize,
    indent: usize,
    widget_was_added: &mut bool,
) -> (result: Result<(), TemplateParserError>)
    ensures
        updated(
            result,
            final(widget)@,
            spec_load_line(
                line_views(lines@),
                *old(cursor) as nat,
                old(widget)@,
                indent as nat,
                *old(widget_was_added),
            ).result,
        ),
        *old(cursor) < lines.len() ==> *final(cursor) == *old(cursor) + 1 + spec_load_line(
            line_views(lines@),
            *old(cursor) as nat,
            old(widget)@,
            indent as nat,
            *old(widget_was_added),
        ).nested,
        *old(cursor) >= lines.len() ==> *final(cursor) == *old(cursor),
        result is Ok ==> *final(widget_was_added) == spec_load_line(
            line_views(lines@),
            *old(cursor) as nat,
            old(widget)@,
            indent as nat,
            *old(widget_was_added),
        ).widget_was_added,
        *old(cursor) < lines.len() ==> *final(cursor) <= lines.len(),
        result is Err ==> final(widget)@ == old(widget)@,
        result is Err ==> *final(widget_was_added) == *old(widget_was_added),
    decreases lines_left(line_views(lines@), *old(cursor) as nat), 0nat,
{
    let ghost views = line_views(lines@);
    let ghost at = *cursor as nat;
    if *cursor >= lines.len() {
        return Ok(());
    }
    let line = &lines[*cursor];
    assert(views[at as int] == line@);
    *cursor = *cursor + 1;
    match classify_line(line.text.as_str()) {
        LineKind::Declaration { name } => match WrapperWidgets::resolve(name.as_str()) {
            None => Err(TemplateParserError::InvalidWidgetType(line.number, name)),
            Some(child) => {
                let mut child = child;
                if indent <= usize::MAX - 4 {
                    match load_config(&mut child, lines, cursor, indent + 4) {
                        Err(e) => {
                            return Err(e);
                        },
                        Ok(()) => {},
                    }
                } else {
                    assert(*cursor < lines.len() ==> views[*cursor as int].indentation
                        == lines[*cursor as int].indentation);
                }
                match widget.add_child(child, line.number) {
                    Err(e) => Err(e),
                    Ok(()) => {
                        *widget_was_added = true;
                        Ok(())
                    },
                }
            },
        },
        LineKind::Attribute { key, value } => {
            if *widget_was_added {
                Err(TemplateParserError::LateAttribute(line.number, line.text.clone()))
            } else {
                widget.load_value(key.as_str(), value.as_str(), line.number)
            }
        },
        LineKind::Other => Err(
            TemplateParserError::InvalidContext(line.number, line.text.clone()),
        ),
    }
}

/// Reads the block of `widget` from the line at `*cursor` on, expecting the
/// indentation `indent`, and leaves the cursor at the first line that the
/// block does not take. On an error the widget is left as it was before the
/// line at fault.
pub fn load_config<W: WrapperWidget>(
    widget: &mut W,
    lines: &Vec<Line>,
    cursor: &mut usize,
    indent: usize,
) -> (result: Result<(), TemplateParserError>)
    ensures
        updated(
            result,
            final(widget)@,
            spec_load_config(
                line_views(lines@),
                *old(cursor) as nat,
                old(widget)@,
                indent as nat,
                false,
            ).result,
        ),
        *final(cursor) == *old(cursor) + spec_load_config(
            line_views(lines@),
            *old(cursor) as nat,
            old(widget)@,
            indent as nat,
            false,
        ).consumed,
        final(widget)@ == spec_load_config(
            line_views(lines@),
            *old(cursor) as nat,
            old(widget)@,
            indent as nat,
            false,
        ).widget,
        *old(cursor) <= lines.len() ==> *final(cursor) <= lines.len(),
    decreases lines_left(line_views(lines@), *old(cursor) as nat), 1nat,
{
    let ghost views = line_views(lines@);
    let ghost start = *cursor as nat;
    let ghost whole = spec_load_config(views, start, widget@, indent as nat, false);
    let mut widget_was_added = false;
    while *cursor < lines.len()
        invariant
            views == line_views(lines@),
            start == *old(cursor),
            whole == spec_load_config(views, start, old(widget)@, indent as nat, false),
            start <= *cursor,
            start <= lines.len() ==> *cursor <= lines.len(),
            lines_left(views, *cursor as nat) <= lines_left(views, start),
            whole.result == spec_load_config(
                views,
                *cursor as nat,
                widget@,
                indent as nat,
                widget_was_added,
            ).result,
            whole.consumed == *cursor - start + spec_load_config(
                views,
                *cursor as nat,
                widget@,
                indent as nat,
                widget_was_added,
            ).consumed,
            whole.widget == spec_load_config(
                views,
                *cursor as nat,
                widget@,
                indent as nat,
                widget_was_added,
            ).widget,
        decreases lines.len() - *cursor,
    {
        let line = &lines[*cursor];
        assert(views[*cursor as int] == line@);
        if line.indentation < indent {
            return Ok(());
        }
        if line.indentation - indent > 4 || line.indentation % 4 != 0 {
            return Err(
                TemplateParserError::InvalidIndentation(line.number, indent, line.text.clone()),
            );
        }
        match load_line(widget, lines, cursor, indent, &mut widget_was_added) {
            Err(e) => {
                return Err(e);
            },
            Ok(()) => {},
        }
    }
    Ok(())
}

/// The number of spaces that `line` begins with.
pub fn get_indentation_level(line: &str) -> (level: usize)
    ensures
        level == indentation(line@),
{
    let chars = to_chars(line);
    count_indentation(&chars)
}

/// The text that a leaf draws for its stored text `line`: every placeholder
/// whose key `replacements` holds is replaced, then the pair of double quotes
/// around the whole, if there is one, is taken away.
pub fn set_replacements(line: String, replacements: &Replacements) -> (text: String)
    ensures
        text@ == spec_set_replacements(line@, replacements@),
{
    unquote(interpolate(line.as_str(), replacements))
}

} // verus!
