//! Compiling a template into a widget tree, and the ways in which that fails.

use vstd::prelude::*;
use crate::lines::{line_views, scan, scan_lines, Line, LineView};
use crate::text::{classify, classify_line, LineKind, LineKindView};
use crate::widget_wrappers::wrapper_widget::{
    is_container, lemma_block_ends_at_shallower_line, lemma_block_keeps_kind,
    lemma_block_lines_fit, load_config, resolve, spec_load_config, WidgetTree, WrapperWidget,
};
use crate::widget_wrappers::wrapper_widgets::WrapperWidgets;

verus! {

/// Why a template was rejected. Every variant but `NoRoots` begins with the
/// number of the line at fault, counted from 1.
#[derive(Debug, PartialOrd, PartialEq)]
pub enum TemplateParserError {
    /// The root declaration names a kind that cannot hold children. Holds the
    /// name of that kind.
    RootWidget(usize, String),
    /// The template holds no significant line.
    NoRoots,
    /// A second line stands at the top level. Holds that line.
    TooManyRoots(usize, String),
    /// A line is indented by no multiple of four spaces, or by more than one
    /// step beyond what its block expects. Holds the expected indentation and
    /// the line.
    InvalidIndentation(usize, usize, String),
    /// The first significant line is no widget declaration. Holds the line.
    InvalidWidgetDeclaration(usize, String),
    /// A declaration names a kind that is not registered. Holds the name.
    InvalidWidgetType(usize, String),
    /// A line is neither a declaration nor an attribute. Holds the line.
    InvalidContext(usize, String),
    /// A widget has no attribute of that name. Holds the kind and the key.
    InvalidWidgetAttributeName(usize, String, String),
    /// An attribute does not accept that value. Holds the kind, the key and
    /// the value.
    InvalidWidgetAttributeValue(usize, String, String, String),
    /// An attribute follows a child declaration in the same block. Holds the
    /// line.
    LateAttribute(usize, String),
    /// A declaration is nested under a widget that cannot hold children.
    AddWidgetToNonContainer(usize),
}

/// A [`TemplateParserError`] over character sequences.
pub enum ErrorView {
    RootWidget(nat, Seq<char>),
    NoRoots,
    TooManyRoots(nat, Seq<char>),
    InvalidIndentation(nat, nat, Seq<char>),
    InvalidWidgetDeclaration(nat, Seq<char>),
    InvalidWidgetType(nat, Seq<char>),
    InvalidContext(nat, Seq<char>),
    InvalidWidgetAttributeName(nat, Seq<char>, Seq<char>),
    InvalidWidgetAttributeValue(nat, Seq<char>, Seq<char>, Seq<char>),
    LateAttribute(nat, Seq<char>),
    AddWidgetToNonContainer(nat),
}

impl View for TemplateParserError {
    type V = ErrorView;

    open spec fn view(&self) -> ErrorView {
        match self {
            TemplateParserError::RootWidget(n, s) => ErrorView::RootWidget(*n as nat, s@),
            TemplateParserError::NoRoots => ErrorView::NoRoots,
            TemplateParserError::TooManyRoots(n, s) => ErrorView::TooManyRoots(*n as nat, s@),
            TemplateParserError::InvalidIndentation(n, e, s) => ErrorView::InvalidIndentation(
                *n as nat,
                *e as nat,
                s@,
            ),
            TemplateParserError::InvalidWidgetDeclaration(n, s) => {
                ErrorView::InvalidWidgetDeclaration(*n as nat, s@)
            },
            TemplateParserError::InvalidWidgetType(n, s) => ErrorView::InvalidWidgetType(
                *n as nat,
                s@,
            ),
            TemplateParserError::InvalidContext(n, s) => ErrorView::InvalidContext(*n as nat, s@),
            TemplateParserError::InvalidWidgetAttributeName(n, w, k) => {
                ErrorView::InvalidWidgetAttributeName(*n as nat, w@, k@)
            },
            TemplateParserError::InvalidWidgetAttributeValue(n, w, k, v) => {
                ErrorView::InvalidWidgetAttributeValue(*n as nat, w@, k@, v@)
            },
            TemplateParserError::LateAttribute(n, s) => ErrorView::LateAttribute(*n as nat, s@),
            TemplateParserError::AddWidgetToNonContainer(n) => ErrorView::AddWidgetToNonContainer(
                *n as nat,
            ),
        }
    }
}

/// The widget tree that a list of significant lines describes, or the first
/// reason why it describes none.
///
/// The first line is the root: it stands at indentation 0 and declares a
/// widget of a registered kind that can hold children. The lines after it
/// form the block of the root, expected at indentation 4. No line may be left
/// when that block ends: a line left at indentation 0 is a second root.
pub open spec fn spec_parse_lines(lines: Seq<LineView>) -> Result<WidgetTree, ErrorView> {
    if lines.len() == 0 {
        Err(ErrorView::NoRoots)
    } else if lines[0].indentation != 0 {
        Err(ErrorView::InvalidIndentation(lines[0].number, 0, lines[0].text))
    } else {
        match classify(lines[0].text) {
            LineKindView::Declaration { name } => match resolve(name) {
                None => Err(ErrorView::InvalidWidgetType(lines[0].number, name)),
                Some(fresh) => {
                    if !is_container(fresh) {
                        Err(ErrorView::RootWidget(lines[0].number, name))
                    } else {
                        let block = spec_load_config(lines, 1, fresh, 4, false);
                        match block.result {
                            Err(e) => Err(e),
                            Ok(tree) => {
                                let next = 1 + block.consumed;
                                if next >= lines.len() {
                                    Ok(tree)
                                } else if lines[next as int].indentation == 0 {
                                    Err(
                                        ErrorView::TooManyRoots(
                                            lines[next as int].number,
                                            lines[next as int].text,
                                        ),
                                    )
                                } else {
                                    Err(
                                        ErrorView::InvalidIndentation(
                                            lines[next as int].number,
                                            0,
                                            lines[next as int].text,
                                        ),
                                    )
                                }
                            },
                        }
                    }
                },
            },
            _ => Err(ErrorView::InvalidWidgetDeclaration(lines[0].number, lines[0].text)),
        }
    }
}

/// The widget tree that the template `text` describes, or the first reason
/// why it describes none.
pub open spec fn spec_parse_text(text: Seq<char>) -> Result<WidgetTree, ErrorView> {
    spec_parse_lines(scan(text))
}

/// In a template that compiles, the first significant line stands at
/// indentation 0 and every significant line is indented by a multiple of
/// four: a line indented otherwise is never accepted.
pub proof fn lemma_compiled_lines_are_aligned(lines: Seq<LineView>)
    requires
        spec_parse_lines(lines) is Ok,
    ensures
        lines.len() > 0,
        lines[0].indentation == 0,
        forall|i: int| 0 <= i < lines.len() ==> (#[trigger] lines[i]).indentation % 4 == 0,
        forall|i: int| 1 <= i < lines.len() ==> (#[trigger] lines[i]).indentation >= 4,
{
    let name = classify(lines[0].text)->name;
    let fresh = resolve(name).unwrap();
    lemma_block_lines_fit(lines, 1, fresh, 4, false);
}

/// The root of every compiled tree is a container.
pub proof fn lemma_compiled_root_is_container(lines: Seq<LineView>)
    requires
        spec_parse_lines(lines) is Ok,
    ensures
        is_container(spec_parse_lines(lines)->Ok_0),
{
    let name = classify(lines[0].text)->name;
    let fresh = resolve(name).unwrap();
    lemma_block_keeps_kind(lines, 1, fresh, 4, false);
    lemma_block_ends_at_shallower_line(lines, 1, fresh, 4, false);
}

/// A template without significant lines has no root.
pub proof fn lemma_no_lines_no_root(text: Seq<char>)
    requires
        scan(text).len() == 0,
    ensures
        spec_parse_text(text) == Err::<WidgetTree, ErrorView>(ErrorView::NoRoots),
{
}

/// Whether `result` is what `expected` asks for: the expected widget tree, or
/// the expected error.
pub open spec fn parsed(
    result: Result<WrapperWidgets, TemplateParserError>,
    expected: Result<WidgetTree, ErrorView>,
) -> bool {
    match expected {
        Ok(tree) => result is Ok && result->Ok_0@ == tree,
        Err(e) => result is Err && result->Err_0@ == e,
    }
}

/// Builds the widget tree that the significant lines of a template describe.
pub fn parse_lines(lines: &Vec<Line>) -> (result: Result<WrapperWidgets, TemplateParserError>)
    ensures
        parsed(result, spec_parse_lines(line_views(lines@))),
{
    let ghost views = line_views(lines@);
    if lines.len() == 0 {
        return Err(TemplateParserError::NoRoots);
    }
    let first = &lines[0];
    assert(views[0] == first@);
    if first.indentation != 0 {
        return Err(
            TemplateParserError::InvalidIndentation(first.number, 0, first.text.clone()),
        );
    }
    match classify_line(first.text.as_str()) {
        LineKind::Declaration { name } => match WrapperWidgets::resolve(name.as_str()) {
            None => Err(TemplateParserError::InvalidWidgetType(first.number, name)),
            Some(root) => {
                let mut root = root;
                if !root.is_container() {
                    return Err(TemplateParserError::RootWidget(first.number, name));
                }
                let mut cursor: usize = 1;
                match load_config(&mut root, lines, &mut cursor, 4) {
                    Err(e) => Err(e),
                    Ok(()) => {
                        if cursor >= lines.len() {
                            Ok(root)
                        } else {
                            let extra = &lines[cursor];
                            assert(views[cursor as int] == extra@);
                            if extra.indentation == 0 {
                                Err(
                                    TemplateParserError::TooManyRoots(
                                        extra.number,
                                        extra.text.clone(),
                                    ),
                                )
                            } else {
                                Err(
                                    TemplateParserError::InvalidIndentation(
                                        extra.number,
                                        0,
                                        extra.text.clone(),
                                    ),
                                )
                            }
                        }
                    },
                }
            },
        },
        _ => Err(TemplateParserError::InvalidWidgetDeclaration(first.number, first.text.clone())),
    }
}

/// Compiles the template `text` into its widget tree.
pub fn parse_text(text: &str) -> (result: Result<WrapperWidgets, TemplateParserError>)
    ensures
        parsed(result, spec_parse_text(text@)),
{
    let lines = scan_lines(text);
    parse_lines(&lines)
}

} // verus!
