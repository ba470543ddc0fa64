//! The registered widget kinds as one type, and the registry that makes a
//! widget from a kind name.

use vstd::prelude::*;
use crate::parse::TemplateParserError;
use crate::region::Region;
use crate::replacements::Replacements;
use crate::text::same_text;
use crate::widget_wrappers::wrapper_layout::WrapperLayout;
use crate::widget_wrappers::wrapper_paragraph::WrapperParagraph;
use crate::widget_wrappers::wrapper_widget::{resolve, DrawnText, WidgetTree, WrapperWidget};

verus! {

/// A widget of any registered kind.
#[derive(Debug)]
pub enum WrapperWidgets {
    Layout(WrapperLayout),
    Paragraph(WrapperParagraph),
}

impl WrapperWidgets {
    /// The widget over character sequences.
    pub open spec fn tree(&self) -> WidgetTree
        decreases self,
    {
        match self {
            WrapperWidgets::Layout(layout) => layout.tree(),
            WrapperWidgets::Paragraph(paragraph) => paragraph.tree(),
        }
    }

    /// The widget that the kind name stands for, as it is before any
    /// attribute is set, or `None` where no kind has that name.
    pub fn resolve(kind_name: &str) -> (widget: Option<WrapperWidgets>)
        ensures
            widget is Some == resolve(kind_name@) is Some,
            widget matches Some(w) ==> resolve(kind_name@) == Some(w@),
    {
        if same_text(kind_name, "Layout") {
            Some(WrapperWidgets::Layout(WrapperLayout::default()))
        } else if same_text(kind_name, "Paragraph") {
            Some(WrapperWidgets::Paragraph(WrapperParagraph::default()))
        } else {
            None
        }
    }
}

impl View for WrapperWidgets {
    type V = WidgetTree;

    open spec fn view(&self) -> WidgetTree {
        self.tree()
    }
}

impl WrapperWidget for WrapperWidgets {
    fn is_container(&self) -> (container: bool) {
        match self {
            WrapperWidgets::Layout(layout) => layout.is_container(),
            WrapperWidgets::Paragraph(paragraph) => paragraph.is_container(),
        }
    }

    fn load_value(&mut self, k: &str, v: &str, line_no: usize) -> (result: Result<
        (),
        TemplateParserError,
    >) {
        match self {
            WrapperWidgets::Layout(layout) => layout.load_value(k, v, line_no),
            WrapperWidgets::Paragraph(paragraph) => paragraph.load_value(k, v, line_no),
        }
    }

    fn add_child(&mut self, child: WrapperWidgets, line_no: usize) -> (result: Result<
        (),
        TemplateParserError,
    >) {
        match self {
            WrapperWidgets::Layout(layout) => layout.add_child(child, line_no),
            WrapperWidgets::Paragraph(paragraph) => paragraph.add_child(child, line_no),
        }
    }

    fn draw_list(&self, area: Region, replacements: &Replacements) -> (draws: Vec<DrawnText>)
        decreases self,
    {
        match self {
            WrapperWidgets::Layout(layout) => layout.draw_list(area, replacements),
            WrapperWidgets::Paragraph(paragraph) => paragraph.draw_list(area, replacements),
        }
    }
}

} // verus!
