//! The text kind: a leaf that draws one text.

use vstd::prelude::*;
use crate::parse::TemplateParserError;
use crate::region::Region;
use crate::replacements::Replacements;
use crate::text::same_text;
use crate::widget_wrappers::wrapper_widget::{
    drawn_views, set_replacements, spec_draws, DrawnText, WidgetTree, WrapperWidget,
};
use crate::widget_wrappers::wrapper_widgets::WrapperWidgets;

verus! {

/// A leaf that holds a text and takes no children.
#[derive(Debug)]
pub struct WrapperParagraph {
    text: String,
}

impl WrapperParagraph {
    /// The paragraph over a character sequence.
    pub closed spec fn tree(&self) -> WidgetTree {
        WidgetTree::Paragraph { text: self.text@ }
    }

    /// The text as it stands in the template, quotes and placeholders included.
    pub fn text(&self) -> (text: &str)
        ensures
            self@ == (WidgetTree::Paragraph { text: text@ }),
    {
        self.text.as_str()
    }
}

impl View for WrapperParagraph {
    type V = WidgetTree;

    open spec fn view(&self) -> WidgetTree {
        self.tree()
    }
}

impl Default for WrapperParagraph {
    /// A paragraph without text.
    fn default() -> (paragraph: WrapperParagraph)
        ensures
            paragraph@ == (WidgetTree::Paragraph { text: Seq::empty() }),
    {
        WrapperParagraph { text: String::new() }
    }
}

impl WrapperWidget for WrapperParagraph {
    fn is_container(&self) -> (container: bool) {
        false
    }

    fn load_value(&mut self, k: &str, v: &str, line_no: usize) -> (result: Result<
        (),
        TemplateParserError,
    >) {
        if same_text(k, "text") {
            self.text = v.to_owned();
            Ok(())
        } else {
            Err(
                TemplateParserError::InvalidWidgetAttributeName(
                    line_no,
                    "Paragraph".to_owned(),
                    k.to_owned(),
                ),
            )
        }
    }

    fn add_child(&mut self, child: WrapperWidgets, line_no: usize) -> (result: Result<
        (),
        TemplateParserError,
    >) {
        Err(TemplateParserError::AddWidgetToNonContainer(line_no))
    }

    fn draw_list(&self, area: Region, replacements: &Replacements) -> (draws: Vec<DrawnText>) {
        let text = set_replacements(self.text.clone(), replacements);
        let mut draws: Vec<DrawnText> = Vec::new();
        draws.push(DrawnText { area, text });
        assert(drawn_views(draws@) =~= spec_draws(self@, area, replacements@));
        draws
    }
}

} // verus!
