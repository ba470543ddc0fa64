//! The container kind: an axis and an ordered list of children.

use vstd::prelude::*;
use crate::parse::TemplateParserError;
use crate::region::{spec_split, split, Direction, Region};
use crate::replacements::Replacements;
use crate::text::same_text;
use crate::widget_wrappers::wrapper_widget::{
    drawn_views, spec_draws_children, DrawnText, WidgetTree, WrapperWidget,
};
use crate::widget_wrappers::wrapper_widgets::WrapperWidgets;

verus! {

/// A container that divides its region among its children along one axis.
#[derive(Debug)]
pub struct WrapperLayout {
    direction: Direction,
    children: Vec<WrapperWidgets>,
}

impl WrapperLayout {
    /// The layout over character sequences.
    pub closed spec fn tree(&self) -> WidgetTree
        decreases self,
    {
        WidgetTree::Layout {
            direction: self.direction,
            children: Seq::new(
                self.children@.len(),
                |i: int|
                    if 0 <= i < self.children@.len() {
                        self.children@[i].tree()
                    } else {
                        WidgetTree::Paragraph { text: Seq::empty() }
                    },
            ),
        }
    }

    /// The axis along which the children are laid out.
    pub fn direction(&self) -> (direction: Direction)
        ensures
            self@ is Layout,
            direction == self@->direction,
    {
        self.direction
    }

    /// The children in drawing order.
    pub fn children(&self) -> (children: &Vec<WrapperWidgets>)
        ensures
            self@ is Layout,
            children@.len() == self@->children.len(),
            forall|i: int| 0 <= i < children@.len() ==> children@[i].tree() == self@->children[i],
    {
        &self.children
    }
}

impl View for WrapperLayout {
    type V = WidgetTree;

    open spec fn view(&self) -> WidgetTree {
        self.tree()
    }
}

impl Default for WrapperLayout {
    /// A vertical layout without children.
    fn default() -> (layout: WrapperLayout)
        ensures
            layout@ == (WidgetTree::Layout {
                direction: Direction::Vertical,
                children: Seq::empty(),
            }),
    {
        let layout = WrapperLayout { direction: Direction::Vertical, children: Vec::new() };
        assert(layout@->children =~= Seq::empty());
        layout
    }
}

impl WrapperWidget for WrapperLayout {
    fn is_container(&self) -> (container: bool) {
        true
    }

    fn load_value(&mut self, k: &str, v: &str, line_no: usize) -> (result: Result<
        (),
        TemplateParserError,
    >) {
        if same_text(k, "direction") {
            if same_text(v, "horizontal") {
                self.direction = Direction::Horizontal;
                Ok(())
            } else if same_text(v, "vertical") {
                self.direction = Direction::Vertical;
                Ok(())
            } else {
                Err(
                    TemplateParserError::InvalidWidgetAttributeValue(
                        line_no,
                        "Layout".to_owned(),
                        k.to_owned(),
                        v.to_owned(),
                    ),
                )
            }
        } else {
            Err(
                TemplateParserError::InvalidWidgetAttributeName(
                    line_no,
                    "Layout".to_owned(),
                    k.to_owned(),
                ),
            )
        }
    }

    fn add_child(&mut self, child: WrapperWidgets, line_no: usize) -> (result: Result<
        (),
        TemplateParserError,
    >) {
        self.children.push(child);
        assert(self@->children =~= old(self)@->children.push(child.tree()));
        Ok(())
    }

    fn draw_list(&self, area: Region, replacements: &Replacements) -> (draws: Vec<DrawnText>)
        decreases self,
    {
        let count = self.children.len();
        let parts = split(area, self.direction, count);
        let mut draws: Vec<DrawnText> = Vec::new();
        let mut index: usize = 0;
        assert(drawn_views(draws@) =~= spec_draws_children(self@, area, replacements@, 0));
        while index < count
            invariant
                count == self.children.len(),
                index <= count,
                parts@ == spec_split(area, self.direction, count as nat),
                drawn_views(draws@) == spec_draws_children(
                    self@,
                    area,
                    replacements@,
                    index as nat,
                ),
            decreases count - index,
        {
            let ghost before = drawn_views(draws@);
            let mut more = self.children[index].draw_list(parts[index], replacements);
            let ghost added = drawn_views(more@);
            draws.append(&mut more);
            assert(drawn_views(draws@) =~= before + added);
            index = index + 1;
        }
        draws
    }
}

} // verus!
