//! What holds of everything a widget tree draws: every text lands inside the
//! region that the tree was given, and no two texts share a cell.

use vstd::prelude::*;
use crate::region::{lemma_split_is_partition, spec_split, Direction, Region};
use crate::widget_wrappers::wrapper_widget::{
    spec_draws, spec_draws_children, DrawnTextView, WidgetTree,
};

verus! {

/// Whether every text of `draws` lies in a well-formed region within `area`.
pub open spec fn all_within(draws: Seq<DrawnTextView>, area: Region) -> bool {
    forall|i: int| 0 <= i < draws.len() ==> (#[trigger] draws[i]).area.wf() && draws[i].area.within(area)
}

/// Whether no two texts of `draws` share a cell.
pub open spec fn none_overlap(draws: Seq<DrawnTextView>) -> bool {
    forall|i: int, j: int|
        0 <= i < j < draws.len() ==> !(#[trigger] draws[i]).area.overlaps((#[trigger] draws[j]).area)
}

/// Where the parts before part `upto` end: at the start of part `upto`, or
/// at the end of the whole behind the last part.
pub open spec fn boundary(area: Region, direction: Direction, count: nat, upto: nat) -> int {
    if upto < count {
        spec_split(area, direction, count)[upto as int].start(direction)
    } else {
        area.end(direction)
    }
}

/// Whether every text of `draws` ends along `direction` at or before `limit`.
pub open spec fn all_end_by(draws: Seq<DrawnTextView>, direction: Direction, limit: int) -> bool {
    forall|i: int| 0 <= i < draws.len() ==> (#[trigger] draws[i]).area.end(direction) <= limit
}

/// Everything a widget draws lies inside the region it is given, and no two
/// of its texts share a cell.
pub proof fn lemma_draws_are_disjoint_and_inside(
    tree: WidgetTree,
    area: Region,
    map: Map<Seq<char>, Seq<char>>,
)
    requires
        area.wf(),
    ensures
        all_within(spec_draws(tree, area, map), area),
        none_overlap(spec_draws(tree, area, map)),
    decreases tree, 1nat, 0nat,
{
    match tree {
        WidgetTree::Paragraph { text } => {},
        WidgetTree::Layout { direction, children } => {
            lemma_children_draws(tree, area, map, children.len());
        },
    }
}

/// What the first `upto` children of a layout draw lies inside the region of
/// the layout and before the part of child `upto`, and no two of these texts
/// share a cell.
proof fn lemma_children_draws(
    tree: WidgetTree,
    area: Region,
    map: Map<Seq<char>, Seq<char>>,
    upto: nat,
)
    requires
        area.wf(),
        tree is Layout,
        upto <= tree->children.len(),
    ensures
        all_within(spec_draws_children(tree, area, map, upto), area),
        none_overlap(spec_draws_children(tree, area, map, upto)),
        upto > 0 ==> all_end_by(
            spec_draws_children(tree, area, map, upto),
            tree->direction,
            boundary(area, tree->direction, tree->children.len(), upto),
        ),
    decreases tree, 0nat, upto,
{
    let direction = tree->direction;
    let children = tree->children;
    let count = children.len();
    if upto > 0 {
        let before = spec_draws_children(tree, area, map, (upto - 1) as nat);
        let parts = spec_split(area, direction, count);
        let part = parts[upto - 1];
        let own = spec_draws(children[upto - 1], part, map);
        let both = spec_draws_children(tree, area, map, upto);
        assert(both == before + own);
        lemma_split_is_partition(area, direction, count);
        assert(part.wf() && part.within(area));
        lemma_children_draws(tree, area, map, (upto - 1) as nat);
        lemma_draws_are_disjoint_and_inside(children[upto - 1], part, map);
        let limit = boundary(area, direction, count, upto);
        assert(part.end(direction) <= limit) by {
            if upto < count {
                assert(parts[upto - 1].end(direction) == parts[upto - 1 + 1].start(direction));
            }
        }
        assert(upto > 1 ==> boundary(area, direction, count, (upto - 1) as nat) == part.start(
            direction,
        ));
        assert forall|i: int| 0 <= i < both.len() implies (#[trigger] both[i]).area.wf()
            && both[i].area.within(area) && both[i].area.end(direction) <= limit by {
            if i < before.len() {
                assert(both[i] == before[i]);
            } else {
                assert(both[i] == own[i - before.len()]);
            }
        }
        assert forall|i: int, j: int| 0 <= i < j < both.len() implies !(#[trigger] both[i]).area.overlaps(
            (#[trigger] both[j]).area,
        ) by {
            if j < before.len() {
                assert(both[i] == before[i] && both[j] == before[j]);
            } else if i >= before.len() {
                assert(both[i] == own[i - before.len()] && both[j] == own[j - before.len()]);
            } else {
                assert(both[i] == before[i] && both[j] == own[j - before.len()]);
                assert(both[i].area.end(direction) <= part.start(direction));
                assert(part.start(direction) <= both[j].area.start(direction));
            }
        }
    }
}

} // verus!
