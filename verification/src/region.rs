//! Screen regions and the partition of a region among the children of a
//! container.
//!
//! A container divides its region along one axis into as many parts as it has
//! children. Every part but the last receives the same share, the integer
//! quotient of the extent by the number of children; the last part receives
//! what is left, so the parts always cover the region exactly.

use vstd::prelude::*;

verus! {

/// The axis along which a container lays out its children.
#[derive(Clone, Copy, Debug, PartialEq, Eq, Structural)]
pub enum Direction {
    /// Children stand side by side: the width is divided.
    Horizontal,
    /// Children are stacked: the height is divided.
    Vertical,
}

/// A rectangle of terminal cells: an origin and an extent in two dimensions.
///
/// The right and the bottom edge of a region always fit in `u16`.
#[derive(Clone, Copy, Debug, PartialEq, Eq, Structural)]
pub struct Region {
    pub(crate) x: u16,
    pub(crate) y: u16,
    pub(crate) width: u16,
    pub(crate) height: u16,
}

impl Region {
    /// Both far edges of the region are representable coordinates.
    #[verifier::type_invariant]
    pub closed spec fn wf(self) -> bool {
        &&& self.x + self.width <= u16::MAX
        &&& self.y + self.height <= u16::MAX
    }

    /// The column of the left edge.
    pub closed spec fn left(self) -> int {
        self.x as int
    }

    /// The row of the top edge.
    pub closed spec fn top(self) -> int {
        self.y as int
    }

    /// The number of columns.
    pub closed spec fn columns(self) -> int {
        self.width as int
    }

    /// The number of rows.
    pub closed spec fn rows(self) -> int {
        self.height as int
    }

    /// The region with the given origin and extent, as a specification value.
    pub closed spec fn at(left: int, top: int, columns: int, rows: int) -> Region {
        Region { x: left as u16, y: top as u16, width: columns as u16, height: rows as u16 }
    }

    /// Where the region starts along `direction`.
    pub open spec fn start(self, direction: Direction) -> int {
        match direction {
            Direction::Horizontal => self.left(),
            Direction::Vertical => self.top(),
        }
    }

    /// How far the region extends along `direction`.
    pub open spec fn extent(self, direction: Direction) -> int {
        match direction {
            Direction::Horizontal => self.columns(),
            Direction::Vertical => self.rows(),
        }
    }

    /// The first coordinate past the region along `direction`.
    pub open spec fn end(self, direction: Direction) -> int {
        self.start(direction) + self.extent(direction)
    }

    /// Whether every cell of the region is a cell of `outer`.
    pub open spec fn within(self, outer: Region) -> bool {
        &&& outer.left() <= self.left()
        &&& self.left() + self.columns() <= outer.left() + outer.columns()
        &&& outer.top() <= self.top()
        &&& self.top() + self.rows() <= outer.top() + outer.rows()
    }

    /// Whether the cell in `column` and `row` is a cell of the region.
    pub open spec fn holds(self, column: int, row: int) -> bool {
        &&& self.left() <= column < self.left() + self.columns()
        &&& self.top() <= row < self.top() + self.rows()
    }

    /// Whether the two regions have a cell in common.
    pub open spec fn overlaps(self, other: Region) -> bool {
        &&& self.left() < other.left() + other.columns()
        &&& other.left() < self.left() + self.columns()
        &&& self.top() < other.top() + other.rows()
        &&& other.top() < self.top() + self.rows()
    }

    /// Two regions are equal exactly when their four coordinates are.
    pub proof fn lemma_region_eq(self, other: Region)
        ensures
            (self == other) <==> (self.left() == other.left() && self.top() == other.top()
                && self.columns() == other.columns() && self.rows() == other.rows()),
    {
    }

    /// The coordinates of a region built by [`Region::at`] from values in range.
    pub proof fn lemma_at(left: int, top: int, columns: int, rows: int)
        requires
            0 <= left,
            0 <= top,
            0 <= columns,
            0 <= rows,
            left + columns <= u16::MAX,
            top + rows <= u16::MAX,
        ensures
            Region::at(left, top, columns, rows).wf(),
            Region::at(left, top, columns, rows).left() == left,
            Region::at(left, top, columns, rows).top() == top,
            Region::at(left, top, columns, rows).columns() == columns,
            Region::at(left, top, columns, rows).rows() == rows,
    {
    }

    /// The coordinates of a well-formed region are in range.
    pub proof fn lemma_bounds(self)
        requires
            self.wf(),
        ensures
            0 <= self.left(),
            0 <= self.top(),
            0 <= self.columns(),
            0 <= self.rows(),
            self.left() + self.columns() <= u16::MAX,
            self.top() + self.rows() <= u16::MAX,
            self == Region::at(self.left(), self.top(), self.columns(), self.rows()),
    {
    }

    /// The region at `(x, y)` with the given extent, shortened where the far
    /// edge would pass `u16::MAX` so that the edge lies at `u16::MAX`.
    pub open spec fn clamped(x: u16, y: u16, width: u16, height: u16) -> Region {
        Region::at(
            x as int,
            y as int,
            if x + width <= u16::MAX {
                width as int
            } else {
                u16::MAX - x
            },
            if y + height <= u16::MAX {
                height as int
            } else {
                u16::MAX - y
            },
        )
    }

    /// A region at `(x, y)`. Where `width` or `height` would carry the far edge
    /// past `u16::MAX`, it is shortened so that the edge lies at `u16::MAX`.
    pub fn new(x: u16, y: u16, width: u16, height: u16) -> (region: Region)
        ensures
            region == Region::clamped(x, y, width, height),
            region.wf(),
            region.left() == x,
            region.top() == y,
            region.columns() == if x + width <= u16::MAX { width as int } else { u16::MAX - x },
            region.rows() == if y + height <= u16::MAX { height as int } else { u16::MAX - y },
    {
        let width = if width <= u16::MAX - x { width } else { u16::MAX - x };
        let height = if height <= u16::MAX - y { height } else { u16::MAX - y };
        Region { x, y, width, height }
    }

    /// The column of the left edge.
    pub fn x(&self) -> (x: u16)
        ensures
            x == self.left(),
    {
        self.x
    }

    /// The row of the top edge.
    pub fn y(&self) -> (y: u16)
        ensures
            y == self.top(),
    {
        self.y
    }

    /// The number of columns.
    pub fn width(&self) -> (width: u16)
        ensures
            width == self.columns(),
    {
        self.width
    }

    /// The number of rows.
    pub fn height(&self) -> (height: u16)
        ensures
            height == self.rows(),
    {
        self.height
    }
}

/// The share of `extent` that each of `count` parts but the last receives.
pub open spec fn share(extent: int, count: int) -> int {
    if count > 0 {
        extent / count
    } else {
        0
    }
}

/// Where part `index` of `count` starts, measured from the start of the whole.
pub open spec fn part_offset(extent: int, count: int, index: int) -> int {
    index * share(extent, count)
}

/// How far part `index` of `count` extends: the common share, and for the last
/// part whatever the others leave.
pub open spec fn part_extent(extent: int, count: int, index: int) -> int {
    if index + 1 == count {
        extent - (count - 1) * share(extent, count)
    } else {
        share(extent, count)
    }
}

/// Part `index` of the `count` parts into which `area` is divided along
/// `direction`. The other dimension is that of `area`.
pub open spec fn spec_part(area: Region, direction: Direction, count: int, index: int) -> Region {
    let offset = part_offset(area.extent(direction), count, index);
    let extent = part_extent(area.extent(direction), count, index);
    match direction {
        Direction::Horizontal => Region::at(area.left() + offset, area.top(), extent, area.rows()),
        Direction::Vertical => Region::at(area.left(), area.top() + offset, area.columns(), extent),
    }
}

/// The `count` parts into which `area` is divided along `direction`, in order.
pub open spec fn spec_split(area: Region, direction: Direction, count: nat) -> Seq<Region> {
    Seq::new(count, |index: int| spec_part(area, direction, count as int, index))
}

/// The sum of the extents along `direction` of the first `upto` regions of `parts`.
pub open spec fn total_extent(parts: Seq<Region>, direction: Direction, upto: nat) -> int
    decreases upto,
{
    if upto == 0 {
        0
    } else {
        total_extent(parts, direction, (upto - 1) as nat) + parts[upto - 1].extent(direction)
    }
}

/// The parts before the last take up `index` shares, which never exceed the whole.
pub proof fn lemma_part_bounds(extent: int, count: int, index: int)
    requires
        0 <= extent,
        0 <= index < count,
    ensures
        0 <= part_offset(extent, count, index),
        0 <= part_extent(extent, count, index),
        part_offset(extent, count, index) + part_extent(extent, count, index) <= extent,
        index + 1 < count ==> part_offset(extent, count, index) + part_extent(
            extent,
            count,
            index,
        ) == part_offset(extent, count, index + 1),
        index + 1 == count ==> part_offset(extent, count, index) + part_extent(
            extent,
            count,
            index,
        ) == extent,
{
    let s = extent / count;
    assert(0 <= s && count * s <= extent) by (nonlinear_arith)
        requires
            0 <= extent,
            0 < count,
            s == extent / count,
    ;
    assert(0 <= index * s && (index + 1) * s == index * s + s && (index + 1) * s <= count * s)
        by (nonlinear_arith)
        requires
            0 <= s,
            0 <= index < count,
    ;
    assert((count - 1) * s == count * s - s) by (nonlinear_arith);
}

/// Each part of a well-formed region is a well-formed region with the
/// coordinates that the partition assigns to it.
pub proof fn lemma_part_coordinates(area: Region, direction: Direction, count: int, index: int)
    requires
        area.wf(),
        0 <= index < count,
    ensures
        spec_part(area, direction, count, index).wf(),
        spec_part(area, direction, count, index).start(direction) == area.start(direction)
            + part_offset(area.extent(direction), count, index),
        spec_part(area, direction, count, index).extent(direction) == part_extent(
            area.extent(direction),
            count,
            index,
        ),
        direction == Direction::Horizontal ==> spec_part(area, direction, count, index).top()
            == area.top() && spec_part(area, direction, count, index).rows() == area.rows(),
        direction == Direction::Vertical ==> spec_part(area, direction, count, index).left()
            == area.left() && spec_part(area, direction, count, index).columns() == area.columns(),
{
    area.lemma_bounds();
    lemma_part_bounds(area.extent(direction), count, index);
    let offset = part_offset(area.extent(direction), count, index);
    let extent = part_extent(area.extent(direction), count, index);
    match direction {
        Direction::Horizontal => {
            Region::lemma_at(area.left() + offset, area.top(), extent, area.rows());
        },
        Direction::Vertical => {
            Region::lemma_at(area.left(), area.top() + offset, area.columns(), extent);
        },
    }
}

/// The first `upto` parts of a partition extend, taken together, as far as the
/// start of the part that follows them.
proof fn lemma_total_extent_prefix(area: Region, direction: Direction, count: nat, upto: nat)
    requires
        area.wf(),
        count >= 1,
        upto <= count,
    ensures
        total_extent(spec_split(area, direction, count), direction, upto) == if upto == count {
            area.extent(direction)
        } else {
            part_offset(area.extent(direction), count as int, upto as int)
        },
    decreases upto,
{
    let parts = spec_split(area, direction, count);
    let extent = area.extent(direction);
    area.lemma_bounds();
    if upto == 0 {
        assert(part_offset(extent, count as int, 0) == 0) by (nonlinear_arith);
    } else {
        lemma_total_extent_prefix(area, direction, count, (upto - 1) as nat);
        lemma_part_coordinates(area, direction, count as int, upto - 1);
        lemma_part_bounds(extent, count as int, upto - 1);
        assert(parts[upto - 1] == spec_part(area, direction, count as int, upto - 1));
    }
}

/// A container's region is partitioned completely among its children.
///
/// For a well-formed region divided along `direction` into `count >= 1` parts:
/// there are `count` parts; the first starts where the region starts; each
/// part ends exactly where the next begins, and the last ends where the region
/// ends, so no two parts overlap and nothing is left over; the extents of the
/// parts sum to the extent of the region; and across the axis every part has
/// the position and the extent of the region.
pub proof fn lemma_split_is_partition(area: Region, direction: Direction, count: nat)
    requires
        area.wf(),
        count >= 1,
    ensures
        spec_split(area, direction, count).len() == count,
        spec_split(area, direction, count)[0].start(direction) == area.start(direction),
        spec_split(area, direction, count)[count - 1].end(direction) == area.end(direction),
        forall|i: int|
            0 <= i < count - 1 ==> (#[trigger] spec_split(area, direction, count)[i]).end(direction)
                == spec_split(area, direction, count)[i + 1].start(direction),
        forall|i: int, j: int|
            0 <= i < j < count ==> (#[trigger] spec_split(area, direction, count)[i]).end(direction)
                <= (#[trigger] spec_split(area, direction, count)[j]).start(direction),
        forall|i: int|
            0 <= i < count ==> {
                let part = #[trigger] spec_split(area, direction, count)[i];
                &&& part.wf()
                &&& area.start(direction) <= part.start(direction)
                &&& part.end(direction) <= area.end(direction)
                &&& direction == Direction::Horizontal ==> part.top() == area.top() && part.rows()
                    == area.rows()
                &&& direction == Direction::Vertical ==> part.left() == area.left()
                    && part.columns() == area.columns()
            },
        total_extent(spec_split(area, direction, count), direction, count) == area.extent(
            direction,
        ),
{
    let parts = spec_split(area, direction, count);
    let extent = area.extent(direction);
    let n = count as int;
    area.lemma_bounds();
    assert forall|i: int| 0 <= i < n implies {
        let part = #[trigger] parts[i];
        &&& part.wf()
        &&& part.start(direction) == area.start(direction) + part_offset(extent, n, i)
        &&& part.extent(direction) == part_extent(extent, n, i)
        &&& 0 <= part_offset(extent, n, i)
        &&& 0 <= part_extent(extent, n, i)
        &&& part_offset(extent, n, i) + part_extent(extent, n, i) <= extent
        &&& direction == Direction::Horizontal ==> part.top() == area.top() && part.rows()
            == area.rows()
        &&& direction == Direction::Vertical ==> part.left() == area.left() && part.columns()
            == area.columns()
    } by {
        lemma_part_coordinates(area, direction, n, i);
        lemma_part_bounds(extent, n, i);
    }
    assert(part_offset(extent, n, 0) == 0) by (nonlinear_arith);
    lemma_part_bounds(extent, n, n - 1);
    assert forall|i: int| 0 <= i < n - 1 implies (#[trigger] parts[i]).end(direction) == parts[i
        + 1].start(direction) by {
        lemma_part_bounds(extent, n, i);
        assert(parts[i + 1].start(direction) == area.start(direction) + part_offset(
            extent,
            n,
            i + 1,
        ));
    }
    assert forall|i: int, j: int| 0 <= i < j < n implies (#[trigger] parts[i]).end(direction) <= (
    #[trigger] parts[j]).start(direction) by {
        lemma_part_bounds(extent, n, i);
        let s = share(extent, n);
        assert((i + 1) * s <= j * s) by (nonlinear_arith)
            requires
                0 <= s,
                i + 1 <= j,
        ;
        assert((i + 1) * s == i * s + s) by (nonlinear_arith);
    }
    lemma_total_extent_prefix(area, direction, count, count);
}

/// Divides `area` along `direction` into `count` parts of equal share, the
/// remainder of the division going to the last part.
pub fn split(area: Region, direction: Direction, count: usize) -> (parts: Vec<Region>)
    ensures
        parts@ == spec_split(area, direction, count as nat),
{
    proof {
        use_type_invariant(&area);
        area.lemma_bounds();
    }
    let extent: u16 = match direction {
        Direction::Horizontal => area.width,
        Direction::Vertical => area.height,
    };
    let mut parts: Vec<Region> = Vec::new();
    if count == 0 {
        assert(parts@ =~= spec_split(area, direction, 0));
        return parts;
    }
    let quotient: usize = extent as usize / count;
    assert(quotient <= extent) by (nonlinear_arith)
        requires
            quotient == extent as int / count as int,
            0 <= extent,
            0 < count,
    ;
    let each: u16 = quotient as u16;
    let mut offset: u16 = 0;
    let mut index: usize = 0;
    while index < count
        invariant
            area.wf(),
            0 < count,
            index <= count,
            extent == area.extent(direction),
            each == share(extent as int, count as int),
            index < count ==> offset == part_offset(extent as int, count as int, index as int),
            parts@ == spec_split(area, direction, count as nat).take(index as int),
        decreases count - index,
    {
        proof {
            lemma_part_bounds(extent as int, count as int, index as int);
            lemma_part_coordinates(area, direction, count as int, index as int);
        }
        let length: u16 = if index + 1 == count {
            extent - offset
        } else {
            each
        };
        let part = match direction {
            Direction::Horizontal => Region {
                x: area.x + offset,
                y: area.y,
                width: length,
                height: area.height,
            },
            Direction::Vertical => Region {
                x: area.x,
                y: area.y + offset,
                width: area.width,
                height: length,
            },
        };
        proof {
            let wanted = spec_part(area, direction, count as int, index as int);
            assert((count - 1) * share(extent as int, count as int) == part_offset(
                extent as int,
                count as int,
                count - 1,
            ));
            part.lemma_region_eq(wanted);
            assert(part == wanted);
            assert(parts@.push(part) =~= spec_split(area, direction, count as nat).take(
                index + 1,
            ));
        }
        parts.push(part);
        if index + 1 < count {
            offset = offset + each;
        }
        index = index + 1;
    }
    assert(parts@ =~= spec_split(area, direction, count as nat));
    parts
}

} // verus!
