//! Geometry of fragments: lengths in app units, flow-relative (logical)
//! vectors, rectangles and sides, and physical points, sizes and rectangles.
//!
//! Every executable type has a view made of mathematical integers; the
//! operations are specified over those views, and an operation whose result
//! is a sum or a difference requires that result to fit in an `i32`.
use vstd::prelude::*;

verus! {

/// An app-unit count that an `i32` can hold.
pub open spec fn fits(v: int) -> bool {
    i32::MIN <= v <= i32::MAX
}

pub open spec fn int_max(a: int, b: int) -> int {
    if a >= b {
        a
    } else {
        b
    }
}

pub open spec fn int_min(a: int, b: int) -> int {
    if a <= b {
        a
    } else {
        b
    }
}

/// A CSS length, held in app units (sixtieths of a CSS pixel).
#[derive(Clone, Copy, Debug, PartialEq, Eq, Structural)]
pub struct Length {
    pub au: i32,
}

impl View for Length {
    type V = int;

    open spec fn view(&self) -> int {
        self.au as int
    }
}

impl Length {
    /// The length of `au` app units, where `au` fits in an `i32`.
    pub fn checked_from_i64(au: i64) -> (r: Option<Length>)
        ensures
            r is Some <==> fits(au as int),
            r matches Some(l) ==> l@ == au,
    {
        if i32::MIN as i64 <= au && au <= i32::MAX as i64 {
            Some(Length { au: au as i32 })
        } else {
            None
        }
    }

    pub fn zero() -> (r: Length)
        ensures
            r@ == 0,
    {
        Length { au: 0 }
    }

    /// The length of the given number of app units.
    pub fn from_au(au: i32) -> (r: Length)
        ensures
            r@ == au,
    {
        Length { au }
    }

    pub fn max(self, other: Length) -> (r: Length)
        ensures
            r@ == int_max(self@, other@),
    {
        if self.au >= other.au {
            self
        } else {
            other
        }
    }

    pub fn min(self, other: Length) -> (r: Length)
        ensures
            r@ == int_min(self@, other@),
    {
        if self.au <= other.au {
            self
        } else {
            other
        }
    }

    pub fn plus(self, other: Length) -> (r: Length)
        requires
            fits(self@ + other@),
        ensures
            r@ == self@ + other@,
    {
        Length { au: self.au + other.au }
    }

    pub fn minus(self, other: Length) -> (r: Length)
        requires
            fits(self@ - other@),
        ensures
            r@ == self@ - other@,
    {
        Length { au: self.au - other.au }
    }
}

/// A writing mode, of which layout here reads whether lines run vertically.
#[derive(Clone, Copy, Debug, PartialEq, Eq, Structural)]
pub struct WritingMode {
    pub vertical: bool,
}

impl WritingMode {
    /// The initial writing mode: horizontal lines, top to bottom.
    pub fn horizontal_tb() -> (r: WritingMode)
        ensures
            r.is_horizontal(),
    {
        WritingMode { vertical: false }
    }

    pub open spec fn is_horizontal(self) -> bool {
        !self.vertical
    }
}

// ---------------------------------------------------------------------------
// Mathematical models.
/// A flow-relative vector: an inline and a block component.
pub struct FlowVec {
    pub inline: int,
    pub block: int,
}

/// A flow-relative rectangle: its start corner and its size.
pub struct FlowRect {
    pub start_corner: FlowVec,
    pub size: FlowVec,
}

/// Flow-relative sides, such as a box's padding, border or margin.
pub struct FlowSides {
    pub inline_start: int,
    pub inline_end: int,
    pub block_start: int,
    pub block_end: int,
}

/// A physical point or vector.
pub struct PhysPoint {
    pub x: int,
    pub y: int,
}

/// A physical size.
pub struct PhysSize {
    pub width: int,
    pub height: int,
}

/// A physical rectangle: its origin (top left corner) and its size.
pub struct PhysRect {
    pub origin: PhysPoint,
    pub size: PhysSize,
}

impl FlowVec {
    pub open spec fn fits(self) -> bool {
        fits(self.inline) && fits(self.block)
    }

    /// The physical size of a flow-relative vector in a writing mode.
    pub open spec fn to_physical(self, mode: WritingMode) -> PhysSize {
        if mode.is_horizontal() {
            PhysSize { width: self.inline, height: self.block }
        } else {
            PhysSize { width: self.block, height: self.inline }
        }
    }
}

impl FlowSides {
    pub open spec fn inline_sum(self) -> int {
        self.inline_start + self.inline_end
    }

    pub open spec fn block_sum(self) -> int {
        self.block_start + self.block_end
    }

    /// Side by side sums.
    pub open spec fn plus(self, other: FlowSides) -> FlowSides {
        FlowSides {
            inline_start: self.inline_start + other.inline_start,
            inline_end: self.inline_end + other.inline_end,
            block_start: self.block_start + other.block_start,
            block_end: self.block_end + other.block_end,
        }
    }
}

impl FlowRect {
    pub open spec fn zero() -> FlowRect {
        FlowRect {
            start_corner: FlowVec { inline: 0, block: 0 },
            size: FlowVec { inline: 0, block: 0 },
        }
    }

    pub open spec fn fits(self) -> bool {
        self.start_corner.fits() && self.size.fits()
    }

    /// The rectangle grown outwards by the given sides.
    pub open spec fn inflate(self, sides: FlowSides) -> FlowRect {
        FlowRect {
            start_corner: FlowVec {
                inline: self.start_corner.inline - sides.inline_start,
                block: self.start_corner.block - sides.block_start,
            },
            size: FlowVec {
                inline: self.size.inline + sides.inline_sum(),
                block: self.size.block + sides.block_sum(),
            },
        }
    }

    /// The physical rectangle of a flow-relative rectangle in a writing mode.
    pub open spec fn to_physical(self, mode: WritingMode) -> PhysRect {
        PhysRect {
            origin: if mode.is_horizontal() {
                PhysPoint { x: self.start_corner.inline, y: self.start_corner.block }
            } else {
                PhysPoint { x: self.start_corner.block, y: self.start_corner.inline }
            },
            size: self.size.to_physical(mode),
        }
    }
}

impl PhysPoint {
    pub open spec fn fits(self) -> bool {
        fits(self.x) && fits(self.y)
    }

    pub open spec fn neg(self) -> PhysPoint {
        PhysPoint { x: -self.x, y: -self.y }
    }
}

impl PhysSize {
    pub open spec fn fits(self) -> bool {
        fits(self.width) && fits(self.height)
    }

    /// The size seen as a vector from the origin.
    pub open spec fn to_vector(self) -> PhysPoint {
        PhysPoint { x: self.width, y: self.height }
    }
}

impl PhysRect {
    pub open spec fn zero() -> PhysRect {
        PhysRect { origin: PhysPoint { x: 0, y: 0 }, size: PhysSize { width: 0, height: 0 } }
    }

    pub open spec fn fits(self) -> bool {
        self.origin.fits() && self.size.fits()
    }

    pub open spec fn is_zero_size(self) -> bool {
        self.size.width == 0 && self.size.height == 0
    }

    pub open spec fn max_x(self) -> int {
        self.origin.x + self.size.width
    }

    pub open spec fn max_y(self) -> int {
        self.origin.y + self.size.height
    }

    /// The rectangle moved by a vector.
    pub open spec fn translate(self, by: PhysPoint) -> PhysRect {
        PhysRect { origin: PhysPoint { x: self.origin.x + by.x, y: self.origin.y + by.y }, size: self.size }
    }

    /// The smallest rectangle that holds both, where a rectangle of zero size
    /// counts for nothing.
    pub open spec fn union(self, other: PhysRect) -> PhysRect {
        if self.is_zero_size() {
            other
        } else if other.is_zero_size() {
            self
        } else {
            let x = int_min(self.origin.x, other.origin.x);
            let y = int_min(self.origin.y, other.origin.y);
            PhysRect {
                origin: PhysPoint { x, y },
                size: PhysSize {
                    width: int_max(self.max_x(), other.max_x()) - x,
                    height: int_max(self.max_y(), other.max_y()) - y,
                },
            }
        }
    }

    /// Whether this rectangle spans at least the extent of `other`.
    pub open spec fn covers(self, other: PhysRect) -> bool {
        &&& self.origin.x <= other.origin.x
        &&& self.origin.y <= other.origin.y
        &&& self.max_x() >= other.max_x()
        &&& self.max_y() >= other.max_y()
    }

    pub open spec fn has_nonnegative_size(self) -> bool {
        self.size.width >= 0 && self.size.height >= 0
    }
}

// ---------------------------------------------------------------------------
// Laws of the geometry.
/// Growing a rectangle by two sets of sides in turn grows it by their sum:
/// a border box is its content box grown by padding and border together.
pub proof fn lemma_inflate_twice(r: FlowRect, a: FlowSides, b: FlowSides)
    ensures
        r.inflate(a).inflate(b) == r.inflate(a.plus(b)),
{
}

/// Moving a rectangle by a vector and then by its opposite gives it back.
pub proof fn lemma_translate_back(r: PhysRect, by: PhysPoint)
    ensures
        r.translate(by).translate(by.neg()) == r,
{
}

/// A rectangle of zero size leaves any rectangle unchanged under union.
pub proof fn lemma_union_zero_size(a: PhysRect, z: PhysRect)
    requires
        z.is_zero_size(),
    ensures
        z.union(a) == a,
        a.is_zero_size() || a.union(z) == a,
{
}

/// Union does not depend on the order of its operands, unless both have
/// zero size.
pub proof fn lemma_union_commutative(a: PhysRect, b: PhysRect)
    requires
        !(a.is_zero_size() && b.is_zero_size()),
    ensures
        a.union(b) == b.union(a),
{
}

/// The union of two rectangles of nonzero size spans both.
pub proof fn lemma_union_covers(a: PhysRect, b: PhysRect)
    requires
        !a.is_zero_size(),
        !b.is_zero_size(),
    ensures
        a.union(b).covers(a),
        a.union(b).covers(b),
{
}

/// Union keeps sizes non-negative.
pub proof fn lemma_union_nonnegative(a: PhysRect, b: PhysRect)
    requires
        a.has_nonnegative_size(),
        b.has_nonnegative_size(),
    ensures
        a.union(b).has_nonnegative_size(),
        !a.is_zero_size() ==> !a.union(b).is_zero_size(),
        !b.is_zero_size() ==> !a.union(b).is_zero_size(),
{
}

/// Covering is transitive.
pub proof fn lemma_covers_transitive(a: PhysRect, b: PhysRect, c: PhysRect)
    requires
        a.covers(b),
        b.covers(c),
    ensures
        a.covers(c),
{
}

// ---------------------------------------------------------------------------
// Executable types.
/// A flow-relative vector.
#[derive(Clone, Copy, Debug, PartialEq, Eq, Structural)]
pub struct Vec2 {
    pub inline: Length,
    pub block: Length,
}

/// A flow-relative rectangle.
#[derive(Clone, Copy, Debug, PartialEq, Eq, Structural)]
pub struct Rect {
    pub start_corner: Vec2,
    pub size: Vec2,
}

/// Flow-relative sides.
#[derive(Clone, Copy, Debug, PartialEq, Eq, Structural)]
pub struct Sides {
    pub inline_start: Length,
    pub inline_end: Length,
    pub block_start: Length,
    pub block_end: Length,
}

/// A physical point.
#[derive(Clone, Copy, Debug, PartialEq, Eq, Structural)]
pub struct PhysicalPoint {
    pub x: Length,
    pub y: Length,
}

/// A physical vector.
#[derive(Clone, Copy, Debug, PartialEq, Eq, Structural)]
pub struct PhysicalVector {
    pub x: Length,
    pub y: Length,
}

/// A physical size.
#[derive(Clone, Copy, Debug, PartialEq, Eq, Structural)]
pub struct PhysicalSize {
    pub width: Length,
    pub height: Length,
}

/// A physical rectangle.
#[derive(Clone, Copy, Debug, PartialEq, Eq, Structural)]
pub struct PhysicalRect {
    pub origin: PhysicalPoint,
    pub size: PhysicalSize,
}

impl View for Vec2 {
    type V = FlowVec;

    open spec fn view(&self) -> FlowVec {
        FlowVec { inline: self.inline@, block: self.block@ }
    }
}

impl View for Rect {
    type V = FlowRect;

    open spec fn view(&self) -> FlowRect {
        FlowRect { start_corner: self.start_corner@, size: self.size@ }
    }
}

impl View for Sides {
    type V = FlowSides;

    open spec fn view(&self) -> FlowSides {
        FlowSides {
            inline_start: self.inline_start@,
            inline_end: self.inline_end@,
            block_start: self.block_start@,
            block_end: self.block_end@,
        }
    }
}

impl View for PhysicalPoint {
    type V = PhysPoint;

    open spec fn view(&self) -> PhysPoint {
        PhysPoint { x: self.x@, y: self.y@ }
    }
}

impl View for PhysicalVector {
    type V = PhysPoint;

    open spec fn view(&self) -> PhysPoint {
        PhysPoint { x: self.x@, y: self.y@ }
    }
}

impl View for PhysicalSize {
    type V = PhysSize;

    open spec fn view(&self) -> PhysSize {
        PhysSize { width: self.width@, height: self.height@ }
    }
}

impl View for PhysicalRect {
    type V = PhysRect;

    open spec fn view(&self) -> PhysRect {
        PhysRect { origin: self.origin@, size: self.size@ }
    }
}

impl Vec2 {
    pub fn zero() -> (r: Vec2)
        ensures
            r@ == (FlowVec { inline: 0, block: 0 }),
    {
        Vec2 { inline: Length::zero(), block: Length::zero() }
    }

    /// The physical size of this vector in the given writing mode.
    pub fn to_physical(&self, mode: WritingMode) -> (r: PhysicalSize)
        ensures
            r@ == self@.to_physical(mode),
    {
        if !mode.vertical {
            PhysicalSize { width: self.inline, height: self.block }
        } else {
            PhysicalSize { width: self.block, height: self.inline }
        }
    }
}

impl Rect {
    /// This rectangle with its start corner moved by `offset` in the inline
    /// direction (exact where the new position fits in an `i32`).
    pub open spec fn offset_start_inline(self, offset: int) -> Rect {
        Rect {
            start_corner: Vec2 {
                inline: Length { au: (self.start_corner.inline@ + offset) as i32 },
                block: self.start_corner.block,
            },
            size: self.size,
        }
    }

    /// Moves the start corner by `offset` in the inline direction.
    pub fn offset_inline(&mut self, offset: Length)
        requires
            fits(old(self).start_corner.inline@ + offset@),
        ensures
            *final(self) == old(self).offset_start_inline(offset@),
            final(self)@.start_corner.inline == old(self)@.start_corner.inline + offset@,
    {
        self.start_corner.inline = self.start_corner.inline.plus(offset);
    }
}

impl Rect {
    pub fn zero() -> (r: Rect)
        ensures
            r@ == FlowRect::zero(),
    {
        Rect { start_corner: Vec2::zero(), size: Vec2::zero() }
    }

    /// This rectangle grown outwards by `sides`.
    pub fn inflate(&self, sides: &Sides) -> (r: Rect)
        requires
            self@.inflate(sides@).fits(),
            fits(sides@.inline_sum()),
            fits(sides@.block_sum()),
        ensures
            r@ == self@.inflate(sides@),
    {
        Rect {
            start_corner: Vec2 {
                inline: self.start_corner.inline.minus(sides.inline_start),
                block: self.start_corner.block.minus(sides.block_start),
            },
            size: Vec2 {
                inline: self.size.inline.plus(sides.inline_start.plus(sides.inline_end)),
                block: self.size.block.plus(sides.block_start.plus(sides.block_end)),
            },
        }
    }

    /// This rectangle grown outwards by `sides`, where every length on the
    /// way fits in an `i32`.
    pub fn checked_inflate(&self, sides: &Sides) -> (r: Option<Rect>)
        ensures
            r is Some <==> self@.inflate(sides@).fits() && fits(sides@.inline_sum()) && fits(
                sides@.block_sum(),
            ),
            r matches Some(x) ==> x@ == self@.inflate(sides@),
    {
        let inline_sum = Length::checked_from_i64(
            sides.inline_start.au as i64 + sides.inline_end.au as i64,
        );
        let block_sum = Length::checked_from_i64(
            sides.block_start.au as i64 + sides.block_end.au as i64,
        );
        let inline = Length::checked_from_i64(
            self.start_corner.inline.au as i64 - sides.inline_start.au as i64,
        );
        let block = Length::checked_from_i64(
            self.start_corner.block.au as i64 - sides.block_start.au as i64,
        );
        let width = Length::checked_from_i64(
            self.size.inline.au as i64 + sides.inline_start.au as i64 + sides.inline_end.au as i64,
        );
        let height = Length::checked_from_i64(
            self.size.block.au as i64 + sides.block_start.au as i64 + sides.block_end.au as i64,
        );
        match (inline_sum, block_sum, inline, block, width, height) {
            (Some(_), Some(_), Some(inline), Some(block), Some(width), Some(height)) => Some(
                Rect {
                    start_corner: Vec2 { inline, block },
                    size: Vec2 { inline: width, block: height },
                },
            ),
            _ => None,
        }
    }

    /// The physical rectangle of this rectangle in the given writing mode.
    /// The containing block plays no part in the modes handled here.
    pub fn to_physical(&self, mode: WritingMode, _containing_block: &PhysicalRect) -> (r:
        PhysicalRect)
        ensures
            r@ == self@.to_physical(mode),
    {
        let origin = if !mode.vertical {
            PhysicalPoint { x: self.start_corner.inline, y: self.start_corner.block }
        } else {
            PhysicalPoint { x: self.start_corner.block, y: self.start_corner.inline }
        };
        PhysicalRect { origin, size: self.size.to_physical(mode) }
    }
}

impl PhysicalPoint {
    pub fn new(x: Length, y: Length) -> (r: PhysicalPoint)
        ensures
            r@ == (PhysPoint { x: x@, y: y@ }),
    {
        PhysicalPoint { x, y }
    }

    pub fn to_vector(&self) -> (r: PhysicalVector)
        ensures
            r@ == self@,
    {
        PhysicalVector { x: self.x, y: self.y }
    }
}

impl PhysicalSize {
    pub fn to_vector(&self) -> (r: PhysicalVector)
        ensures
            r@ == self@.to_vector(),
    {
        PhysicalVector { x: self.width, y: self.height }
    }
}

impl PhysicalRect {
    pub fn zero() -> (r: PhysicalRect)
        ensures
            r@ == PhysRect::zero(),
    {
        PhysicalRect {
            origin: PhysicalPoint { x: Length::zero(), y: Length::zero() },
            size: PhysicalSize { width: Length::zero(), height: Length::zero() },
        }
    }

    /// The exact rectangle that a model that fits in `i32` stands for.
    pub open spec fn from_view(m: PhysRect) -> PhysicalRect {
        PhysicalRect {
            origin: PhysicalPoint {
                x: Length { au: m.origin.x as i32 },
                y: Length { au: m.origin.y as i32 },
            },
            size: PhysicalSize {
                width: Length { au: m.size.width as i32 },
                height: Length { au: m.size.height as i32 },
            },
        }
    }

    pub fn max_x(&self) -> (r: Length)
        requires
            fits(self@.max_x()),
        ensures
            r@ == self@.max_x(),
    {
        self.origin.x.plus(self.size.width)
    }

    pub fn max_y(&self) -> (r: Length)
        requires
            fits(self@.max_y()),
        ensures
            r@ == self@.max_y(),
    {
        self.origin.y.plus(self.size.height)
    }

    /// This rectangle moved by `by`, where the new origin fits in an `i32`.
    pub fn checked_translate(&self, by: PhysicalVector) -> (r: Option<PhysicalRect>)
        ensures
            r is Some <==> self@.translate(by@).fits(),
            r matches Some(x) ==> x@ == self@.translate(by@),
    {
        let x = Length::checked_from_i64(self.origin.x.au as i64 + by.x.au as i64);
        let y = Length::checked_from_i64(self.origin.y.au as i64 + by.y.au as i64);
        match (x, y) {
            (Some(x), Some(y)) => Some(PhysicalRect { origin: PhysicalPoint { x, y }, size: self.size }),
            _ => None,
        }
    }

    /// The union of both rectangles, where it fits in an `i32`.
    pub fn checked_union(&self, other: &PhysicalRect) -> (r: Option<PhysicalRect>)
        ensures
            r is Some <==> self@.union(other@).fits(),
            r matches Some(x) ==> x@ == self@.union(other@),
    {
        if self.size.width.au == 0 && self.size.height.au == 0 {
            return Some(*other);
        }
        if other.size.width.au == 0 && other.size.height.au == 0 {
            return Some(*self);
        }
        let x = self.origin.x.min(other.origin.x);
        let y = self.origin.y.min(other.origin.y);
        let self_max_x: i64 = self.origin.x.au as i64 + self.size.width.au as i64;
        let other_max_x: i64 = other.origin.x.au as i64 + other.size.width.au as i64;
        let self_max_y: i64 = self.origin.y.au as i64 + self.size.height.au as i64;
        let other_max_y: i64 = other.origin.y.au as i64 + other.size.height.au as i64;
        let max_x: i64 = if self_max_x >= other_max_x {
            self_max_x
        } else {
            other_max_x
        };
        let max_y: i64 = if self_max_y >= other_max_y {
            self_max_y
        } else {
            other_max_y
        };
        let width = Length::checked_from_i64(max_x - x.au as i64);
        let height = Length::checked_from_i64(max_y - y.au as i64);
        match (width, height) {
            (Some(width), Some(height)) => Some(
                PhysicalRect { origin: PhysicalPoint { x, y }, size: PhysicalSize { width, height } },
            ),
            _ => None,
        }
    }

    /// This rectangle moved by `by`.
    pub fn translate(&self, by: PhysicalVector) -> (r: PhysicalRect)
        requires
            self@.translate(by@).fits(),
        ensures
            r@ == self@.translate(by@),
    {
        PhysicalRect {
            origin: PhysicalPoint { x: self.origin.x.plus(by.x), y: self.origin.y.plus(by.y) },
            size: self.size,
        }
    }

    /// The smallest rectangle that holds both, where a rectangle of zero size
    /// counts for nothing.
    pub fn union(&self, other: &PhysicalRect) -> (r: PhysicalRect)
        requires
            self@.union(other@).fits(),
        ensures
            r@ == self@.union(other@),
    {
        self.checked_union(other).unwrap()
    }
}

} // verus!
