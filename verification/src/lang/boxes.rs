use vstd::prelude::*;
use crate::lang::datatype::BoxInt;
use crate::lang::failure::Failure;

verus! {

/// The control-flow kind of a box.
#[derive(Clone, Copy, Debug, PartialEq, Eq)]
pub enum Genus {
    Loop,
    Condition,
    Execution,
    /// A box whose content is a comment.
    NoOp,
}

/// A place in the grid: `x` is the column, `y` the row.
#[derive(Copy, Debug, PartialEq, Eq)]
pub struct Loc<T: BoxInt> {
    pub x: T,
    pub y: T,
}

impl<T: BoxInt> Clone for Loc<T> {
    fn clone(&self) -> (r: Self)
        ensures
            r == *self,
    {
        *self
    }
}

/// A rectangular region of the grid with the construct that it denotes.
/// Its start does not lie after its end on either axis.
#[derive(Copy, Debug, PartialEq, Eq)]
pub struct Box<T: BoxInt> {
    start: Loc<T>,
    end: Loc<T>,
    genus: Genus,
}

/// How the rectangle of one box lies to that of another.
#[derive(Clone, Copy, Debug, PartialEq, Eq)]
pub enum Relation {
    /// The first contains the second, and is not contained in it.
    Parent,
    /// The first lies within the second, or is the same rectangle.
    Child,
    /// Neither contains the other.
    Other,
}

/// A box as the rectangle between two corners in the integer plane.
pub struct Span {
    pub start_x: int,
    pub start_y: int,
    pub end_x: int,
    pub end_y: int,
    pub genus: Genus,
}

impl Span {
    /// Whether the start does not lie after the end on either axis.
    pub open spec fn well_formed(self) -> bool {
        self.start_x <= self.end_x && self.start_y <= self.end_y
    }

    /// Whether the rectangle lies within that of `other`, or is the same.
    pub open spec fn within(self, other: Span) -> bool {
        &&& self.start_x >= other.start_x
        &&& self.end_x <= other.end_x
        &&& self.start_y >= other.start_y
        &&& self.end_y <= other.end_y
    }

    /// What the box is to `other`: a child where it lies within `other`,
    /// which is also the answer for two boxes with the same rectangle; a
    /// parent where only `other` lies within it.
    pub open spec fn relation_to(self, other: Span) -> Relation {
        if self.within(other) {
            Relation::Child
        } else if other.within(self) {
            Relation::Parent
        } else {
            Relation::Other
        }
    }

    /// Whether the rows of the box end above the first row of `other`.
    pub open spec fn before(self, other: Span) -> bool {
        self.end_y < other.start_y
    }

    /// Whether the rows of the box start below the last row of `other`.
    pub open spec fn after(self, other: Span) -> bool {
        self.start_y > other.end_y
    }

    /// Whether the box and `other` have a row in common.
    pub open spec fn simultaneous(self, other: Span) -> bool {
        self.end_y >= other.start_y && self.start_y <= other.end_y
    }
}

/// What `Box::new` returns.
pub open spec fn box_of<T: BoxInt>(start: Loc<T>, end: Loc<T>, genus: Genus) -> Result<
    Span,
    Failure,
> {
    if start.x.value() > end.x.value() || start.y.value() > end.y.value() {
        Err(
            Failure::InvalidBounds {
                start_x: start.x.value() as i128,
                start_y: start.y.value() as i128,
                end_x: end.x.value() as i128,
                end_y: end.y.value() as i128,
            },
        )
    } else {
        Ok(
            Span {
                start_x: start.x.value(),
                start_y: start.y.value(),
                end_x: end.x.value(),
                end_y: end.y.value(),
                genus,
            },
        )
    }
}

/// A box is never `Other` to itself: it is its own child.
pub proof fn lemma_own_child(a: Span)
    ensures
        a.relation_to(a) == Relation::Child,
{
}

/// Of two well formed boxes the first lies before the second, after it, or
/// shares a row with it, and only one of the three.
pub proof fn lemma_one_order(a: Span, b: Span)
    requires
        a.well_formed(),
        b.well_formed(),
    ensures
        a.before(b) || a.after(b) || a.simultaneous(b),
        !(a.before(b) && a.after(b)),
        !(a.before(b) && a.simultaneous(b)),
        !(a.after(b) && a.simultaneous(b)),
{
}

/// Corners in order make a box: wherever the start does not lie after the
/// end on either axis, `Box::new` succeeds, with a box that is well formed
/// and is not `Other` to itself.
pub proof fn lemma_ordered_corners_accepted<T: BoxInt>(start: Loc<T>, end: Loc<T>, genus: Genus)
    requires
        start.x.value() <= end.x.value(),
        start.y.value() <= end.y.value(),
    ensures
        box_of(start, end, genus) matches Ok(a) && a.well_formed() && a.relation_to(a)
            != Relation::Other,
{
}

impl<T: BoxInt> View for Box<T> {
    type V = Span;

    closed spec fn view(&self) -> Span {
        Span {
            start_x: self.start.x.value(),
            start_y: self.start.y.value(),
            end_x: self.end.x.value(),
            end_y: self.end.y.value(),
            genus: self.genus,
        }
    }
}

impl<T: BoxInt> Clone for Box<T> {
    fn clone(&self) -> (r: Self)
        ensures
            r@ == self@,
    {
        proof {
            use_type_invariant(self);
        }
        Box { start: self.start, end: self.end, genus: self.genus }
    }
}

impl<T: BoxInt> Box<T> {
    #[verifier::type_invariant]
    spec fn bounded(self) -> bool {
        self.start.x.value() <= self.end.x.value() && self.start.y.value() <= self.end.y.value()
    }

    /// The box from `start` to `end`, unless `start` lies after `end` on
    /// some axis.
    pub fn new(start: Loc<T>, end: Loc<T>, genus: Genus) -> (r: Result<Box<T>, Failure>)
        ensures
            match r {
                Ok(b) => box_of(start, end, genus) == Ok::<Span, Failure>(b@) && b@.well_formed(),
                Err(e) => box_of(start, end, genus) == Err::<Span, Failure>(e),
            },
    {
        if end.x.less(start.x) || end.y.less(start.y) {
            Err(
                Failure::InvalidBounds {
                    start_x: start.x.to_i128(),
                    start_y: start.y.to_i128(),
                    end_x: end.x.to_i128(),
                    end_y: end.y.to_i128(),
                },
            )
        } else {
            Ok(Box { start, end, genus })
        }
    }

    /// The corner where the box starts.
    pub fn start(&self) -> (r: Loc<T>)
        ensures
            r.x.value() == self@.start_x,
            r.y.value() == self@.start_y,
            self@.well_formed(),
    {
        proof {
            use_type_invariant(self);
        }
        self.start
    }

    /// The corner where the box ends.
    pub fn end(&self) -> (r: Loc<T>)
        ensures
            r.x.value() == self@.end_x,
            r.y.value() == self@.end_y,
            self@.well_formed(),
    {
        proof {
            use_type_invariant(self);
        }
        self.end
    }

    /// The construct that the box denotes.
    pub fn genus(&self) -> (r: Genus)
        ensures
            r == self@.genus,
    {
        self.genus
    }

    /// What this box is to `other`.
    pub fn relationship(&self, other: &Box<T>) -> (r: Relation)
        ensures
            r == self@.relation_to(other@),
    {
        if other.start.x.at_most(self.start.x) && self.end.x.at_most(other.end.x)
            && other.start.y.at_most(self.start.y) && self.end.y.at_most(other.end.y) {
            Relation::Child
        } else if self.start.x.at_most(other.start.x) && other.end.x.at_most(self.end.x)
            && self.start.y.at_most(other.start.y) && other.end.y.at_most(self.end.y) {
            Relation::Parent
        } else {
            Relation::Other
        }
    }

    /// Whether this box runs before `other`.
    pub fn before(&self, other: &Box<T>) -> (r: bool)
        ensures
            r == self@.before(other@),
            self@.well_formed() && other@.well_formed(),
    {
        proof {
            use_type_invariant(self);
            use_type_invariant(other);
        }
        self.end.y.less(other.start.y)
    }

    /// Whether this box runs after `other`.
    pub fn after(&self, other: &Box<T>) -> (r: bool)
        ensures
            r == self@.after(other@),
            self@.well_formed() && other@.well_formed(),
    {
        proof {
            use_type_invariant(self);
            use_type_invariant(other);
        }
        other.end.y.less(self.start.y)
    }

    /// Whether geometry leaves the order of this box and `other` open.
    pub fn simultaneous(&self, other: &Box<T>) -> (r: bool)
        ensures
            r == self@.simultaneous(other@),
            r == (!self@.before(other@) && !self@.after(other@)),
            self@.well_formed() && other@.well_formed(),
    {
        proof {
            use_type_invariant(self);
            use_type_invariant(other);
        }
        other.start.y.at_most(self.end.y) && self.start.y.at_most(other.end.y)
    }
}

} // verus!
