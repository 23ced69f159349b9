//! Opaque symbolic values carried through the generator: rendered scalar
//! expressions and elliptic-curve commitment handles. The generator never
//! evaluates these; it only copies them into the emitted program and compares
//! commitment handles by value.

use vstd::prelude::*;

verus! {

/// An already-rendered scalar expression owned by the caller (for example an
/// evaluation read from the proof). Opaque: only copied, never interpreted.
#[derive(Debug, PartialEq, Eq)]
pub struct ScalarExpr {
    text: String,
}

impl View for ScalarExpr {
    type V = Seq<char>;

    closed spec fn view(&self) -> Seq<char> {
        self.text@
    }
}

impl DeepView for ScalarExpr {
    type V = Seq<char>;

    open spec fn deep_view(&self) -> Seq<char> {
        self@
    }
}

impl ScalarExpr {
    pub fn new(text: String) -> (r: Self)
        ensures
            r@ == text@,
    {
        ScalarExpr { text }
    }

    pub fn text(&self) -> (r: &String)
        ensures
            r@ == self@,
    {
        &self.text
    }
}

impl Clone for ScalarExpr {
    fn clone(&self) -> (r: Self)
        ensures
            r == *self,
    {
        ScalarExpr { text: self.text.clone() }
    }
}

/// Mathematical image of a commitment handle: the two rendered coordinate
/// expressions.
pub ghost struct EcPointV {
    pub x: Seq<char>,
    pub y: Seq<char>,
}

/// A commitment handle: an opaque reference to an elliptic-curve point, held
/// as its two rendered coordinate expressions. Handles are compared by value;
/// two syntactically different expressions count as distinct commitments.
#[derive(Debug, PartialEq, Eq)]
pub struct EcPoint {
    x: String,
    y: String,
}

impl View for EcPoint {
    type V = EcPointV;

    closed spec fn view(&self) -> EcPointV {
        EcPointV { x: self.x@, y: self.y@ }
    }
}

impl DeepView for EcPoint {
    type V = EcPointV;

    open spec fn deep_view(&self) -> EcPointV {
        self@
    }
}

impl EcPoint {
    pub fn new(x: String, y: String) -> (r: Self)
        ensures
            r@ == (EcPointV { x: x@, y: y@ }),
    {
        EcPoint { x, y }
    }

    pub fn x(&self) -> (r: &String)
        ensures
            r@ == self@.x,
    {
        &self.x
    }

    pub fn y(&self) -> (r: &String)
        ensures
            r@ == self@.y,
    {
        &self.y
    }

    /// Value equality of commitment handles, the equality the partitioner
    /// deduplicates by.
    pub fn same(&self, other: &EcPoint) -> (r: bool)
        ensures
            r == (self@ == other@),
    {
        let r = self.x == other.x && self.y == other.y;
        proof {
            if self@.x == other@.x && self@.y == other@.y {
                assert(self@ == other@);
            }
        }
        r
    }
}

impl Clone for EcPoint {
    fn clone(&self) -> (r: Self)
        ensures
            r == *self,
    {
        EcPoint { x: self.x.clone(), y: self.y.clone() }
    }
}

} // verus!
