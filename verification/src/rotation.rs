//! Row offsets relative to the row at which a gate is evaluated.

use vstd::prelude::*;
use vstd::string::StringExecFns;

use crate::text;

verus! {

/// Describes the relative rotation of a vector: negative numbers represent
/// reverse (leftmost) rotations and positive numbers represent forward (rightmost)
/// rotations. Zero represents no rotation.
#[derive(Copy, Clone, Debug, PartialEq, Eq, PartialOrd, Ord, Hash, Structural)]
pub struct Rotation(pub i32);

impl Rotation {
    /// The current location in the evaluation domain.
    pub fn cur() -> (r: Rotation)
        ensures
            r.0 == 0,
    {
        Rotation(0)
    }

    /// The previous location in the evaluation domain.
    pub fn prev() -> (r: Rotation)
        ensures
            r.0 == -1,
    {
        Rotation(-1)
    }

    /// The next location in the evaluation domain.
    pub fn next() -> (r: Rotation)
        ensures
            r.0 == 1,
    {
        Rotation(1)
    }

    /// How this rotation is printed.
    pub open spec fn text(self) -> Seq<char> {
        "Rotation("@ + text::decimal_int(self.0 as int) + ")"@
    }

    /// Appends how this rotation is printed.
    pub fn append_text(&self, out: &mut String)
        ensures
            final(out)@ == old(out)@ + self.text(),
    {
        out.append("Rotation(");
        text::append_i32(out, self.0);
        out.append(")");
        assert(out@ =~= old(out)@ + self.text());
    }
}

} // verus!
