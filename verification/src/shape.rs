//! Classification of dataset shapes: the semantic kind of a dimension
//! vector, and the display resolution derived from it.

use vstd::prelude::*;
use crate::text::{dec_str, usize_to_string};

verus! {

/// A display resolution in pixels.
#[derive(Clone, Copy, Debug, PartialEq, Eq, Structural)]
pub struct Resolution {
    pub width: usize,
    pub height: usize,
}

impl Resolution {
    /// Renders the resolution as `WIDTHxHEIGHT`.
    pub fn to_string(&self) -> (r: String)
        ensures
            r@ == dec_str(self.width as int) + "x"@ + dec_str(self.height as int),
    {
        let mut s = usize_to_string(self.width);
        s.append("x");
        let t = usize_to_string(self.height);
        s.append(t.as_str());
        proof {
            assert(s@ =~= dec_str(self.width as int) + "x"@ + dec_str(self.height as int));
        }
        s
    }
}

/// The display resolution of a dataset: the trailing (height, width) pair
/// for rank 2 and 3, and the pair before the trailing channel dimension for
/// rank 4; nothing for other ranks (not displayable as an image grid).
pub open spec fn spec_resolution(shape: Seq<usize>) -> Option<Resolution> {
    let d = shape.len() as int;
    if 2 <= d <= 3 {
        Some(Resolution { width: shape[d - 1], height: shape[d - 2] })
    } else if d == 4 {
        Some(Resolution { width: shape[d - 2], height: shape[d - 3] })
    } else {
        None
    }
}

/// The resolution when the shape describes a single image laid out as
/// (height, width, channels?): defined for rank 2 and 3 only.
pub open spec fn spec_resolution_single(shape: Seq<usize>) -> Option<Resolution> {
    let d = shape.len() as int;
    if 2 <= d <= 3 {
        Some(Resolution { width: shape[1], height: shape[0] })
    } else {
        None
    }
}

/// The resolution when the shape describes a batch of images laid out as
/// (batch, height, width, channels?): defined for rank 3 and 4 only.
pub open spec fn spec_resolution_batch(shape: Seq<usize>) -> Option<Resolution> {
    let d = shape.len() as int;
    if 3 <= d <= 4 {
        Some(Resolution { width: shape[2], height: shape[1] })
    } else {
        None
    }
}

/// The leading batch-count dimension, for the shapes `spec_resolution_batch`
/// accepts: the pagination upper bound of a batch dataset.
pub open spec fn spec_batch_count(shape: Seq<usize>) -> Option<usize> {
    let d = shape.len() as int;
    if 3 <= d <= 4 {
        Some(shape[0])
    } else {
        None
    }
}

/// The semantic kind of a dataset, derived from the rank of its shape and,
/// for rank four or more, from the size of the trailing (channel) dimension.
#[derive(Clone, Copy, Debug, PartialEq, Eq, Structural)]
pub enum ShapeKind {
    /// Rank 0: a single parameter.
    Parameter,
    /// Rank 1: a run of scalars.
    Scalar,
    /// Rank 2: a vector per element.
    Vector,
    /// Rank 3, or rank >= 4 with a trailing dimension of 1.
    Grayscale,
    /// Rank >= 4 with a trailing dimension of 3.
    Color,
    /// Rank >= 4 with a trailing dimension of 4.
    Rgbd,
    /// Rank >= 4 with any other trailing dimension.
    Hyperspectral,
}

/// The kind of a shape: total over all shapes.
pub open spec fn spec_classify(shape: Seq<usize>) -> ShapeKind {
    if shape.len() == 0 {
        ShapeKind::Parameter
    } else if shape.len() == 1 {
        ShapeKind::Scalar
    } else if shape.len() == 2 {
        ShapeKind::Vector
    } else if shape.len() == 3 {
        ShapeKind::Grayscale
    } else if shape.last() == 1usize {
        ShapeKind::Grayscale
    } else if shape.last() == 3usize {
        ShapeKind::Color
    } else if shape.last() == 4usize {
        ShapeKind::Rgbd
    } else {
        ShapeKind::Hyperspectral
    }
}

/// The short textual tag shown for each kind.
pub open spec fn spec_kind_tag(kind: ShapeKind) -> Seq<char> {
    match kind {
        ShapeKind::Parameter => "Param"@,
        ShapeKind::Scalar => "Scalar"@,
        ShapeKind::Vector => "Vec"@,
        ShapeKind::Grayscale => "Gray"@,
        ShapeKind::Color => "Color"@,
        ShapeKind::Rgbd => "RGBD"@,
        ShapeKind::Hyperspectral => "Hyper"@,
    }
}

/// Maps a dimension vector to its semantic kind.
pub fn classify(shape: &Vec<usize>) -> (r: ShapeKind)
    ensures
        r == spec_classify(shape@),
{
    let n = shape.len();
    if n == 0 {
        ShapeKind::Parameter
    } else if n == 1 {
        ShapeKind::Scalar
    } else if n == 2 {
        ShapeKind::Vector
    } else if n == 3 {
        ShapeKind::Grayscale
    } else {
        let last = shape[n - 1];
        if last == 1 {
            ShapeKind::Grayscale
        } else if last == 3 {
            ShapeKind::Color
        } else if last == 4 {
            ShapeKind::Rgbd
        } else {
            ShapeKind::Hyperspectral
        }
    }
}

/// The textual tag of a kind.
pub fn kind_tag(kind: ShapeKind) -> (r: &'static str)
    ensures
        r@ == spec_kind_tag(kind),
{
    proof {
        reveal_strlit("Param");
        reveal_strlit("Scalar");
        reveal_strlit("Vec");
        reveal_strlit("Gray");
        reveal_strlit("Color");
        reveal_strlit("RGBD");
        reveal_strlit("Hyper");
    }
    match kind {
        ShapeKind::Parameter => "Param",
        ShapeKind::Scalar => "Scalar",
        ShapeKind::Vector => "Vec",
        ShapeKind::Grayscale => "Gray",
        ShapeKind::Color => "Color",
        ShapeKind::Rgbd => "RGBD",
        ShapeKind::Hyperspectral => "Hyper",
    }
}

/// Classification is total and fixed by the shape alone: the table of kinds
/// for each rank, with the trailing dimension deciding rank four and above.
pub proof fn lemma_classify_table(b: usize, h: usize, w: usize, c: usize)
    ensures
        spec_classify(Seq::<usize>::empty()) == ShapeKind::Parameter,
        spec_classify(seq![b]) == ShapeKind::Scalar,
        spec_classify(seq![h, w]) == ShapeKind::Vector,
        spec_classify(seq![b, h, w]) == ShapeKind::Grayscale,
        spec_classify(seq![b, h, w, c]) == if c == 1usize {
            ShapeKind::Grayscale
        } else if c == 3usize {
            ShapeKind::Color
        } else if c == 4usize {
            ShapeKind::Rgbd
        } else {
            ShapeKind::Hyperspectral
        },
{
}

} // verus!
