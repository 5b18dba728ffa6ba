//! The uniform result of every decoder.
//!
//! Numbers are bit patterns of double-precision values. Where a format gives
//! the scan axis by a rule instead of a list, the pattern holds the rule's
//! parameters, and the positions are formed from them in floating-point
//! arithmetic by the caller.
use vstd::prelude::*;

verus! {

/// What an `Axis` holds, as a mathematical value.
pub enum AxisModel {
    Listed(Seq<u64>),
    Linear { start: u64, step: u64 },
    Centidegrees { start: u64, step: u64 },
    Span { start: u64, end: u64 },
}

/// What a `ParsedPattern` holds, as a mathematical value.
pub struct PatternModel {
    pub x: AxisModel,
    pub y: Seq<u64>,
    pub e: Option<Seq<u64>>,
}

impl PatternModel {
    /// Number of positions that `x` stands for.
    pub open spec fn x_len(self) -> int {
        match self.x {
            AxisModel::Listed(v) => v.len() as int,
            _ => self.y.len() as int,
        }
    }

    /// There are as many positions as intensities, and as many uncertainties
    /// where there are any.
    pub open spec fn well_formed(self) -> bool {
        &&& self.x_len() == self.y.len()
        &&& self.e matches Some(e) ==> e.len() == self.y.len()
    }
}

/// The scan-axis positions of a pattern of `n` points.
#[derive(Debug, Clone)]
pub enum Axis {
    /// Double-precision positions as they were read, one for each point.
    Listed(Vec<u64>),
    /// `x[i] = start + step * i`, both double precision.
    Linear { start: u64, step: u64 },
    /// Origin and step in hundredths of a degree:
    /// `x[i] = start / 100 + i * (step / 100)`.
    Centidegrees { start: u64, step: u64 },
    /// First and last position: `x[0] = start` when `n` is one, else
    /// `x[i] = start + i * ((end - start) / (n - 1))`.
    Span { start: u64, end: u64 },
}

impl View for Axis {
    type V = AxisModel;

    open spec fn view(&self) -> AxisModel {
        match *self {
            Axis::Listed(v) => AxisModel::Listed(v@),
            Axis::Linear { start, step } => AxisModel::Linear { start, step },
            Axis::Centidegrees { start, step } => AxisModel::Centidegrees { start, step },
            Axis::Span { start, end } => AxisModel::Span { start, end },
        }
    }
}

/// A decoded pattern: positions `x`, intensities `y`, and uncertainties `e`
/// where the file gave one for every point.
#[derive(Debug, Clone)]
pub struct ParsedPattern {
    pub x: Axis,
    pub y: Vec<u64>,
    pub e: Option<Vec<u64>>,
}

impl View for ParsedPattern {
    type V = PatternModel;

    open spec fn view(&self) -> PatternModel {
        PatternModel {
            x: self.x@,
            y: self.y@,
            e: match self.e {
                Some(e) => Some(e@),
                None => None,
            },
        }
    }
}

impl ParsedPattern {
    /// Number of points.
    pub open spec fn spec_len(self) -> int {
        self@.y.len() as int
    }

    /// There are as many positions as intensities, and as many uncertainties
    /// where there are any.
    pub open spec fn well_formed(self) -> bool {
        self@.well_formed()
    }

    /// Number of points.
    pub fn len(&self) -> (n: usize)
        ensures
            n == self.spec_len(),
    {
        self.y.len()
    }
}

} // verus!
