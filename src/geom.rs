//! Placement and glyph tags of the plotted data.

use vstd::prelude::*;

verus! {

/// Where a side plot stands relative to its element. `Up` is reserved for
/// hover popups and is not accepted by the side-axis builders.
#[derive(Clone, Copy, Debug, PartialEq, Eq, Structural)]
pub enum Side {
    Left,
    Right,
    Up,
}

/// The kind of glyph drawn for a binding on a shared axis.
#[derive(Clone, Copy, Debug, PartialEq, Eq, Structural)]
pub enum HistPlot {
    Hist,
    Kde,
    BoxPoint,
}

/// Progress of a side-plot binding through one load cycle: it is first
/// aggregated into a shared axis, then rendered against it.
#[derive(Clone, Copy, Debug, PartialEq, Eq, Structural)]
pub enum Stage {
    Pending,
    Aggregated,
    Rendered,
}

/// Marks a binding whose values are plotted on the arrows of the map.
#[derive(Clone, Copy, Debug, PartialEq, Eq, Structural)]
pub struct GeomArrow {
    pub plotted: bool,
}

/// Marks a binding whose distributions are drawn as a density curve at one
/// side of the arrows.
#[derive(Clone, Copy, Debug, PartialEq, Eq, Structural)]
pub struct GeomKde {
    pub side: Side,
}

impl GeomKde {
    /// The side-plot placement of a density curve at this side.
    pub fn to_hist(self) -> (r: GeomHist)
        ensures
            r == (GeomHist { side: self.side, plot: HistPlot::Kde }),
    {
        GeomHist { side: self.side, plot: HistPlot::Kde }
    }

    pub fn left() -> (r: Self)
        ensures
            r.side == Side::Left,
    {
        Self { side: Side::Left }
    }

    pub fn right() -> (r: Self)
        ensures
            r.side == Side::Right,
    {
        Self { side: Side::Right }
    }
}

/// Where a side-plot binding is drawn, and as what glyph.
#[derive(Clone, Copy, Debug, PartialEq, Eq, Structural)]
pub struct GeomHist {
    pub side: Side,
    pub plot: HistPlot,
}

impl GeomHist {
    /// A histogram on the left side.
    pub fn left() -> (r: Self)
        ensures
            r == (GeomHist { side: Side::Left, plot: HistPlot::Hist }),
    {
        Self { side: Side::Left, plot: HistPlot::Hist }
    }

    /// A histogram on the right side.
    pub fn right() -> (r: Self)
        ensures
            r == (GeomHist { side: Side::Right, plot: HistPlot::Hist }),
    {
        Self { side: Side::Right, plot: HistPlot::Hist }
    }

    /// The same placement with another glyph kind.
    pub fn with_plot(self, plot: HistPlot) -> (r: Self)
        ensures
            r == (GeomHist { plot, ..self }),
    {
        GeomHist { plot, ..self }
    }
}

/// Marks a binding whose values are plotted on the metabolite circles.
#[derive(Clone, Copy, Debug, PartialEq, Eq, Structural)]
pub struct GeomMetabolite {
    pub plotted: bool,
}

/// Tags of a rendered side plot: its side, the condition it shows (none when
/// it applies to every condition) and the element it belongs to.
#[derive(Debug)]
pub struct HistTag {
    pub side: Side,
    pub condition: Option<String>,
    pub node_id: u64,
}

} // verus!
