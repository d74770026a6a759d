//! The decision the datapath takes on a frame.

use vstd::prelude::*;

use crate::frame::FrameView;
use crate::tables::TablesView;

verus! {

/// Context-neutral verdict. `Redirect` carries an interface index; `Reflect` sends the (rewritten
/// in place) frame back out the interface it arrived on.
#[derive(Copy, Clone, Eq, PartialEq, Structural, Debug)]
pub enum Verdict {
    Pass,
    Drop,
    Redirect(u32),
    Reflect,
    TailCallDhcp,
}

/// What a program makes of a frame: its verdict (an error where a table lacks what it needs), the
/// frame, and the tables afterwards.
pub struct Outcome {
    pub verdict: Result<Verdict, ()>,
    pub frame: FrameView,
    pub tables: TablesView,
}

} // verus!
