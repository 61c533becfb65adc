//! Frame disposal methods: what the consumer does with the canvas after a
//! frame has been displayed, as recorded by a graphic control record.

use vstd::prelude::*;

verus! {

/// Post-display canvas operation carried by a graphic control record.
#[derive(Debug, Clone, Copy, PartialEq, Eq)]
pub enum DisposalMethod {
    DoNotDispose,
    RestoreToBackgroundColor,
    RestoreToPrevious,
}

impl DisposalMethod {
    /// The disposal method a stored field value stands for: 1 keeps the
    /// frame, 2 restores the background, 3 restores the previous canvas.
    /// Zero (unspecified) and anything else has no method.
    pub fn from_u8(value: u8) -> (r: Option<Self>)
        ensures
            r == match value {
                1u8 => Some(DisposalMethod::DoNotDispose),
                2u8 => Some(DisposalMethod::RestoreToBackgroundColor),
                3u8 => Some(DisposalMethod::RestoreToPrevious),
                _ => None::<DisposalMethod>,
            },
    {
        match value {
            1 => Some(DisposalMethod::DoNotDispose),
            2 => Some(DisposalMethod::RestoreToBackgroundColor),
            3 => Some(DisposalMethod::RestoreToPrevious),
            _ => None,
        }
    }
}

} // verus!
