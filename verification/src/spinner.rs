use vstd::prelude::*;

use crate::units::{elapsed_text, format_elapsed};

verus! {

/// What the spinner learns while it waits on the request.
pub enum SpinnerEvent {
    /// A tick went by with the request still running; `secs` and `nanos` have
    /// passed since it was sent.
    Tick { secs: u64, nanos: u32 },
    /// The request is done.
    Stopped,
}

/// What the spinner does next.
pub enum SpinnerAction {
    /// Show the spinner, or update it, with this label.
    Show(String),
    /// Stop; wipe the spinner from the terminal first when `clear` is set.
    Stop { clear: bool },
}

/// The spinner's next move. `visible` tells whether it is on screen yet: a
/// request that ends within the first tick leaves nothing to clear.
pub fn spinner_step(visible: bool, event: &SpinnerEvent) -> (r: SpinnerAction)
    requires
        event matches SpinnerEvent::Tick { nanos, .. } ==> nanos < 1_000_000_000,
    ensures
        match event {
            SpinnerEvent::Tick { secs, nanos } => r matches SpinnerAction::Show(label) && label@
                == elapsed_text(*secs, *nanos),
            SpinnerEvent::Stopped => r == (SpinnerAction::Stop { clear: visible }),
        },
{
    match event {
        SpinnerEvent::Tick { secs, nanos } => SpinnerAction::Show(format_elapsed(*secs, *nanos)),
        SpinnerEvent::Stopped => SpinnerAction::Stop { clear: visible },
    }
}

} // verus!
