use vstd::prelude::*;

verus! {

/// Seconds to wait before looking for the interface again.
pub const RETRY_DELAY_SECS: u64 = 5;

/// Where the capture loop stands.
#[derive(Clone, Copy, Debug, PartialEq, Eq, Structural)]
pub enum CaptureState {
    /// The named interface is not open yet.
    Searching,
    /// Frames are being received.
    Capturing,
}

/// What the outside world reported since the last step.
#[derive(Clone, Copy, Debug, PartialEq, Eq, Structural)]
pub enum CaptureEvent {
    /// The interface was found and a link-layer channel opened on it.
    ChannelOpened,
    /// The interface is missing, or no usable channel could be opened.
    OpenFailed,
    /// A frame arrived.
    FrameReceived,
    /// Receiving failed and the channel is unusable.
    ReceiveFailed,
}

/// What the loop does next.
#[derive(Clone, Copy, Debug, PartialEq, Eq, Structural)]
pub enum CaptureAction {
    /// Look for the interface and try to open it.
    OpenChannel,
    /// Sleep `RETRY_DELAY_SECS`, then look for the interface again.
    Backoff,
    /// Push the frame through classification and counting, then receive the
    /// next one.
    ProcessFrame,
    /// Wait for the next frame.
    Receive,
}

/// The capture loop's transitions. There is no terminal state: every
/// failure leads back to searching after the fixed delay, and a frame
/// never changes the state.
pub open spec fn capture_step_spec(s: CaptureState, e: CaptureEvent) -> (CaptureState, CaptureAction) {
    match (s, e) {
        (CaptureState::Searching, CaptureEvent::ChannelOpened) => (CaptureState::Capturing, CaptureAction::Receive),
        (CaptureState::Searching, _) => (CaptureState::Searching, CaptureAction::Backoff),
        (CaptureState::Capturing, CaptureEvent::FrameReceived) => (CaptureState::Capturing, CaptureAction::ProcessFrame),
        (CaptureState::Capturing, CaptureEvent::ReceiveFailed) => (CaptureState::Searching, CaptureAction::Backoff),
        (CaptureState::Capturing, _) => (CaptureState::Capturing, CaptureAction::Receive),
    }
}

impl CaptureState {
    pub fn initial() -> (r: CaptureState)
        ensures
            r == CaptureState::Searching,
    {
        CaptureState::Searching
    }

    /// The next state and action after event `e`.
    pub fn step(self, e: CaptureEvent) -> (r: (CaptureState, CaptureAction))
        ensures
            r == capture_step_spec(self, e),
    {
        match (self, e) {
            (CaptureState::Searching, CaptureEvent::ChannelOpened) => (CaptureState::Capturing, CaptureAction::Receive),
            (CaptureState::Searching, _) => (CaptureState::Searching, CaptureAction::Backoff),
            (CaptureState::Capturing, CaptureEvent::FrameReceived) => (CaptureState::Capturing, CaptureAction::ProcessFrame),
            (CaptureState::Capturing, CaptureEvent::ReceiveFailed) => (CaptureState::Searching, CaptureAction::Backoff),
            (CaptureState::Capturing, _) => (CaptureState::Capturing, CaptureAction::Receive),
        }
    }
}

} // verus!
