//! What is shown when the connection to a remote project was lost.

use vstd::prelude::*;

verus! {

/// What can happen to a project.
#[derive(Copy, Clone, Debug, PartialEq, Eq, Structural)]
pub enum ProjectEvent {
    DisconnectedFromHost,
    DisconnectedFromSshRemote,
    Other,
}

/// The note that the connection was lost.
#[derive(Copy, Clone, Debug, PartialEq, Eq, Structural)]
pub struct DisconnectedOverlay {
    finished: bool,
}

/// What the note says.
pub const MESSAGE: &'static str = "Your connection to the remote project has been lost.";

/// A button of the note.
#[derive(Copy, Clone, Debug, PartialEq, Eq, Structural)]
pub enum OverlayButton {
    CloseWindow,
    Reconnect,
}

impl DisconnectedOverlay {
    /// Whether the note may go away.
    pub closed spec fn is_finished(&self) -> bool {
        self.finished
    }

    /// The note, if something happened that it is for.
    pub fn register(event: ProjectEvent) -> (r: Option<DisconnectedOverlay>)
        ensures
            r is Some <==> event != ProjectEvent::Other,
            r matches Some(overlay) ==> !overlay.is_finished(),
    {
        match event {
            ProjectEvent::DisconnectedFromHost | ProjectEvent::DisconnectedFromSshRemote => Some(
                DisconnectedOverlay { finished: false },
            ),
            ProjectEvent::Other => None,
        }
    }

    /// Lets the note go away to connect again.
    pub fn handle_reconnect(&mut self)
        ensures
            final(self).is_finished(),
    {
        self.finished = true;
    }

    /// Lets the note go away.
    pub fn cancel(&mut self)
        ensures
            final(self).is_finished(),
    {
        self.finished = true;
    }

    /// Whether the note may go away.
    pub fn on_before_dismiss(&self) -> (r: bool)
        ensures
            r == self.is_finished(),
    {
        self.finished
    }

    /// The buttons of the note. There is no way to connect again.
    pub fn buttons() -> (r: Vec<OverlayButton>)
        ensures
            r@ == seq![OverlayButton::CloseWindow],
    {
        let mut r: Vec<OverlayButton> = Vec::new();
        r.push(OverlayButton::CloseWindow);
        r
    }
}

} // verus!
