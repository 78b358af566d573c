//! The editor's output panel: what it shows as engine events arrive.
//!
//! The panel shows a loading spinner while a stream loads, the latest frame
//! once one arrives, and a placeholder otherwise. A frame whose texture is
//! already registered with the renderer is not registered again.
use vstd::prelude::*;

verus! {

/// What the output panel shows.
#[derive(Clone, Copy, Debug, PartialEq, Eq, Structural)]
pub enum OutputDisplay {
    Loading,
    Frame,
    NoOutput,
}

/// An engine event, as far as the panel cares.
#[derive(Clone, Copy, Debug, PartialEq, Eq, Structural)]
pub enum OutputEvent {
    /// A stream started loading.
    StreamLoading,
    /// A frame arrived: its size and the identities of its texture view and
    /// of the renderer showing it.
    FrameReady { width: u32, height: u32, view: u64, renderer: u64 },
    /// Executing the graph failed.
    ExecutionError,
    /// Any other event.
    Other,
}

/// The identities of a frame's texture view and of the renderer showing it.
#[derive(Clone, Copy, Debug, PartialEq, Eq, Structural)]
pub struct TextureKey {
    pub view: u64,
    pub renderer: u64,
}

/// The panel's state.
#[derive(Clone, Copy, Debug, PartialEq, Eq, Structural)]
pub struct OutputPanel {
    pub loading: bool,
    pub has_frame: bool,
    pub width: u32,
    pub height: u32,
    /// The texture view and renderer last registered.
    pub registered: Option<TextureKey>,
}

/// The panel after an event, and whether the frame's texture must be
/// registered: a loading stream clears the panel and shows the spinner; a
/// frame is shown, its texture registered unless it is the one registered
/// already; a failed execution stops the spinner; other events change
/// nothing.
pub open spec fn apply_outcome(p: OutputPanel, event: OutputEvent) -> (OutputPanel, bool) {
    match event {
        OutputEvent::StreamLoading => (
            OutputPanel { loading: true, has_frame: false, width: 0, height: 0, registered: None },
            false,
        ),
        OutputEvent::FrameReady { width, height, view, renderer } => (
            OutputPanel {
                loading: false,
                has_frame: true,
                width,
                height,
                registered: Some(TextureKey { view, renderer }),
            },
            p.registered != Some(TextureKey { view, renderer }),
        ),
        OutputEvent::ExecutionError => (OutputPanel { loading: false, ..p }, false),
        OutputEvent::Other => (p, false),
    }
}

/// A frame's texture is registered once: the same frame arriving again
/// needs no registration, whatever the panel showed before.
pub proof fn lemma_texture_registered_once(p: OutputPanel, width: u32, height: u32, view: u64, renderer: u64)
    ensures
        ({
            let e = OutputEvent::FrameReady { width, height, view, renderer };
            !apply_outcome(apply_outcome(p, e).0, e).1
        }),
{
}

impl OutputPanel {
    /// Nothing shown yet.
    pub fn new() -> (r: Self)
        ensures
            r == (OutputPanel { loading: false, has_frame: false, width: 0, height: 0, registered: None }),
    {
        OutputPanel { loading: false, has_frame: false, width: 0, height: 0, registered: None }
    }

    /// What the panel shows now.
    pub fn display(&self) -> (r: OutputDisplay)
        ensures
            r == (if self.loading {
                OutputDisplay::Loading
            } else if self.has_frame {
                OutputDisplay::Frame
            } else {
                OutputDisplay::NoOutput
            }),
    {
        if self.loading {
            OutputDisplay::Loading
        } else if self.has_frame {
            OutputDisplay::Frame
        } else {
            OutputDisplay::NoOutput
        }
    }

    /// Applies one event (see [apply_outcome]); returns whether the frame's
    /// texture must be registered with the renderer.
    pub fn apply(&mut self, event: OutputEvent) -> (r: bool)
        ensures
            (*final(self), r) == apply_outcome(*old(self), event),
    {
        match event {
            OutputEvent::StreamLoading => {
                *self = OutputPanel { loading: true, has_frame: false, width: 0, height: 0, registered: None };
                false
            },
            OutputEvent::FrameReady { width, height, view, renderer } => {
                let key = TextureKey { view, renderer };
                let register = match self.registered {
                    Some(k) => !(k == key),
                    None => true,
                };
                *self = OutputPanel { loading: false, has_frame: true, width, height, registered: Some(key) };
                register
            },
            OutputEvent::ExecutionError => {
                self.loading = false;
                false
            },
            OutputEvent::Other => false,
        }
    }
}

} // verus!
