//! The decisions of the update loop: what one turn of polling the compositor
//! and the configuration watch calls for.
use vstd::prelude::*;

verus! {

/// What polling the compositor's event stream gave on one turn.
#[derive(Clone, Copy, Debug, PartialEq, Eq, Structural)]
pub enum CompositorPoll {
    /// No event is ready yet.
    Pending,
    /// A window event arrived.
    Event,
    /// The stream ended without an error.
    Closed,
    /// The connection failed.
    Broken,
}

/// What one turn of the loop does.
#[derive(Clone, Copy, Debug, PartialEq, Eq, Structural)]
pub enum Turn {
    /// The compositor connection is lost: the loop ends with its error.
    Stop,
    /// The loop goes on after this turn.
    Proceed {
        /// Fetch a fresh layout tree and bring every workspace label up to date.
        update: bool,
        /// Reload the configuration and arm the file watch again.
        reload: bool,
    },
}

/// The settings that the update loop keeps for its whole life.
#[derive(Clone, Copy, Debug, PartialEq, Eq, Structural)]
pub struct Sworkstyle {
    /// Collapse repeated windows and repeated icons in labels.
    pub deduplicate: bool,
    /// A watch is kept on an existing configuration file.
    pub watching: bool,
}

impl Sworkstyle {
    /// The loop's settings: the configuration file is watched when a path is
    /// given and the file exists.
    pub fn new(has_config_path: bool, config_exists: bool, deduplicate: bool) -> (r: Sworkstyle)
        ensures
            r.deduplicate == deduplicate,
            r.watching == (has_config_path && config_exists),
    {
        Sworkstyle { deduplicate, watching: has_config_path && config_exists }
    }

    /// What a turn does, given what the compositor's stream gave and whether
    /// the watch reported a completed write of the configuration file. A broken
    /// connection ends the loop; a window event asks for an update; a reported
    /// write asks for a reload when the file is watched.
    pub fn turn(&self, compositor: CompositorPoll, config_written: bool) -> (r: Turn)
        ensures
            r == Turn::Stop <==> compositor == CompositorPoll::Broken,
            r matches Turn::Proceed { update, reload } ==> update == (compositor
                == CompositorPoll::Event) && reload == (self.watching && config_written),
    {
        match compositor {
            CompositorPoll::Broken => Turn::Stop,
            _ => Turn::Proceed {
                update: compositor == CompositorPoll::Event,
                reload: self.watching && config_written,
            },
        }
    }
}

} // verus!
