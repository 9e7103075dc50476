//! Settings that shape a session rather than an exposure: set once when a run starts and then
//! left alone. Owned here so that a reload of the user interface cannot silently undo a choice
//! made an hour into a sequence.

use vstd::prelude::*;

verus! {

/// Fewest and most frames one transfer may stand for: 1 is every frame, 30 is well past useful
/// and only exists so the value has an end.
pub const TRANSFER_EVERY_MIN: u32 = 1;
pub const TRANSFER_EVERY_MAX: u32 = 30;

#[derive(Debug, Clone, Copy, PartialEq, Eq, Structural)]
pub struct AppSettings {
    /// Transfer one frame in this many; 1 is every frame. Frames that are not transferred are
    /// still counted and timed, they simply never cross the network.
    pub transfer_every: u32,
}

pub open spec fn clamp(v: u32) -> u32 {
    if v < TRANSFER_EVERY_MIN {
        TRANSFER_EVERY_MIN
    } else if v > TRANSFER_EVERY_MAX {
        TRANSFER_EVERY_MAX
    } else {
        v
    }
}

/// Settings every part of which is within its bounds.
pub open spec fn in_range(s: AppSettings) -> bool {
    TRANSFER_EVERY_MIN <= s.transfer_every <= TRANSFER_EVERY_MAX
}

impl Default for AppSettings {
    /// Every frame is transferred: anything else would quietly discard frames nobody asked to
    /// discard.
    fn default() -> (r: Self)
        ensures
            r.transfer_every == 1,
    {
        AppSettings { transfer_every: 1 }
    }
}

impl AppSettings {
    /// The same settings with anything out of range brought back into it.
    pub fn clamped(self) -> (r: Self)
        ensures
            r.transfer_every == clamp(self.transfer_every),
    {
        let v = self.transfer_every;
        AppSettings {
            transfer_every: if v < TRANSFER_EVERY_MIN {
                TRANSFER_EVERY_MIN
            } else if v > TRANSFER_EVERY_MAX {
                TRANSFER_EVERY_MAX
            } else {
                v
            },
        }
    }
}

/// Clamping always lands in range, leaves settings that are already in range alone, and so
/// clamping twice is clamping once.
pub proof fn clamping_is_a_projection(s: AppSettings)
    ensures
        TRANSFER_EVERY_MIN <= clamp(s.transfer_every) <= TRANSFER_EVERY_MAX,
        in_range(s) ==> clamp(s.transfer_every) == s.transfer_every,
        clamp(clamp(s.transfer_every)) == clamp(s.transfer_every),
{
}

/// The stored settings.
pub struct SettingsState {
    current: AppSettings,
}

impl SettingsState {
    /// What is in force.
    pub closed spec fn stored(&self) -> AppSettings {
        self.current
    }

    /// The defaults, in force until something is stored.
    pub fn new() -> (r: Self)
        ensures
            r.stored().transfer_every == 1,
            in_range(r.stored()),
    {
        SettingsState { current: AppSettings { transfer_every: 1 } }
    }

    pub fn get(&self) -> (r: AppSettings)
        ensures
            r == self.stored(),
    {
        self.current
    }

    /// Store new settings and return what was actually kept: clamped rather than trusted, since
    /// a zero would make "every nth frame" divide by it.
    pub fn set(&mut self, settings: AppSettings) -> (r: AppSettings)
        ensures
            r.transfer_every == clamp(settings.transfer_every),
            final(self).stored() == r,
            in_range(r),
    {
        self.current = settings.clamped();
        self.current
    }
}

} // verus!
