//! The mute switch of the game's sound effects.

use vstd::prelude::*;

verus! {

/// Whether sound effects are muted. A new switch starts unmuted.
#[derive(Clone, Copy, PartialEq, Eq, Debug, Structural)]
pub struct MuteSwitch {
    pub muted: bool,
}

impl MuteSwitch {
    /// A switch in the unmuted position.
    pub fn new() -> (s: MuteSwitch)
        ensures
            !s.muted,
    {
        MuteSwitch { muted: false }
    }
}

/// Flips the mute switch and returns its new position (true: muted).
pub fn toggle_mute(switch: &mut MuteSwitch) -> (now_muted: bool)
    ensures
        final(switch).muted == !old(switch).muted,
        now_muted == final(switch).muted,
{
    switch.muted = !switch.muted;
    switch.muted
}

/// Whether the game is currently muted.
pub fn is_muted(switch: &MuteSwitch) -> (muted: bool)
    ensures
        muted == switch.muted,
{
    switch.muted
}

/// Toggling the mute switch twice puts it back where it was.
pub proof fn toggle_twice_restores(before: MuteSwitch, once: MuteSwitch, twice: MuteSwitch)
    requires
        once.muted == !before.muted,
        twice.muted == !once.muted,
    ensures
        twice == before,
{
}

/// A run of `n` toggles leaves the switch flipped exactly when `n` is odd:
/// `states[0]` is the switch before, and each later state is the one after
/// one more toggle.
pub proof fn toggles_flip_by_parity(states: Seq<MuteSwitch>)
    requires
        states.len() > 0,
        forall|i: int| 0 < i < states.len() ==> #[trigger] states[i].muted == !states[i - 1].muted,
    ensures
        states.last().muted == (states[0].muted != ((states.len() - 1) % 2 == 1)),
    decreases states.len(),
{
    if states.len() > 1 {
        let prefix = states.drop_last();
        assert forall|i: int| 0 < i < prefix.len() implies #[trigger] prefix[i].muted == !prefix[i - 1].muted by {
            assert(states[i].muted == !states[i - 1].muted);
        }
        toggles_flip_by_parity(prefix);
        let last = states.len() - 1;
        assert(states[last].muted == !states[last - 1].muted);
    }
}

} // verus!
