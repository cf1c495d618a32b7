//! The state of a device's inputs.

use vstd::prelude::*;

verus! {

/// Which buttons and encoders are held down.
#[derive(Debug, PartialEq, Eq)]
pub struct DeviceState {
    /// One entry per button.
    pub buttons: Vec<bool>,
    /// One entry per encoder.
    pub encoders: Vec<bool>,
}

/// What is needed to interpret the input reports of a device.
#[derive(Debug, PartialEq, Eq)]
pub struct DeviceStateReader {
    /// The protocol version of the device.
    pub protocol_version: usize,
    /// Whether the device reports that an encoder was released.
    pub supports_both_encoder_states: bool,
    /// The inputs as last reported.
    pub states: DeviceState,
}

/// `count` inputs, none of them held down.
pub open spec fn released(count: nat) -> Seq<bool> {
    Seq::new(count, |i: int| false)
}

/// There are as many inputs as were asked for, and none is held down.
pub proof fn law_released(count: nat)
    ensures
        released(count).len() == count,
        !released(count).contains(true),
{
}

impl DeviceState {
    /// The state in which nothing is held down.
    pub(crate) fn all_released(key_count: usize, encoder_count: usize) -> (state: DeviceState)
        requires
            key_count <= isize::MAX,
            encoder_count <= isize::MAX,
        ensures
            state.buttons@ == released(key_count as nat),
            state.encoders@ == released(encoder_count as nat),
    {
        let buttons: Vec<bool> = vec![false; key_count];
        let encoders: Vec<bool> = vec![false; encoder_count];
        assert(buttons@ =~= released(key_count as nat));
        assert(encoders@ =~= released(encoder_count as nat));
        DeviceState { buttons, encoders }
    }
}

} // verus!
