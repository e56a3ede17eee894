//! The six-byte command frames that the light understands.

use vstd::prelude::*;
use crate::light::{LightState, StateModification};

verus! {

/// First byte of every frame.
pub const FRAME_START: u8 = 0xae;

/// Last byte of every frame.
pub const FRAME_END: u8 = 0x56;

/// Second byte of a frame that sets the colour channels.
pub const OP_RGB: u8 = 0xa1;

/// Second byte of a frame that sets the white channels.
pub const OP_WHITE: u8 = 0xaa;

/// Second byte of the frame that opens a session.
pub const OP_INIT: u8 = 0x33;

/// The frame that sets the colour channels of `state`.
pub open spec fn rgb_frame_spec(state: LightState) -> Seq<u8> {
    seq![FRAME_START, OP_RGB, state.rgb.red, state.rgb.green, state.rgb.blue, FRAME_END]
}

/// The frame that sets the white channels of `state`: cool first, then warm.
pub open spec fn white_frame_spec(state: LightState) -> Seq<u8> {
    seq![FRAME_START, OP_WHITE, 1u8, state.white.cool, state.white.warm, FRAME_END]
}

/// The frame that must be written once before any other.
pub open spec fn handshake_frame_spec() -> Seq<u8> {
    seq![FRAME_START, OP_INIT, 0u8, 0u8, 0u8, FRAME_END]
}

/// What the transmitting side writes for a consumed update: the colour frame
/// for a colour change, the white frame for a white change, nothing otherwise.
pub open spec fn frame_for_spec(state: LightState, tag: StateModification) -> Option<Seq<u8>> {
    match tag {
        StateModification::RGB => Some(rgb_frame_spec(state)),
        StateModification::White => Some(white_frame_spec(state)),
        StateModification::Unchanged => None,
    }
}

/// Encodes the colour channels of `state`.
pub fn rgb_frame(state: &LightState) -> (frame: [u8; 6])
    ensures
        frame@ == rgb_frame_spec(*state),
{
    let frame = [FRAME_START, OP_RGB, state.rgb.red, state.rgb.green, state.rgb.blue, FRAME_END];
    assert(frame@ =~= rgb_frame_spec(*state));
    frame
}

/// Encodes the white channels of `state`.
pub fn white_frame(state: &LightState) -> (frame: [u8; 6])
    ensures
        frame@ == white_frame_spec(*state),
{
    let frame = [FRAME_START, OP_WHITE, 1u8, state.white.cool, state.white.warm, FRAME_END];
    assert(frame@ =~= white_frame_spec(*state));
    frame
}

/// The frame that opens a session with the light.
pub fn handshake_frame() -> (frame: [u8; 6])
    ensures
        frame@ == handshake_frame_spec(),
{
    let frame = [FRAME_START, OP_INIT, 0u8, 0u8, 0u8, FRAME_END];
    assert(frame@ =~= handshake_frame_spec());
    frame
}

/// Chooses the single frame to write for a consumed update.
pub fn frame_for(state: &LightState, tag: StateModification) -> (frame: Option<[u8; 6]>)
    ensures
        match frame {
            Some(f) => frame_for_spec(*state, tag) == Some(f@),
            None => frame_for_spec(*state, tag).is_none(),
        },
{
    match tag {
        StateModification::RGB => Some(rgb_frame(state)),
        StateModification::White => Some(white_frame(state)),
        StateModification::Unchanged => None,
    }
}

} // verus!
