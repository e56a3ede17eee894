//! The course of the bridge: from connecting, through the handshake, to
//! steady state, and the part each side plays once it runs.
//!
//! The program that owns the socket and the radio performs the work and
//! reports what happened; the functions here say what follows from it.

use vstd::prelude::*;
use std::str::FromStr;
use crate::light::{LightState, StateModification};
use crate::mailbox::SharedSlot;
use crate::osc::{OscPacket, handle_packet, packet_effect};
use crate::command::{frame_for, frame_for_spec};

verus! {

/// The identifier of the characteristic that takes the light's commands, in
/// colon notation.
pub const COMMAND_CHARACTERISTIC: &'static str = "f0:00:aa:61:04:51:40:00:b0:00:00:00:00:00:00:00";

/// The identifier of a characteristic, as the Bluetooth stack stores it.
#[derive(Clone, Copy, Debug)]
pub enum CharacteristicId {
    /// A sixteen-bit identifier.
    Short(u16),
    /// A full identifier of sixteen bytes.
    Long([u8; 16]),
}

/// Where the bridge stands.
#[derive(Clone, Copy, Debug, PartialEq, Eq, Structural)]
pub enum BridgePhase {
    /// Looking for the device, linking to it and finding its command
    /// characteristic.
    Connecting,
    /// Linked; the opening frame is being written.
    Handshaking,
    /// Steady state: updates are received and transmitted.
    Running,
    /// Setup failed. The bridge does not start again.
    Failed,
}

/// Why setup failed.
#[derive(Clone, Copy, Debug, PartialEq, Eq, Structural)]
pub enum SetupError {
    SocketUnavailable,
    AddressInvalid,
    AdapterUnavailable,
    ScanFailed,
    DeviceNotFound,
    ConnectionRefused,
    DiscoveryFailed,
    CharacteristicMissing,
    HandshakeFailed,
}

/// What the program reports to the bridge.
#[derive(Clone, Copy, Debug, PartialEq, Eq, Structural)]
pub enum BridgeEvent {
    /// The device is linked and its command characteristic is known.
    Linked,
    /// The opening frame was written.
    HandshakeWritten,
    /// A step of setup failed.
    SetupFailed(SetupError),
    /// A command could not be written to the light.
    TransientFault,
}

/// What the program does next.
#[derive(Clone, Copy, Debug, PartialEq, Eq, Structural)]
pub enum BridgeAction {
    /// Write the opening frame.
    WriteHandshake,
    /// Start receiving and transmitting.
    StartRunning,
    /// Go on as before.
    Continue,
    /// Report the error and end the process.
    Abort(SetupError),
}

/// What btleplug's identifier parser, `UUID::from_str`, makes of a text.
pub uninterp spec fn parsed_uuid(text: Seq<char>) -> Option<CharacteristicId>;

impl CharacteristicId {
    /// Two identifiers are the same: of the same length and with the same
    /// content.
    pub open spec fn same(self, other: CharacteristicId) -> bool {
        match (self, other) {
            (CharacteristicId::Short(a), CharacteristicId::Short(b)) => a == b,
            (CharacteristicId::Long(a), CharacteristicId::Long(b)) => a@ == b@,
            _ => false,
        }
    }

    /// Tells whether two identifiers are the same.
    pub fn matches(&self, other: &CharacteristicId) -> (same: bool)
        ensures
            same == self.same(*other),
    {
        match self {
            CharacteristicId::Short(a) => match other {
                CharacteristicId::Short(b) => *a == *b,
                CharacteristicId::Long(_) => false,
            },
            CharacteristicId::Long(a) => match other {
                CharacteristicId::Short(_) => false,
                CharacteristicId::Long(b) => same_bytes(a, b),
            },
        }
    }
}

/// Tells whether two full identifiers hold the same bytes.
fn same_bytes(left: &[u8; 16], right: &[u8; 16]) -> (same: bool)
    ensures
        same == (left@ == right@),
{
    let mut i: usize = 0;
    while i < 16
        invariant
            i <= 16,
            forall|j: int| 0 <= j < i ==> left@[j] == right@[j],
        decreases 16 - i,
    {
        if left[i] != right[i] {
            assert(left@[i as int] != right@[i as int]);
            return false;
        }
        i = i + 1;
    }
    proof {
        assert(left@ =~= right@);
    }
    true
}

impl SetupError {
    /// The message shown when setup fails for this reason.
    pub open spec fn message_spec(self) -> Seq<char> {
        match self {
            SetupError::SocketUnavailable => "Can't open server socket"@,
            SetupError::AddressInvalid => "Target address invalid"@,
            SetupError::AdapterUnavailable => "No Bluetooth adapter available"@,
            SetupError::ScanFailed => "Can't start scanning for the device"@,
            SetupError::DeviceNotFound => "Could not find devices with the specified address"@,
            SetupError::ConnectionRefused => "Could not connect to device"@,
            SetupError::DiscoveryFailed => "Could not discover characteristics"@,
            SetupError::CharacteristicMissing => "Could not find matching command characteristic"@,
            SetupError::HandshakeFailed => "Couldn't send initialize message"@,
        }
    }

    /// The message shown when setup fails for this reason.
    pub fn message(&self) -> (text: String)
        ensures
            text@ == self.message_spec(),
    {
        match self {
            SetupError::SocketUnavailable => "Can't open server socket".to_owned(),
            SetupError::AddressInvalid => "Target address invalid".to_owned(),
            SetupError::AdapterUnavailable => "No Bluetooth adapter available".to_owned(),
            SetupError::ScanFailed => "Can't start scanning for the device".to_owned(),
            SetupError::DeviceNotFound => "Could not find devices with the specified address".to_owned(),
            SetupError::ConnectionRefused => "Could not connect to device".to_owned(),
            SetupError::DiscoveryFailed => "Could not discover characteristics".to_owned(),
            SetupError::CharacteristicMissing => "Could not find matching command characteristic".to_owned(),
            SetupError::HandshakeFailed => "Couldn't send initialize message".to_owned(),
        }
    }
}

/// The phase and the action that follow from an event. Setup moves forward
/// one step at a time, and a failure reported during setup ends the bridge.
/// An event that does not belong to the phase changes nothing. Once
/// running, the bridge keeps running whatever is reported.
pub open spec fn advance_spec(phase: BridgePhase, event: BridgeEvent) -> (
    BridgePhase,
    BridgeAction,
) {
    match (phase, event) {
        (BridgePhase::Running, _) => (BridgePhase::Running, BridgeAction::Continue),
        (BridgePhase::Failed, BridgeEvent::SetupFailed(error)) => (
            BridgePhase::Failed,
            BridgeAction::Abort(error),
        ),
        (BridgePhase::Failed, _) => (BridgePhase::Failed, BridgeAction::Continue),
        (_, BridgeEvent::SetupFailed(error)) => (BridgePhase::Failed, BridgeAction::Abort(error)),
        (BridgePhase::Connecting, BridgeEvent::Linked) => (
            BridgePhase::Handshaking,
            BridgeAction::WriteHandshake,
        ),
        (BridgePhase::Connecting, BridgeEvent::HandshakeWritten) => (
            BridgePhase::Connecting,
            BridgeAction::Continue,
        ),
        (BridgePhase::Handshaking, BridgeEvent::HandshakeWritten) => (
            BridgePhase::Running,
            BridgeAction::StartRunning,
        ),
        (BridgePhase::Handshaking, BridgeEvent::Linked) => (
            BridgePhase::Handshaking,
            BridgeAction::Continue,
        ),
        (_, BridgeEvent::TransientFault) => (phase, BridgeAction::Continue),
    }
}

/// The phase after a run of events, from `phase` on.
pub open spec fn phase_after(phase: BridgePhase, events: Seq<BridgeEvent>) -> BridgePhase
    decreases events.len(),
{
    if events.len() == 0 {
        phase
    } else {
        advance_spec(phase_after(phase, events.drop_last()), events.last()).0
    }
}

/// The position of the first identifier that is the same as `wanted`, if
/// there is one.
pub open spec fn first_same(ids: Seq<CharacteristicId>, wanted: CharacteristicId) -> Option<int>
    decreases ids.len(),
{
    if ids.len() == 0 {
        None
    } else {
        match first_same(ids.drop_last(), wanted) {
            Some(i) => Some(i),
            None => if ids.last().same(wanted) {
                Some(ids.len() - 1)
            } else {
                None
            },
        }
    }
}

/// Which of a device's characteristics takes the commands: the first whose
/// identifier is the one that the command identifier's text parses to.
pub open spec fn command_characteristic_spec(ids: Seq<CharacteristicId>) -> Option<int> {
    match parsed_uuid(COMMAND_CHARACTERISTIC@) {
        Some(wanted) => first_same(ids, wanted),
        None => None,
    }
}

/// Calls btleplug's `UUID::from_str` and hands back the identifier it made,
/// in either length, or nothing where it gave an error. The result is a
/// function of the text alone; the contract gives it a name and claims
/// nothing more of it.
#[verifier::external_body]
fn parse_uuid(text: &str) -> (parsed: Option<CharacteristicId>)
    ensures
        parsed == parsed_uuid(text@),
{
    match btleplug::api::UUID::from_str(text) {
        Ok(btleplug::api::UUID::B16(short)) => Some(CharacteristicId::Short(short)),
        Ok(btleplug::api::UUID::B128(bytes)) => Some(CharacteristicId::Long(bytes)),
        Err(_) => None,
    }
}

/// The first phase of every bridge.
pub fn start() -> (phase: BridgePhase)
    ensures
        phase == BridgePhase::Connecting,
{
    BridgePhase::Connecting
}

/// Decides what follows from an event.
pub fn advance(phase: BridgePhase, event: BridgeEvent) -> (next: (BridgePhase, BridgeAction))
    ensures
        next == advance_spec(phase, event),
{
    match phase {
        BridgePhase::Running => (BridgePhase::Running, BridgeAction::Continue),
        BridgePhase::Failed => match event {
            BridgeEvent::SetupFailed(error) => (BridgePhase::Failed, BridgeAction::Abort(error)),
            _ => (BridgePhase::Failed, BridgeAction::Continue),
        },
        BridgePhase::Connecting => match event {
            BridgeEvent::SetupFailed(error) => (BridgePhase::Failed, BridgeAction::Abort(error)),
            BridgeEvent::Linked => (BridgePhase::Handshaking, BridgeAction::WriteHandshake),
            BridgeEvent::HandshakeWritten => (BridgePhase::Connecting, BridgeAction::Continue),
            BridgeEvent::TransientFault => (BridgePhase::Connecting, BridgeAction::Continue),
        },
        BridgePhase::Handshaking => match event {
            BridgeEvent::SetupFailed(error) => (BridgePhase::Failed, BridgeAction::Abort(error)),
            BridgeEvent::HandshakeWritten => (BridgePhase::Running, BridgeAction::StartRunning),
            BridgeEvent::Linked => (BridgePhase::Handshaking, BridgeAction::Continue),
            BridgeEvent::TransientFault => (BridgePhase::Handshaking, BridgeAction::Continue),
        },
    }
}

/// Looks for the first identifier that is the same as `wanted`.
pub fn find_characteristic(ids: &Vec<CharacteristicId>, wanted: &CharacteristicId) -> (found:
    Option<usize>)
    ensures
        match found {
            Some(i) => {
                &&& first_same(ids@, *wanted) == Some(i as int)
                &&& i < ids.len()
                &&& ids[i as int].same(*wanted)
                &&& forall|j: int| 0 <= j < i ==> !(#[trigger] ids@[j]).same(*wanted)
            },
            None => {
                &&& first_same(ids@, *wanted).is_none()
                &&& forall|j: int| 0 <= j < ids.len() ==> !(#[trigger] ids@[j]).same(*wanted)
            },
        },
{
    let mut i: usize = 0;
    while i < ids.len()
        invariant
            i <= ids.len(),
            first_same(ids@.take(i as int), *wanted).is_none(),
        decreases ids.len() - i,
    {
        proof {
            let seen = ids@.take(i + 1);
            assert(seen.drop_last() =~= ids@.take(i as int));
            assert(seen.last() == ids@[i as int]);
        }
        if ids[i].matches(wanted) {
            proof {
                lemma_same_stays_first(ids@, *wanted, i as int);
                lemma_first_same_found(ids@, *wanted);
            }
            return Some(i);
        }
        i = i + 1;
    }
    proof {
        assert(ids@.take(i as int) =~= ids@);
        lemma_first_same_found(ids@, *wanted);
    }
    None
}

/// Picks the characteristic that takes the commands, or reports that the
/// device has none.
pub fn find_command_characteristic(ids: &Vec<CharacteristicId>) -> (found: Result<
    usize,
    SetupError,
>)
    ensures
        match found {
            Ok(i) => command_characteristic_spec(ids@) == Some(i as int) && i < ids.len(),
            Err(error) => command_characteristic_spec(ids@).is_none() && error
                == SetupError::CharacteristicMissing,
        },
{
    match parse_uuid(COMMAND_CHARACTERISTIC) {
        Some(wanted) => match find_characteristic(ids, &wanted) {
            Some(i) => Ok(i),
            None => Err(SetupError::CharacteristicMissing),
        },
        None => Err(SetupError::CharacteristicMissing),
    }
}

/// The receiving side's part for one decoded packet: the packet is applied
/// to the receiver's own state, and a copy of that state is published with
/// the tag the packet reported, whatever the tag is.
pub fn receive(packet: &OscPacket, state: &mut LightState, slot: &mut SharedSlot) -> (tag:
    StateModification)
    ensures
        (*final(state), tag) == packet_effect(*packet, *old(state)),
        *final(slot) == old(slot).published(*final(state), tag),
        old(state).wf() ==> final(state).wf(),
{
    let tag = handle_packet(packet, state);
    slot.publish(*state, tag);
    tag
}

/// The receiving side's part for one datagram, decoded or not. A datagram
/// that was decoded is applied and published as `receive` does. One that was
/// rejected is dropped: neither the receiver's state nor the slot changes.
pub fn receive_datagram(
    decoded: Option<&OscPacket>,
    state: &mut LightState,
    slot: &mut SharedSlot,
) -> (tag: Option<StateModification>)
    ensures
        match decoded {
            Some(packet) => {
                &&& (*final(state), tag.unwrap()) == packet_effect(*packet, *old(state))
                &&& tag.is_some()
                &&& *final(slot) == old(slot).published(*final(state), tag.unwrap())
            },
            None => {
                &&& tag.is_none()
                &&& *final(state) == *old(state)
                &&& *final(slot) == *old(slot)
            },
        },
        old(state).wf() ==> final(state).wf(),
{
    match decoded {
        Some(packet) => Some(receive(packet, state, slot)),
        None => None,
    }
}

/// The transmitting side's part once it holds the slot: the stored pair is
/// taken, and the one frame that its tag calls for is chosen. A tag that
/// reports no change calls for none.
pub fn transmit(slot: &mut SharedSlot) -> (frame: Option<[u8; 6]>)
    ensures
        *final(slot) == old(slot).taken(),
        match frame {
            Some(bytes) => frame_for_spec(old(slot).state, old(slot).tag) == Some(bytes@),
            None => frame_for_spec(old(slot).state, old(slot).tag).is_none(),
        },
{
    let update = slot.take();
    frame_for(&update.0, update.1)
}

/// A match found among the first identifiers is the match of the whole
/// list.
pub proof fn lemma_same_stays_first(ids: Seq<CharacteristicId>, wanted: CharacteristicId, i: int)
    requires
        0 <= i < ids.len(),
        first_same(ids.take(i + 1), wanted) == Some(i),
    ensures
        first_same(ids, wanted) == Some(i),
    decreases ids.len(),
{
    if ids.len() > i + 1 {
        assert(ids.drop_last().take(i + 1) =~= ids.take(i + 1));
        lemma_same_stays_first(ids.drop_last(), wanted, i);
    } else {
        assert(ids.take(i + 1) =~= ids);
    }
}

/// What a found position means: the identifier there is the same as the
/// wanted one, and no identifier before it is.
pub proof fn lemma_first_same_found(ids: Seq<CharacteristicId>, wanted: CharacteristicId)
    ensures
        match first_same(ids, wanted) {
            Some(i) => {
                &&& 0 <= i < ids.len()
                &&& ids[i].same(wanted)
                &&& forall|j: int| 0 <= j < i ==> !(#[trigger] ids[j]).same(wanted)
            },
            None => forall|j: int| 0 <= j < ids.len() ==> !(#[trigger] ids[j]).same(wanted),
        },
    decreases ids.len(),
{
    if ids.len() > 0 {
        lemma_first_same_found(ids.drop_last(), wanted);
        assert(forall|j: int| 0 <= j < ids.len() - 1 ==> ids.drop_last()[j] == ids[j]);
    }
}

/// Once running, the bridge stays running, whatever is reported to it.
pub proof fn lemma_running_is_final(events: Seq<BridgeEvent>)
    ensures
        phase_after(BridgePhase::Running, events) == BridgePhase::Running,
    decreases events.len(),
{
    if events.len() > 0 {
        lemma_running_is_final(events.drop_last());
    }
}

/// A failed bridge stays failed: there is no way back to connecting.
pub proof fn lemma_failed_is_final(events: Seq<BridgeEvent>)
    ensures
        phase_after(BridgePhase::Failed, events) == BridgePhase::Failed,
    decreases events.len(),
{
    if events.len() > 0 {
        lemma_failed_is_final(events.drop_last());
    }
}

/// A failure reported before the bridge runs ends it, and the action names
/// the error that was reported.
pub proof fn lemma_setup_failure_is_fatal(phase: BridgePhase, error: SetupError)
    requires
        phase != BridgePhase::Running,
    ensures
        advance_spec(phase, BridgeEvent::SetupFailed(error)) == (
            BridgePhase::Failed,
            BridgeAction::Abort(error),
        ),
{
}

/// The bridge reaches steady state only through the handshake: the one
/// step into `Running` is the written handshake, taken while handshaking.
pub proof fn lemma_running_needs_handshake(phase: BridgePhase, event: BridgeEvent)
    requires
        phase != BridgePhase::Running,
        advance_spec(phase, event).0 == BridgePhase::Running,
    ensures
        phase == BridgePhase::Handshaking,
        event == BridgeEvent::HandshakeWritten,
{
}

} // verus!
