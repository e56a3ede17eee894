use yongnuo_osc_server::bridge::{
    advance, find_characteristic, find_command_characteristic, start, BridgeAction, BridgeEvent,
    BridgePhase, CharacteristicId, SetupError, COMMAND_CHARACTERISTIC,
};
use yongnuo_osc_server::discover::{
    describe, find_by_address, parse_address, same_address, AddressError, DeviceInfo,
};

fn device(name: Option<&str>, address: [u8; 6]) -> DeviceInfo {
    DeviceInfo { name: name.map(|text| text.to_string()), address }
}

const COMMAND_BYTES: [u8; 16] =
    [0, 0, 0, 0, 0, 0, 0, 0xb0, 0x00, 0x40, 0x51, 0x04, 0x61, 0xaa, 0x00, 0xf0];

#[test]
fn address_is_stored_last_byte_first() {
    assert_eq!(parse_address("AA:BB:CC:DD:EE:FF"), Ok([0xff, 0xee, 0xdd, 0xcc, 0xbb, 0xaa]));
    assert_eq!(parse_address("00:1a:2B:3c:4D:5e"), Ok([0x5e, 0x4d, 0x3c, 0x2b, 0x1a, 0x00]));
}

#[test]
fn address_with_wrong_part_count_is_refused() {
    assert_eq!(parse_address("AA:BB:CC"), Err(AddressError::IncorrectByteCount));
    assert_eq!(parse_address("AA:BB:CC:DD:EE:FF:00"), Err(AddressError::IncorrectByteCount));
}

#[test]
fn address_with_bad_digits_is_refused() {
    assert_eq!(parse_address("AA:BB:CC:DD:EE:GG"), Err(AddressError::InvalidInt));
    assert_eq!(parse_address(""), Err(AddressError::InvalidInt));
    assert_eq!(parse_address("AA:BB:CC:DD:EE:100"), Err(AddressError::InvalidInt));
}

#[test]
fn empty_scan_finds_nothing() {
    assert_eq!(find_by_address(&Vec::new(), &[1, 2, 3, 4, 5, 6]), None);
}

#[test]
fn scan_without_the_address_finds_nothing() {
    let devices = vec![device(Some("a"), [1, 2, 3, 4, 5, 7]), device(None, [6, 5, 4, 3, 2, 1])];
    assert_eq!(find_by_address(&devices, &[1, 2, 3, 4, 5, 6]), None);
}

#[test]
fn first_device_with_the_address_is_found() {
    let devices = vec![
        device(Some("a"), [1, 2, 3, 4, 5, 7]),
        device(None, [1, 2, 3, 4, 5, 6]),
        device(Some("again"), [1, 2, 3, 4, 5, 6]),
    ];
    assert_eq!(find_by_address(&devices, &[1, 2, 3, 4, 5, 6]), Some(1));
    assert_eq!(find_by_address(&devices, &[1, 2, 3, 4, 5, 7]), Some(0));
}

#[test]
fn parsed_address_finds_its_device() {
    let target = parse_address("11:22:33:44:55:66").unwrap();
    let devices = vec![device(None, [0x11, 0x22, 0x33, 0x44, 0x55, 0x66]), device(None, target)];
    assert_eq!(find_by_address(&devices, &target), Some(1));
}

#[test]
fn addresses_compare_byte_by_byte() {
    assert!(same_address(&[1, 2, 3, 4, 5, 6], &[1, 2, 3, 4, 5, 6]));
    for i in 0..6 {
        let mut other = [1u8, 2, 3, 4, 5, 6];
        other[i] = 0;
        assert!(!same_address(&[1, 2, 3, 4, 5, 6], &other));
    }
}

#[test]
fn device_line_shows_address_and_name() {
    let lamp = device(Some("Lamp"), [0xff, 0xee, 0xdd, 0xcc, 0xbb, 0xaa]);
    assert_eq!(describe(&lamp), "AA:BB:CC:DD:EE:FF (Lamp)");
    let nameless = device(None, [0x0f, 0x1e, 0x2d, 0x3c, 0x4b, 0x5a]);
    assert_eq!(describe(&nameless), "5A:4B:3C:2D:1E:0F (Unknown)");
}

#[test]
fn command_characteristic_is_picked_by_its_identifier() {
    let ids = vec![
        CharacteristicId::Short(0x2a00),
        CharacteristicId::Long([7; 16]),
        CharacteristicId::Long(COMMAND_BYTES),
        CharacteristicId::Long(COMMAND_BYTES),
    ];
    assert_eq!(find_command_characteristic(&ids), Ok(2));
    assert_eq!(COMMAND_CHARACTERISTIC, "f0:00:aa:61:04:51:40:00:b0:00:00:00:00:00:00:00");
}

#[test]
fn missing_command_characteristic_is_reported() {
    let mut reversed = COMMAND_BYTES;
    reversed.reverse();
    let ids = vec![CharacteristicId::Short(0xf000), CharacteristicId::Long(reversed)];
    assert_eq!(find_command_characteristic(&ids), Err(SetupError::CharacteristicMissing));
    assert_eq!(find_command_characteristic(&Vec::new()), Err(SetupError::CharacteristicMissing));
}

#[test]
fn characteristics_match_by_length_and_content() {
    let ids = vec![CharacteristicId::Short(1), CharacteristicId::Long([1; 16])];
    assert_eq!(find_characteristic(&ids, &CharacteristicId::Short(1)), Some(0));
    assert_eq!(find_characteristic(&ids, &CharacteristicId::Long([1; 16])), Some(1));
    assert_eq!(find_characteristic(&ids, &CharacteristicId::Short(2)), None);
    let mut near = [1u8; 16];
    near[15] = 2;
    assert_eq!(find_characteristic(&ids, &CharacteristicId::Long(near)), None);
    assert!(CharacteristicId::Short(5).matches(&CharacteristicId::Short(5)));
    assert!(!CharacteristicId::Short(5).matches(&CharacteristicId::Long([5; 16])));
}

#[test]
fn setup_moves_through_handshake_to_running() {
    let phase = start();
    assert_eq!(phase, BridgePhase::Connecting);
    let (phase, action) = advance(phase, BridgeEvent::Linked);
    assert_eq!((phase, action), (BridgePhase::Handshaking, BridgeAction::WriteHandshake));
    let (phase, action) = advance(phase, BridgeEvent::HandshakeWritten);
    assert_eq!((phase, action), (BridgePhase::Running, BridgeAction::StartRunning));
}

#[test]
fn setup_failure_is_fatal() {
    for error in [
        SetupError::SocketUnavailable,
        SetupError::AddressInvalid,
        SetupError::AdapterUnavailable,
        SetupError::ScanFailed,
        SetupError::DeviceNotFound,
        SetupError::ConnectionRefused,
        SetupError::DiscoveryFailed,
        SetupError::CharacteristicMissing,
        SetupError::HandshakeFailed,
    ] {
        for phase in [BridgePhase::Connecting, BridgePhase::Handshaking] {
            assert_eq!(
                advance(phase, BridgeEvent::SetupFailed(error)),
                (BridgePhase::Failed, BridgeAction::Abort(error))
            );
        }
        assert!(!error.message().is_empty());
    }
    assert_eq!(
        advance(BridgePhase::Failed, BridgeEvent::Linked),
        (BridgePhase::Failed, BridgeAction::Continue)
    );
    assert_eq!(
        advance(BridgePhase::Failed, BridgeEvent::HandshakeWritten),
        (BridgePhase::Failed, BridgeAction::Continue)
    );
}

#[test]
fn faults_while_running_are_survived() {
    for event in [
        BridgeEvent::TransientFault,
        BridgeEvent::SetupFailed(SetupError::HandshakeFailed),
        BridgeEvent::Linked,
        BridgeEvent::HandshakeWritten,
    ] {
        assert_eq!(advance(BridgePhase::Running, event), (BridgePhase::Running, BridgeAction::Continue));
    }
}

#[test]
fn events_out_of_turn_change_nothing() {
    assert_eq!(
        advance(BridgePhase::Connecting, BridgeEvent::HandshakeWritten),
        (BridgePhase::Connecting, BridgeAction::Continue)
    );
    assert_eq!(
        advance(BridgePhase::Handshaking, BridgeEvent::Linked),
        (BridgePhase::Handshaking, BridgeAction::Continue)
    );
    assert_eq!(
        advance(BridgePhase::Connecting, BridgeEvent::TransientFault),
        (BridgePhase::Connecting, BridgeAction::Continue)
    );
}

#[test]
fn setup_messages() {
    assert_eq!(SetupError::AddressInvalid.message(), "Target address invalid");
    assert_eq!(
        SetupError::DeviceNotFound.message(),
        "Could not find devices with the specified address"
    );
    assert_eq!(SetupError::ConnectionRefused.message(), "Could not connect to device");
    assert_eq!(
        SetupError::CharacteristicMissing.message(),
        "Could not find matching command characteristic"
    );
    assert_eq!(SetupError::HandshakeFailed.message(), "Couldn't send initialize message");
}

#[test]
fn earlier_characteristics_are_not_the_wanted_one() {
    let wanted = CharacteristicId::Long(COMMAND_BYTES);
    let ids = vec![
        CharacteristicId::Short(0x1800),
        CharacteristicId::Long([0; 16]),
        CharacteristicId::Long(COMMAND_BYTES),
    ];
    let found = find_characteristic(&ids, &wanted).unwrap();
    assert_eq!(found, 2);
    for earlier in &ids[..found] {
        assert!(!earlier.matches(&wanted));
    }
    assert!(ids[found].matches(&wanted));
}
