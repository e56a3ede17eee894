use yongnuo_osc_server::bridge::{receive, receive_datagram, transmit};
use yongnuo_osc_server::light::{LightState, RGBState, StateModification, WhiteState};
use yongnuo_osc_server::mailbox::SharedSlot;
use yongnuo_osc_server::osc::{OscMessage, OscPacket, OscValue};

fn state(red: u8, warm: u8) -> LightState {
    LightState {
        rgb: RGBState { red, green: 0, blue: 0 },
        white: WhiteState { warm, cool: 0 },
    }
}

#[test]
fn fresh_slot_makes_the_consumer_wait() {
    let mut slot = SharedSlot::new();
    assert!(slot.must_wait());
    assert_eq!(slot.try_consume(), None);
    assert_eq!(slot, SharedSlot::default());
    assert_eq!(slot.state, LightState::default());
}

#[test]
fn second_publish_replaces_the_first() {
    let mut slot = SharedSlot::new();
    slot.publish(state(1, 0), StateModification::RGB);
    slot.publish(state(1, 2), StateModification::White);
    assert!(!slot.must_wait());
    assert_eq!(slot.take(), (state(1, 2), StateModification::White));
    assert!(slot.must_wait());
    assert_eq!(slot.try_consume(), None);
}

#[test]
fn take_clears_the_tag_and_keeps_the_snapshot() {
    let mut slot = SharedSlot::new();
    slot.publish(state(9, 9), StateModification::RGB);
    assert_eq!(slot.try_consume(), Some((state(9, 9), StateModification::RGB)));
    assert_eq!(slot.tag, StateModification::Unchanged);
    assert_eq!(slot.state, state(9, 9));
    assert_eq!(slot.take(), (state(9, 9), StateModification::Unchanged));
}

#[test]
fn many_publishes_deliver_only_the_last() {
    let mut slot = SharedSlot::new();
    for step in 0..50u8 {
        slot.publish(state(step, step), StateModification::RGB);
    }
    let mut delivered = Vec::new();
    while let Some(update) = slot.try_consume() {
        delivered.push(update);
    }
    assert_eq!(delivered, vec![(state(49, 49), StateModification::RGB)]);
}

#[test]
fn interleaved_consumer_never_sees_more_than_was_published() {
    let mut slot = SharedSlot::new();
    let mut delivered = Vec::new();
    for step in 0..30u8 {
        slot.publish(state(step, 0), StateModification::RGB);
        if step % 3 == 2 {
            if let Some(update) = slot.try_consume() {
                delivered.push(update);
            }
            assert_eq!(slot.try_consume(), None);
        }
    }
    assert_eq!(delivered.len(), 10);
    assert_eq!(delivered.last(), Some(&(state(29, 0), StateModification::RGB)));
}

#[test]
fn publishing_no_change_hides_the_pending_update() {
    let mut slot = SharedSlot::new();
    slot.publish(state(5, 0), StateModification::RGB);
    slot.publish(state(5, 0), StateModification::Unchanged);
    assert!(slot.must_wait());
    assert_eq!(slot.try_consume(), None);
    assert_eq!(slot.state, state(5, 0));
}

#[test]
fn receive_publishes_the_receivers_state() {
    let mut slot = SharedSlot::new();
    let mut local = LightState::default();
    let red = OscPacket::Message(OscMessage {
        addr: "/red".to_string(),
        args: vec![OscValue::Float(1.0f32.to_bits())],
    });
    let warm = OscPacket::Message(OscMessage {
        addr: "/warm".to_string(),
        args: vec![OscValue::Float(1.0f32.to_bits())],
    });
    assert_eq!(receive(&red, &mut local, &mut slot), StateModification::RGB);
    assert_eq!(slot.state, state(255, 0));
    assert_eq!(receive(&warm, &mut local, &mut slot), StateModification::White);
    assert_eq!(local, state(255, 99));
    assert_eq!(slot, SharedSlot { state: state(255, 99), tag: StateModification::White });
}

#[test]
fn transmit_writes_one_frame_per_update() {
    let mut slot = SharedSlot::new();
    assert_eq!(transmit(&mut slot), None);
    slot.publish(state(255, 99), StateModification::White);
    assert_eq!(transmit(&mut slot), Some([0xae, 0xaa, 1, 0, 99, 0x56]));
    assert_eq!(transmit(&mut slot), None);
    slot.publish(state(255, 99), StateModification::RGB);
    assert_eq!(transmit(&mut slot), Some([0xae, 0xa1, 255, 0, 0, 0x56]));
    assert!(slot.must_wait());
}

#[test]
fn rejected_datagram_changes_nothing() {
    let mut slot = SharedSlot::new();
    let mut local = state(7, 8);
    slot.publish(state(1, 2), StateModification::RGB);
    assert_eq!(receive_datagram(None, &mut local, &mut slot), None);
    assert_eq!(local, state(7, 8));
    assert_eq!(slot, SharedSlot { state: state(1, 2), tag: StateModification::RGB });
}

#[test]
fn decoded_datagram_is_applied_and_published() {
    let mut slot = SharedSlot::new();
    let mut local = LightState::default();
    let red = OscPacket::Message(OscMessage {
        addr: "/red".to_string(),
        args: vec![OscValue::Float(1.0f32.to_bits())],
    });
    let tag = receive_datagram(Some(&red), &mut local, &mut slot);
    assert_eq!(tag, Some(StateModification::RGB));
    assert_eq!(local, state(255, 0));
    assert_eq!(slot, SharedSlot { state: state(255, 0), tag: StateModification::RGB });
    let unknown = OscPacket::Message(OscMessage { addr: "/x".to_string(), args: vec![] });
    assert_eq!(receive_datagram(Some(&unknown), &mut local, &mut slot), Some(StateModification::Unchanged));
    assert!(slot.must_wait());
}
