//! Control packets and what each does to the desired light state.
//!
//! A packet is a message, with an address and arguments, or a bundle of
//! packets. Five addresses are routed to the five channels; the first
//! argument, read as a single-precision number, gives the new value as a
//! fraction of the channel's maximum. A bundle applies its members in order
//! and reports what its last member reported.

use vstd::prelude::*;
use crate::light::{LightState, RGBState, WhiteState, StateModification, COLOR_MAX, WHITE_MAX};
use crate::scale::{channel_value, channel_value_spec};

verus! {

/// One argument of a message, as far as the bridge reads it.
#[derive(Clone, Copy, Debug, PartialEq, Eq, Structural)]
pub enum OscValue {
    /// A 32-bit integer.
    Int(i32),
    /// A single-precision number, held by its bit pattern.
    Float(u32),
    /// An argument of any other type.
    Other,
}

/// An address and its arguments.
#[derive(Debug)]
pub struct OscMessage {
    pub addr: String,
    pub args: Vec<OscValue>,
}

/// The packets sent together under one time tag. The bridge applies them
/// on arrival, so the time tag is not kept.
#[derive(Debug)]
pub struct OscBundle {
    pub content: Vec<OscPacket>,
}

/// What arrives in one datagram.
#[derive(Debug)]
pub enum OscPacket {
    Message(OscMessage),
    Bundle(OscBundle),
}

/// The five channels of the light.
#[derive(Clone, Copy, Debug, PartialEq, Eq, Structural)]
pub enum Channel {
    Red,
    Green,
    Blue,
    Warm,
    Cool,
}

/// Shows an argument as text. The program that decodes the arguments
/// implements it for them; `integer_text` gives the text of an integer one.
pub trait StringableOscType {
    fn to_string(&self) -> String;
}

impl Channel {
    /// The largest value the channel takes.
    pub open spec fn max_spec(self) -> u8 {
        match self {
            Channel::Red | Channel::Green | Channel::Blue => COLOR_MAX,
            Channel::Warm | Channel::Cool => WHITE_MAX,
        }
    }

    /// The tag reported when the channel is set.
    pub open spec fn tag_spec(self) -> StateModification {
        match self {
            Channel::Red | Channel::Green | Channel::Blue => StateModification::RGB,
            Channel::Warm | Channel::Cool => StateModification::White,
        }
    }

    /// The largest value the channel takes.
    pub fn max(self) -> (m: u8)
        ensures
            m == self.max_spec(),
    {
        match self {
            Channel::Red | Channel::Green | Channel::Blue => COLOR_MAX,
            Channel::Warm | Channel::Cool => WHITE_MAX,
        }
    }

    /// The tag reported when the channel is set.
    pub fn tag(self) -> (t: StateModification)
        ensures
            t == self.tag_spec(),
    {
        match self {
            Channel::Red | Channel::Green | Channel::Blue => StateModification::RGB,
            Channel::Warm | Channel::Cool => StateModification::White,
        }
    }
}

/// The channel an address is routed to, if any. Addresses are matched
/// exactly and with regard to case.
pub open spec fn route_spec(addr: Seq<char>) -> Option<Channel> {
    if addr == "/red"@ {
        Some(Channel::Red)
    } else if addr == "/green"@ {
        Some(Channel::Green)
    } else if addr == "/blue"@ {
        Some(Channel::Blue)
    } else if addr == "/warm"@ {
        Some(Channel::Warm)
    } else if addr == "/cool"@ {
        Some(Channel::Cool)
    } else {
        None
    }
}

/// The bit pattern of the number a message carries: that of its first
/// argument if it is a single-precision number, and that of zero otherwise.
pub open spec fn leading_number_spec(args: Seq<OscValue>) -> u32 {
    if args.len() > 0 {
        match args[0] {
            OscValue::Float(bits) => bits,
            _ => 0,
        }
    } else {
        0
    }
}

/// `state` with one channel replaced.
pub open spec fn with_channel(state: LightState, channel: Channel, value: u8) -> LightState {
    match channel {
        Channel::Red => LightState { rgb: RGBState { red: value, ..state.rgb }, ..state },
        Channel::Green => LightState { rgb: RGBState { green: value, ..state.rgb }, ..state },
        Channel::Blue => LightState { rgb: RGBState { blue: value, ..state.rgb }, ..state },
        Channel::Warm => LightState { white: WhiteState { warm: value, ..state.white }, ..state },
        Channel::Cool => LightState { white: WhiteState { cool: value, ..state.white }, ..state },
    }
}

/// The state after a message and the tag it reports. A routed address sets
/// its channel to the scaled leading number; any other address changes
/// nothing.
pub open spec fn message_effect(message: OscMessage, state: LightState) -> (
    LightState,
    StateModification,
) {
    match route_spec(message.addr@) {
        Some(channel) => (
            with_channel(
                state,
                channel,
                channel_value_spec(leading_number_spec(message.args@), channel.max_spec()),
            ),
            channel.tag_spec(),
        ),
        None => (state, StateModification::Unchanged),
    }
}

/// The state after a packet and the tag it reports.
pub open spec fn packet_effect(packet: OscPacket, state: LightState) -> (
    LightState,
    StateModification,
)
    decreases packet,
{
    match packet {
        OscPacket::Message(message) => message_effect(message, state),
        OscPacket::Bundle(bundle) => members_effect(bundle.content@, state),
    }
}

/// The state after the members of a bundle, applied in order, and the tag of
/// the last of them. Without members nothing changes.
pub open spec fn members_effect(members: Seq<OscPacket>, state: LightState) -> (
    LightState,
    StateModification,
)
    decreases members,
{
    if members.len() == 0 {
        (state, StateModification::Unchanged)
    } else {
        packet_effect(members.last(), members_effect(members.drop_last(), state).0)
    }
}

/// The value of one channel of `state`.
pub open spec fn channel_of(state: LightState, channel: Channel) -> u8 {
    match channel {
        Channel::Red => state.rgb.red,
        Channel::Green => state.rgb.green,
        Channel::Blue => state.rgb.blue,
        Channel::Warm => state.white.warm,
        Channel::Cool => state.white.cool,
    }
}

/// The character of a decimal digit.
pub open spec fn digit_char(digit: int) -> char {
    seq!['0', '1', '2', '3', '4', '5', '6', '7', '8', '9'][digit]
}

/// A natural number in decimal, without leading zeros.
pub open spec fn decimal_spec(number: nat) -> Seq<char>
    decreases number,
{
    if number < 10 {
        seq![digit_char(number as int)]
    } else {
        decimal_spec(number / 10) + seq![digit_char((number % 10) as int)]
    }
}

/// An integer in decimal, with a minus sign before a negative one.
pub open spec fn integer_text_spec(number: int) -> Seq<char> {
    if number < 0 {
        seq!['-'] + decimal_spec((-number) as nat)
    } else {
        decimal_spec(number as nat)
    }
}

/// The text of one decimal digit.
fn digit_text(digit: u32) -> (text: &'static str)
    requires
        digit < 10,
    ensures
        text@ == seq![digit_char(digit as int)],
{
    proof {
        reveal_strlit("0");
        reveal_strlit("1");
        reveal_strlit("2");
        reveal_strlit("3");
        reveal_strlit("4");
        reveal_strlit("5");
        reveal_strlit("6");
        reveal_strlit("7");
        reveal_strlit("8");
        reveal_strlit("9");
    }
    let text = match digit {
        0 => "0",
        1 => "1",
        2 => "2",
        3 => "3",
        4 => "4",
        5 => "5",
        6 => "6",
        7 => "7",
        8 => "8",
        _ => "9",
    };
    assert(text@ =~= seq![digit_char(digit as int)]);
    text
}

/// Appends a natural number in decimal.
fn append_decimal(text: &mut String, number: u32)
    ensures
        final(text)@ == old(text)@ + decimal_spec(number as nat),
    decreases number,
{
    if number >= 10 {
        append_decimal(text, number / 10);
    }
    let digit = digit_text(number % 10);
    text.append(digit);
    proof {
        if number >= 10 {
            assert((old(text)@ + decimal_spec((number / 10) as nat)) + digit@ =~= old(text)@ + (
            decimal_spec((number / 10) as nat) + digit@));
        }
    }
}

/// The decimal text of an integer argument.
pub fn integer_text(number: i32) -> (text: String)
    ensures
        text@ == integer_text_spec(number as int),
{
    let mut text = String::new();
    let magnitude: u32 = if number < 0 {
        proof {
            reveal_strlit("-");
        }
        text.append("-");
        assert(text@ =~= seq!['-']);
        if number == i32::MIN {
            2147483648u32
        } else {
            (-number) as u32
        }
    } else {
        number as u32
    };
    append_decimal(&mut text, magnitude);
    assert(text@ =~= integer_text_spec(number as int));
    text
}

/// Tells whether `text` reads exactly as `name`.
fn is_text(text: &String, name: &str) -> (same: bool)
    ensures
        same == (text@ == name@),
{
    let owned = name.to_owned();
    *text == owned
}

/// Finds the channel an address is routed to.
pub fn route(addr: &String) -> (channel: Option<Channel>)
    ensures
        channel == route_spec(addr@),
{
    if is_text(addr, "/red") {
        Some(Channel::Red)
    } else if is_text(addr, "/green") {
        Some(Channel::Green)
    } else if is_text(addr, "/blue") {
        Some(Channel::Blue)
    } else if is_text(addr, "/warm") {
        Some(Channel::Warm)
    } else if is_text(addr, "/cool") {
        Some(Channel::Cool)
    } else {
        None
    }
}

/// Reads the number a message carries, as a bit pattern.
pub fn leading_number(args: &Vec<OscValue>) -> (bits: u32)
    ensures
        bits == leading_number_spec(args@),
{
    if args.len() > 0 {
        match args[0] {
            OscValue::Float(bits) => bits,
            _ => 0,
        }
    } else {
        0
    }
}

/// Applies one message to `state` and reports which group of channels it
/// set.
pub fn handle_message(message: &OscMessage, state: &mut LightState) -> (tag: StateModification)
    ensures
        (*final(state), tag) == message_effect(*message, *old(state)),
        old(state).wf() ==> final(state).wf(),
{
    match route(&message.addr) {
        Some(channel) => {
            let value: u8 = channel_value(leading_number(&message.args), channel.max());
            match channel {
                Channel::Red => {
                    state.rgb.red = value;
                },
                Channel::Green => {
                    state.rgb.green = value;
                },
                Channel::Blue => {
                    state.rgb.blue = value;
                },
                Channel::Warm => {
                    state.white.warm = value;
                },
                Channel::Cool => {
                    state.white.cool = value;
                },
            }
            channel.tag()
        },
        None => StateModification::Unchanged,
    }
}

/// Applies the members of a bundle to `state`, in order, and reports what
/// the last of them reported.
pub fn handle_bundle(bundle: &OscBundle, state: &mut LightState) -> (tag: StateModification)
    ensures
        (*final(state), tag) == members_effect(bundle.content@, *old(state)),
        old(state).wf() ==> final(state).wf(),
    decreases bundle,
{
    let ghost start = *state;
    let mut tag = StateModification::Unchanged;
    let mut i: usize = 0;
    while i < bundle.content.len()
        invariant
            i <= bundle.content.len(),
            (*state, tag) == members_effect(bundle.content@.take(i as int), start),
            start.wf() ==> state.wf(),
        decreases bundle.content.len() - i,
    {
        proof {
            let done = bundle.content@.take(i + 1);
            assert(done.drop_last() =~= bundle.content@.take(i as int));
            assert(done.last() == bundle.content@[i as int]);
        }
        tag = handle_packet(&bundle.content[i], state);
        i = i + 1;
    }
    proof {
        assert(bundle.content@.take(i as int) =~= bundle.content@);
    }
    tag
}

/// Applies a packet to `state`: a message by its address, a bundle member
/// by member.
pub fn handle_packet(packet: &OscPacket, state: &mut LightState) -> (tag: StateModification)
    ensures
        (*final(state), tag) == packet_effect(*packet, *old(state)),
        old(state).wf() ==> final(state).wf(),
    decreases packet,
{
    match packet {
        OscPacket::Message(message) => handle_message(message, state),
        OscPacket::Bundle(bundle) => handle_bundle(bundle, state),
    }
}

/// A message to an address that is not routed leaves the state as it was
/// and reports no change.
pub proof fn lemma_unrouted_message_changes_nothing(message: OscMessage, state: LightState)
    requires
        route_spec(message.addr@).is_none(),
    ensures
        message_effect(message, state) == (state, StateModification::Unchanged),
        packet_effect(OscPacket::Message(message), state) == (state, StateModification::Unchanged),
{
}

/// A message to a routed address sets that channel to the scaled leading
/// number, leaves the four other channels alone, and reports the channel's
/// tag.
pub proof fn lemma_routed_message_sets_channel(
    message: OscMessage,
    state: LightState,
    channel: Channel,
    other: Channel,
)
    requires
        route_spec(message.addr@) == Some(channel),
        other != channel,
    ensures
        channel_of(message_effect(message, state).0, channel) == channel_value_spec(
            leading_number_spec(message.args@),
            channel.max_spec(),
        ),
        channel_of(message_effect(message, state).0, other) == channel_of(state, other),
        message_effect(message, state).1 == channel.tag_spec(),
{
}

/// A bundle reports the tag of its last member alone: the members before
/// it change the state, and their tags are dropped.
pub proof fn lemma_bundle_reports_last_member(members: Seq<OscPacket>, state: LightState)
    requires
        members.len() > 0,
    ensures
        members_effect(members, state) == packet_effect(
            members.last(),
            members_effect(members.drop_last(), state).0,
        ),
{
}

/// A bundle that ends in a message reports what that message reports on its
/// own, whatever the members before it were: the tag of the channel the
/// address is routed to, or no change where it is routed to none.
pub proof fn lemma_last_message_decides_tag(
    members: Seq<OscPacket>,
    message: OscMessage,
    state: LightState,
)
    ensures
        members_effect(members.push(OscPacket::Message(message)), state).1 == match route_spec(
            message.addr@,
        ) {
            Some(channel) => channel.tag_spec(),
            None => StateModification::Unchanged,
        },
{
    let all = members.push(OscPacket::Message(message));
    let before = members_effect(members, state).0;
    assert(all.last() == OscPacket::Message(message));
    assert(all.drop_last() =~= members);
    assert(members_effect(all, state) == packet_effect(all.last(), before));
    assert(packet_effect(OscPacket::Message(message), before) == message_effect(message, before));
}

/// A bundle is applied as its members are, one after the other: splitting
/// the members in two and applying the second part to the state that the
/// first part left gives the same state and the same tag, as long as the
/// second part is not empty.
pub proof fn lemma_members_apply_in_order(
    front: Seq<OscPacket>,
    back: Seq<OscPacket>,
    state: LightState,
)
    requires
        back.len() > 0,
    ensures
        members_effect(front + back, state) == members_effect(
            back,
            members_effect(front, state).0,
        ),
    decreases back.len(),
{
    let all = front + back;
    let middle = members_effect(front, state).0;
    assert(all.last() == back.last());
    assert(all.drop_last() =~= front + back.drop_last());
    assert(members_effect(all, state) == packet_effect(
        back.last(),
        members_effect(all.drop_last(), state).0,
    ));
    assert(members_effect(back, middle) == packet_effect(
        back.last(),
        members_effect(back.drop_last(), middle).0,
    ));
    if back.len() > 1 {
        lemma_members_apply_in_order(front, back.drop_last(), state);
    } else {
        assert(back.drop_last() =~= Seq::<OscPacket>::empty());
        assert(front + back.drop_last() =~= front);
        assert(members_effect(back.drop_last(), middle).0 == middle);
    }
}

/// No packet takes a channel out of its range.
pub proof fn lemma_packet_keeps_range(packet: OscPacket, state: LightState)
    requires
        state.wf(),
    ensures
        packet_effect(packet, state).0.wf(),
    decreases packet,
{
    match packet {
        OscPacket::Message(message) => {},
        OscPacket::Bundle(bundle) => {
            lemma_members_keep_range(bundle.content@, state);
        },
    }
}

/// No sequence of packets takes a channel out of its range.
pub proof fn lemma_members_keep_range(members: Seq<OscPacket>, state: LightState)
    requires
        state.wf(),
    ensures
        members_effect(members, state).0.wf(),
    decreases members,
{
    if members.len() > 0 {
        lemma_members_keep_range(members.drop_last(), state);
        lemma_packet_keeps_range(members.last(), members_effect(members.drop_last(), state).0);
    }
}

} // verus!
