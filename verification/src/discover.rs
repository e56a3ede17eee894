//! Devices seen by a scan, and how the one to talk to is picked out.
//!
//! A device address is kept as the six bytes that the Bluetooth stack
//! stores: the byte written first in the usual colon notation is the last of
//! the six.

use vstd::prelude::*;
use vstd::string::StringExecFns;
use std::str::FromStr;

verus! {

/// What a scan reports of one device.
#[derive(Debug)]
pub struct DeviceInfo {
    /// The advertised name, if the device sent one.
    pub name: Option<String>,
    /// The device address, stored byte for byte as the stack stores it.
    pub address: [u8; 6],
}

/// Why a text is no device address.
#[derive(Clone, Copy, Debug, PartialEq, Eq, Structural)]
pub enum AddressError {
    /// The text does not have six parts.
    IncorrectByteCount,
    /// A part is not a hexadecimal byte.
    InvalidInt,
}

/// What btleplug's address parser, `BDAddr::from_str`, makes of a text.
pub uninterp spec fn parsed_address(text: Seq<char>) -> Result<[u8; 6], AddressError>;

/// The upper-case hexadecimal digit for a value below sixteen.
pub open spec fn hex_digit(value: int) -> char {
    seq!['0', '1', '2', '3', '4', '5', '6', '7', '8', '9', 'A', 'B', 'C', 'D', 'E', 'F'][value]
}

/// A byte as two upper-case hexadecimal digits.
pub open spec fn hex_pair(byte: u8) -> Seq<char> {
    seq![hex_digit(byte as int / 16), hex_digit(byte as int % 16)]
}

/// An address in colon notation: six hexadecimal pairs, the last stored
/// byte first.
pub open spec fn address_text_spec(address: Seq<u8>) -> Seq<char> {
    hex_pair(address[5]) + seq![':'] + hex_pair(address[4]) + seq![':'] + hex_pair(address[3])
        + seq![':'] + hex_pair(address[2]) + seq![':'] + hex_pair(address[1]) + seq![':']
        + hex_pair(address[0])
}

/// The name a device is listed under: its own, or `Unknown`.
pub open spec fn display_name_spec(name: Option<String>) -> Seq<char> {
    match name {
        Some(text) => text@,
        None => "Unknown"@,
    }
}

/// The line a device is listed with: the address, then the name in
/// parentheses.
pub open spec fn describe_spec(info: DeviceInfo) -> Seq<char> {
    address_text_spec(info.address@) + " ("@ + display_name_spec(info.name) + ")"@
}

/// The position of the first device with the address `target`, if there is
/// one.
pub open spec fn first_match(devices: Seq<DeviceInfo>, target: Seq<u8>) -> Option<int>
    decreases devices.len(),
{
    if devices.len() == 0 {
        None
    } else {
        match first_match(devices.drop_last(), target) {
            Some(i) => Some(i),
            None => if devices.last().address@ == target {
                Some(devices.len() - 1)
            } else {
                None
            },
        }
    }
}

/// Calls btleplug's `BDAddr::from_str` and hands back the six stored bytes
/// or the parser's error. The result is a function of the text alone; the
/// contract gives it a name and claims nothing more of it.
#[verifier::external_body]
fn parse_bdaddr(text: &str) -> (parsed: Result<[u8; 6], AddressError>)
    ensures
        parsed == parsed_address(text@),
{
    match btleplug::api::BDAddr::from_str(text) {
        Ok(found) => Ok(found.address),
        Err(btleplug::api::ParseBDAddrError::IncorrectByteCount) => Err(
            AddressError::IncorrectByteCount,
        ),
        Err(btleplug::api::ParseBDAddrError::InvalidInt) => Err(AddressError::InvalidInt),
    }
}

/// Formats an address with the `Display` impl of btleplug's `BDAddr`, which
/// writes the six bytes as two upper-case hexadecimal digits each, from the
/// last stored byte to the first, with colons between them.
#[verifier::external_body]
fn format_bdaddr(address: &[u8; 6]) -> (text: String)
    ensures
        text@ == address_text_spec(address@),
{
    format!("{}", btleplug::api::BDAddr { address: *address })
}

/// Reads a device address from colon notation.
pub fn parse_address(text: &str) -> (parsed: Result<[u8; 6], AddressError>)
    ensures
        parsed == parsed_address(text@),
{
    parse_bdaddr(text)
}

/// Tells whether two addresses are the same.
pub fn same_address(left: &[u8; 6], right: &[u8; 6]) -> (same: bool)
    ensures
        same == (left@ == right@),
{
    let same = left[0] == right[0] && left[1] == right[1] && left[2] == right[2] && left[3]
        == right[3] && left[4] == right[4] && left[5] == right[5];
    proof {
        if same {
            assert(left@ =~= right@);
        }
    }
    same
}

/// Looks for the device with the address `target`. The answer is the
/// position of the first such device; without one there is no answer, and no
/// other device is picked in its place.
pub fn find_by_address(devices: &Vec<DeviceInfo>, target: &[u8; 6]) -> (found: Option<usize>)
    ensures
        match found {
            Some(i) => {
                &&& first_match(devices@, target@) == Some(i as int)
                &&& i < devices.len()
                &&& devices[i as int].address@ == target@
                &&& forall|j: int| 0 <= j < i ==> (#[trigger] devices@[j]).address@ != target@
            },
            None => {
                &&& first_match(devices@, target@).is_none()
                &&& forall|j: int|
                    0 <= j < devices.len() ==> (#[trigger] devices@[j]).address@ != target@
            },
        },
{
    let mut i: usize = 0;
    while i < devices.len()
        invariant
            i <= devices.len(),
            first_match(devices@.take(i as int), target@).is_none(),
        decreases devices.len() - i,
    {
        proof {
            let seen = devices@.take(i + 1);
            assert(seen.drop_last() =~= devices@.take(i as int));
            assert(seen.last() == devices@[i as int]);
        }
        if same_address(&devices[i].address, target) {
            proof {
                lemma_match_stays_first(devices@, target@, i as int);
                lemma_first_match_found(devices@, target@);
            }
            return Some(i);
        }
        i = i + 1;
    }
    proof {
        assert(devices@.take(i as int) =~= devices@);
        lemma_first_match_found(devices@, target@);
    }
    None
}

/// The line a device is listed with.
pub fn describe(info: &DeviceInfo) -> (line: String)
    ensures
        line@ == describe_spec(*info),
{
    let mut line = format_bdaddr(&info.address);
    line.append(" (");
    match &info.name {
        Some(name) => {
            line.append(name.as_str());
        },
        None => {
            line.append("Unknown");
        },
    }
    line.append(")");
    line
}

/// A match found among the first devices of a scan is the match of the
/// whole scan.
pub proof fn lemma_match_stays_first(devices: Seq<DeviceInfo>, target: Seq<u8>, i: int)
    requires
        0 <= i < devices.len(),
        first_match(devices.take(i + 1), target) == Some(i),
    ensures
        first_match(devices, target) == Some(i),
    decreases devices.len(),
{
    if devices.len() > i + 1 {
        assert(devices.drop_last().take(i + 1) =~= devices.take(i + 1));
        lemma_match_stays_first(devices.drop_last(), target, i);
    } else {
        assert(devices.take(i + 1) =~= devices);
    }
}

/// What a found position means: the device there has the address, and no
/// device before it has.
pub proof fn lemma_first_match_found(devices: Seq<DeviceInfo>, target: Seq<u8>)
    ensures
        match first_match(devices, target) {
            Some(i) => {
                &&& 0 <= i < devices.len()
                &&& devices[i].address@ == target
                &&& forall|j: int| 0 <= j < i ==> (#[trigger] devices[j]).address@ != target
            },
            None => forall|j: int| 0 <= j < devices.len() ==> (#[trigger] devices[j]).address@ != target,
        },
    decreases devices.len(),
{
    if devices.len() > 0 {
        lemma_first_match_found(devices.drop_last(), target);
        assert(forall|j: int| 0 <= j < devices.len() - 1 ==> devices.drop_last()[j] == devices[j]);
    }
}

/// A scan that saw nothing holds no device to pick.
pub proof fn lemma_empty_scan_finds_nothing(target: Seq<u8>)
    ensures
        first_match(Seq::<DeviceInfo>::empty(), target).is_none(),
{
}

} // verus!
