//! The numbers under which the robot's Bluetooth service and its two characteristics are known,
//! to the robot as numbers and to the desktop as text.

use vstd::prelude::*;
use uuid::Uuid;

verus! {

pub const BLE_SERVICE_UUID_U128: u128 = 0x0ad91b20173440479e173bed82d75f9d;

pub const BLE_TX_CHAR_UUID_U128: u128 = 0x503de214868246c4828fd59144da41be;

pub const BLE_RX_CHAR_UUID_U128: u128 = 0xb6fccb5087be44f3ae22f85485ea42c4;

pub const BLE_SERVICE_UUID: &'static str = "0ad91b20-1734-4047-9e17-3bed82d75f9d";

pub const BLE_TX_CHAR_UUID: &'static str = "503de214-8682-46c4-828f-d59144da41be";

pub const BLE_RX_CHAR_UUID: &'static str = "b6fccb50-87be-44f3-ae22-f85485ea42c4";

/// The value of a hexadecimal digit.
pub open spec fn hex_digit(c: char) -> nat {
    if '0' <= c <= '9' {
        (c as int - '0' as int) as nat
    } else if 'a' <= c <= 'f' {
        (c as int - 'a' as int + 10) as nat
    } else {
        (c as int - 'A' as int + 10) as nat
    }
}

pub open spec fn is_hex_digit(c: char) -> bool {
    '0' <= c <= '9' || 'a' <= c <= 'f' || 'A' <= c <= 'F'
}

/// Whether hyphens stand where they do in a UUID.
pub open spec fn hyphen_position(i: int) -> bool {
    i == 8 || i == 13 || i == 18 || i == 23
}

/// Whether a text is a UUID in groups with hyphens.
pub open spec fn is_hyphenated(s: Seq<char>) -> bool {
    &&& s.len() == 36
    &&& forall|i: int|
        0 <= i < 36 ==> if hyphen_position(i) {
            #[trigger] s[i] == '-'
        } else {
            is_hex_digit(s[i])
        }
}

/// The number that the hexadecimal digits among the first `n` characters make.
pub open spec fn hex_number(s: Seq<char>, n: nat) -> nat
    decreases n,
{
    if n == 0 {
        0
    } else {
        let before = hex_number(s, (n - 1) as nat);
        if s[n - 1] == '-' {
            before
        } else {
            16 * before + hex_digit(s[n - 1])
        }
    }
}

/// The error of a failed parse.
#[verifier::external_type_specification]
#[verifier::external_body]
pub struct ExUuidError(uuid::Error);

/// `Uuid::parse_str` reads a UUID in groups with hyphens as the number that its digits make,
/// which `Uuid::as_u128` gives.
#[verifier::external_body]
fn parse_uuid(text: &str) -> (r: Result<u128, uuid::Error>)
    requires
        is_hyphenated(text@),
    ensures
        r is Ok,
        r->Ok_0 == hex_number(text@, 36),
{
    Uuid::parse_str(text).map(|u| u.as_u128())
}

proof fn lemma_service_text()
    ensures
        is_hyphenated(BLE_SERVICE_UUID@),
        hex_number(BLE_SERVICE_UUID@, 36) == BLE_SERVICE_UUID_U128,
{
    reveal_strlit("0ad91b20-1734-4047-9e17-3bed82d75f9d");
    let s = BLE_SERVICE_UUID@;
    assert(hex_number(s, 9) == 0x0ad91b20int) by {
        reveal_with_fuel(hex_number, 10);
    }
    assert(hex_number(s, 14) == 0x0ad91b201734int) by {
        reveal_with_fuel(hex_number, 6);
    }
    assert(hex_number(s, 19) == 0x0ad91b2017344047int) by {
        reveal_with_fuel(hex_number, 6);
    }
    assert(hex_number(s, 24) == 0x0ad91b20173440479e17int) by {
        reveal_with_fuel(hex_number, 6);
    }
    assert(hex_number(s, 30) == 0x0ad91b20173440479e173bed82int) by {
        reveal_with_fuel(hex_number, 7);
    }
    assert(hex_number(s, 36) == 0x0ad91b20173440479e173bed82d75f9dint) by {
        reveal_with_fuel(hex_number, 7);
    }
}

proof fn lemma_tx_text()
    ensures
        is_hyphenated(BLE_TX_CHAR_UUID@),
        hex_number(BLE_TX_CHAR_UUID@, 36) == BLE_TX_CHAR_UUID_U128,
{
    reveal_strlit("503de214-8682-46c4-828f-d59144da41be");
    let s = BLE_TX_CHAR_UUID@;
    assert(hex_number(s, 9) == 0x503de214int) by {
        reveal_with_fuel(hex_number, 10);
    }
    assert(hex_number(s, 14) == 0x503de2148682int) by {
        reveal_with_fuel(hex_number, 6);
    }
    assert(hex_number(s, 19) == 0x503de214868246c4int) by {
        reveal_with_fuel(hex_number, 6);
    }
    assert(hex_number(s, 24) == 0x503de214868246c4828fint) by {
        reveal_with_fuel(hex_number, 6);
    }
    assert(hex_number(s, 30) == 0x503de214868246c4828fd59144int) by {
        reveal_with_fuel(hex_number, 7);
    }
    assert(hex_number(s, 36) == 0x503de214868246c4828fd59144da41beint) by {
        reveal_with_fuel(hex_number, 7);
    }
}

proof fn lemma_rx_text()
    ensures
        is_hyphenated(BLE_RX_CHAR_UUID@),
        hex_number(BLE_RX_CHAR_UUID@, 36) == BLE_RX_CHAR_UUID_U128,
{
    reveal_strlit("b6fccb50-87be-44f3-ae22-f85485ea42c4");
    let s = BLE_RX_CHAR_UUID@;
    assert(hex_number(s, 9) == 0xb6fccb50int) by {
        reveal_with_fuel(hex_number, 10);
    }
    assert(hex_number(s, 14) == 0xb6fccb5087beint) by {
        reveal_with_fuel(hex_number, 6);
    }
    assert(hex_number(s, 19) == 0xb6fccb5087be44f3int) by {
        reveal_with_fuel(hex_number, 6);
    }
    assert(hex_number(s, 24) == 0xb6fccb5087be44f3ae22int) by {
        reveal_with_fuel(hex_number, 6);
    }
    assert(hex_number(s, 30) == 0xb6fccb5087be44f3ae22f85485int) by {
        reveal_with_fuel(hex_number, 7);
    }
    assert(hex_number(s, 36) == 0xb6fccb5087be44f3ae22f85485ea42c4int) by {
        reveal_with_fuel(hex_number, 7);
    }
}

/// The service, as the desktop looks for it: the number that the robot makes known.
pub fn ble_service_uuid() -> (r: Result<u128, String>)
    ensures
        r == Ok::<u128, String>(BLE_SERVICE_UUID_U128),
{
    proof {
        lemma_service_text();
    }
    match parse_uuid(BLE_SERVICE_UUID) {
        Ok(v) => Ok(v),
        Err(_) => {
            let mut text = "invalid BLE service UUID ".to_string();
            text.append(BLE_SERVICE_UUID);
            Err(text)
        },
    }
}

/// The characteristic on which the robot speaks.
pub fn ble_tx_uuid() -> (r: Result<u128, String>)
    ensures
        r == Ok::<u128, String>(BLE_TX_CHAR_UUID_U128),
{
    proof {
        lemma_tx_text();
    }
    match parse_uuid(BLE_TX_CHAR_UUID) {
        Ok(v) => Ok(v),
        Err(_) => {
            let mut text = "invalid BLE TX UUID ".to_string();
            text.append(BLE_TX_CHAR_UUID);
            Err(text)
        },
    }
}

/// The characteristic on which the robot listens.
pub fn ble_rx_uuid() -> (r: Result<u128, String>)
    ensures
        r == Ok::<u128, String>(BLE_RX_CHAR_UUID_U128),
{
    proof {
        lemma_rx_text();
    }
    match parse_uuid(BLE_RX_CHAR_UUID) {
        Ok(v) => Ok(v),
        Err(_) => {
            let mut text = "invalid BLE RX UUID ".to_string();
            text.append(BLE_RX_CHAR_UUID);
            Err(text)
        },
    }
}

} // verus!
