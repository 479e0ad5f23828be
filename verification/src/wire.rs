//! Fields of the Protocol Buffers wire format: variable-length integers, keys and values.

use vstd::prelude::*;
use vstd::utf8::{decode_utf8, valid_utf8};
use crate::text::{chars_of, decimal, decimal_text, part, text_of};
use prost::encoding::{decode_key, decode_varint, encode_key, encode_varint, skip_field};
use prost::encoding::{DecodeContext, WireType};

verus! {

/// How a field's value is written down.
#[derive(Clone, Copy, Debug, PartialEq, Eq, Structural)]
pub enum FieldKind {
    Varint,
    Fixed64,
    Bytes,
    StartGroup,
    EndGroup,
    Fixed32,
}

/// Why bytes are no message: the fields that were being read, the innermost first, and what is
/// wrong there.
#[derive(Clone, Debug, PartialEq, Eq)]
pub struct DecodeFault {
    pub place: String,
    pub reason: String,
}

/// Why bytes are no message, as seen by the contracts.
#[verifier::ext_equal]
pub struct FaultView {
    pub place: Seq<char>,
    pub reason: Seq<char>,
}

impl View for DecodeFault {
    type V = FaultView;

    open spec fn view(&self) -> FaultView {
        FaultView { place: self.place@, reason: self.reason@ }
    }
}

/// The words in front of every fault.
pub const FAULT_FRONT: &'static str = "failed to decode Protobuf message: ";

impl FaultView {
    /// A fault in no field.
    pub open spec fn of(reason: Seq<char>) -> FaultView {
        FaultView { place: Seq::empty(), reason }
    }

    /// The fault, met while a field of a message was read.
    pub open spec fn within(self, message: Seq<char>, field: Seq<char>) -> FaultView {
        FaultView { place: self.place + message + "."@ + field + ": "@, reason: self.reason }
    }

    /// The words for the fault.
    pub open spec fn text(self) -> Seq<char> {
        FAULT_FRONT@ + self.place + self.reason
    }
}

impl DecodeFault {
    /// A fault in no field.
    pub fn new(reason: String) -> (r: Self)
        ensures
            r@ == FaultView::of(reason@),
    {
        let r = DecodeFault { place: String::new(), reason };
        assert(r@ =~= FaultView::of(reason@));
        r
    }

    /// The fault, met while a field of a message was read.
    pub fn within(self, message: &str, field: &str) -> (r: Self)
        ensures
            r@ == self@.within(message@, field@),
    {
        let mut place = self.place;
        place.append(message);
        place.append(".");
        place.append(field);
        place.append(": ");
        DecodeFault { place, reason: self.reason }
    }

    /// The words for the fault.
    pub fn text(&self) -> (r: String)
        ensures
            r@ == self@.text(),
    {
        let mut s = FAULT_FRONT.to_string();
        s.append(self.place.as_str());
        s.append(self.reason.as_str());
        s
    }
}

/// The largest field number.
pub const MAX_TAG: u32 = 536870911;

/// The number of a field kind in a key.
pub open spec fn kind_number(k: FieldKind) -> nat {
    match k {
        FieldKind::Varint => 0,
        FieldKind::Fixed64 => 1,
        FieldKind::Bytes => 2,
        FieldKind::StartGroup => 3,
        FieldKind::EndGroup => 4,
        FieldKind::Fixed32 => 5,
    }
}

/// The field kind with a number, if there is one.
pub open spec fn kind_of(n: nat) -> Option<FieldKind> {
    if n == 0 {
        Some(FieldKind::Varint)
    } else if n == 1 {
        Some(FieldKind::Fixed64)
    } else if n == 2 {
        Some(FieldKind::Bytes)
    } else if n == 3 {
        Some(FieldKind::StartGroup)
    } else if n == 4 {
        Some(FieldKind::EndGroup)
    } else if n == 5 {
        Some(FieldKind::Fixed32)
    } else {
        None
    }
}

/// `v` in groups of seven bits, the lowest first, each but the last marked by the eighth bit.
pub open spec fn varint_bytes(v: nat) -> Seq<u8>
    decreases v,
{
    if v < 128 {
        seq![v as u8]
    } else {
        seq![(v % 128 + 128) as u8] + varint_bytes(v / 128)
    }
}

/// The number that at most `left` groups of seven bits at the front of `bytes` make, and how
/// many bytes they are.
pub open spec fn read_groups(bytes: Seq<u8>, left: nat) -> Option<(nat, nat)>
    decreases left,
{
    if left == 0 || bytes.len() == 0 {
        None
    } else if bytes[0] < 128 {
        Some((bytes[0] as nat, 1))
    } else {
        match read_groups(bytes.drop_first(), (left - 1) as nat) {
            Some((v, n)) => Some(((bytes[0] - 128) as nat + 128 * v, n + 1)),
            None => None,
        }
    }
}

/// The variable-length integer at the front of `bytes`, and how many bytes it takes: at most
/// ten, and no more than 64 bits.
pub open spec fn read_varint(bytes: Seq<u8>) -> Option<(nat, nat)> {
    match read_groups(bytes, 10) {
        Some((v, n)) => if v <= u64::MAX {
            Some((v, n))
        } else {
            None
        },
        None => None,
    }
}

/// The key in front of a field.
pub open spec fn key_bytes(tag: u32, kind: FieldKind) -> Seq<u8> {
    varint_bytes(tag as nat * 8 + kind_number(kind))
}

/// The key at the front of `bytes`: field number, kind, and how many bytes it takes.
pub open spec fn read_key(bytes: Seq<u8>) -> Option<(u32, FieldKind, nat)> {
    match read_varint(bytes) {
        Some((key, n)) => match kind_of(key % 8) {
            Some(kind) => if key <= u32::MAX && key / 8 >= 1 {
                Some(((key / 8) as u32, kind, n))
            } else {
                None
            },
            None => None,
        },
        None => None,
    }
}

/// What is wrong at the front of `bytes` where no key is there.
pub open spec fn key_fault(bytes: Seq<u8>) -> Seq<char> {
    match read_varint(bytes) {
        None => "invalid varint"@,
        Some((key, _)) => if key > u32::MAX {
            "invalid key value: "@ + decimal(key)
        } else if kind_of(key % 8) is None {
            "invalid wire type value: "@ + decimal(key % 8)
        } else {
            "invalid tag value: 0"@
        },
    }
}

/// How many bytes the rest of a group takes whose opening key, with this field number, stands
/// just before `bytes`, and what is wrong where no well-formed group is there.
pub uninterp spec fn skipped_group(tag: u32, bytes: Seq<u8>) -> Result<nat, Seq<char>>;

/// The error of a failed read of the outside decoder.
#[verifier::external_type_specification]
#[verifier::external_body]
pub struct ExDecodeError(prost::DecodeError);

/// `prost::encoding::encode_varint` appends the groups of seven bits of the number.
#[verifier::external_body]
fn put_varint(value: u64, buf: &mut Vec<u8>)
    ensures
        final(buf)@ == old(buf)@ + varint_bytes(value as nat),
{
    encode_varint(value, buf)
}

/// `prost::encoding::encode_key` appends field number and kind as one variable-length integer.
#[verifier::external_body]
fn put_key(tag: u32, kind: FieldKind, buf: &mut Vec<u8>)
    requires
        1 <= tag <= MAX_TAG,
    ensures
        final(buf)@ == old(buf)@ + key_bytes(tag, kind),
{
    let wire_type = match kind {
        FieldKind::Varint => WireType::Varint,
        FieldKind::Fixed64 => WireType::SixtyFourBit,
        FieldKind::Bytes => WireType::LengthDelimited,
        FieldKind::StartGroup => WireType::StartGroup,
        FieldKind::EndGroup => WireType::EndGroup,
        FieldKind::Fixed32 => WireType::ThirtyTwoBit,
    };
    encode_key(tag, wire_type, buf)
}

/// `prost::encoding::decode_varint` takes a variable-length integer of at most ten bytes and
/// 64 bits from the front of the buffer, and fails where none is there.
#[verifier::external_body]
fn take_varint<'a>(buf: &'a [u8]) -> (r: Result<(u64, &'a [u8]), prost::DecodeError>)
    ensures
        match r {
            Ok((v, rest)) => {
                &&& read_varint(buf@) matches Some((value, n))
                &&& value == v
                &&& n <= buf@.len()
                &&& rest@ == buf@.skip(n as int)
            },
            Err(_) => read_varint(buf@) is None,
        },
{
    let mut rest = buf;
    let value = decode_varint(&mut rest)?;
    Ok((value, rest))
}

/// `prost::encoding::decode_key` takes a key from the front of the buffer, and fails where none
/// is there, its kind is unknown or its field number is 0.
#[verifier::external_body]
fn take_key<'a>(buf: &'a [u8]) -> (r: Result<(u32, FieldKind, &'a [u8]), prost::DecodeError>)
    ensures
        match r {
            Ok((tag, kind, rest)) => {
                &&& read_key(buf@) matches Some((t, k, n))
                &&& t == tag
                &&& k == kind
                &&& n <= buf@.len()
                &&& rest@ == buf@.skip(n as int)
            },
            Err(_) => read_key(buf@) is None,
        },
{
    let mut rest = buf;
    let (tag, wire_type) = decode_key(&mut rest)?;
    let kind = match wire_type {
        WireType::Varint => FieldKind::Varint,
        WireType::SixtyFourBit => FieldKind::Fixed64,
        WireType::LengthDelimited => FieldKind::Bytes,
        WireType::StartGroup => FieldKind::StartGroup,
        WireType::EndGroup => FieldKind::EndGroup,
        WireType::ThirtyTwoBit => FieldKind::Fixed32,
    };
    Ok((tag, kind, rest))
}

/// `prost::encoding::skip_field`, on the start of a group and outside any message, passes over
/// the group that follows and over nothing else, or fails where no well-formed group does. Its
/// error is shown as what is wrong behind [`FAULT_FRONT`]. Which bytes make a group, how deep
/// groups may be nested, and what is said to be wrong is not said here.
#[verifier::external_body]
fn take_group<'a>(tag: u32, buf: &'a [u8]) -> (r: Result<&'a [u8], String>)
    ensures
        match r {
            Ok(rest) => {
                &&& skipped_group(tag, buf@) matches Ok(n)
                &&& n <= buf@.len()
                &&& rest@ == buf@.skip(n as int)
            },
            Err(text) => {
                &&& skipped_group(tag, buf@) matches Err(reason)
                &&& text@ == FAULT_FRONT@ + reason
            },
        },
{
    let mut rest = buf;
    skip_field(WireType::StartGroup, tag, &mut rest, DecodeContext::default())
        .map_err(|e| e.to_string())?;
    Ok(rest)
}

/// `String::from_utf8` gives the text that the bytes encode, and fails where they are not UTF-8.
#[verifier::external_body]
fn utf8_text(bytes: Vec<u8>) -> (r: Option<String>)
    ensures
        match r {
            Some(s) => valid_utf8(bytes@) && s@ == decode_utf8(bytes@),
            None => !valid_utf8(bytes@),
        },
{
    String::from_utf8(bytes).ok()
}

/// The number that four bytes make, the lowest first.
pub open spec fn le_u32(s: Seq<u8>) -> int {
    s[0] + 0x100 * s[1] + 0x1_0000 * s[2] + 0x100_0000 * s[3]
}

/// The four bytes of a number, the lowest first.
pub open spec fn u32_bytes(v: u32) -> Seq<u8> {
    seq![
        (v % 0x100) as u8,
        (v / 0x100 % 0x100) as u8,
        (v / 0x1_0000 % 0x100) as u8,
        (v / 0x100_0000) as u8,
    ]
}

/// The name of a field kind.
pub open spec fn kind_name(k: FieldKind) -> Seq<char> {
    match k {
        FieldKind::Varint => "Varint"@,
        FieldKind::Fixed64 => "SixtyFourBit"@,
        FieldKind::Bytes => "LengthDelimited"@,
        FieldKind::StartGroup => "StartGroup"@,
        FieldKind::EndGroup => "EndGroup"@,
        FieldKind::Fixed32 => "ThirtyTwoBit"@,
    }
}

/// What is wrong with a field that is written down in another way than its type wants.
pub open spec fn kind_fault(actual: FieldKind, expected: FieldKind) -> Seq<char> {
    "invalid wire type: "@ + kind_name(actual) + " (expected "@ + kind_name(expected) + ")"@
}

/// The number behind the key of a number field, and what stands behind it.
pub open spec fn number_at(kind: FieldKind, body: Seq<u8>) -> Result<(u64, Seq<u8>), Seq<char>> {
    if kind != FieldKind::Varint {
        Err(kind_fault(kind, FieldKind::Varint))
    } else {
        match read_varint(body) {
            Some((v, n)) => Ok((v as u64, body.skip(n as int))),
            None => Err("invalid varint"@),
        }
    }
}

/// The four bytes behind the key of a field, as a number, and what stands behind them.
pub open spec fn fixed32_at(kind: FieldKind, body: Seq<u8>) -> Result<(u32, Seq<u8>), Seq<char>> {
    if kind != FieldKind::Fixed32 {
        Err(kind_fault(kind, FieldKind::Fixed32))
    } else if body.len() < 4 {
        Err("buffer underflow"@)
    } else {
        Ok((le_u32(body) as u32, body.skip(4)))
    }
}

/// How many bytes a run of bytes has, and the run with what stands behind it.
pub open spec fn run_at(kind: FieldKind, body: Seq<u8>) -> Result<(nat, Seq<u8>), Seq<char>> {
    if kind != FieldKind::Bytes {
        Err(kind_fault(kind, FieldKind::Bytes))
    } else {
        match read_varint(body) {
            Some((len, n)) => if len > body.skip(n as int).len() {
                Err("buffer underflow"@)
            } else {
                Ok((len, body.skip(n as int)))
            },
            None => Err("invalid varint"@),
        }
    }
}

/// The text behind the key of a text field, and what stands behind it.
pub open spec fn text_at(kind: FieldKind, body: Seq<u8>) -> Result<
    (Seq<char>, Seq<u8>),
    Seq<char>,
> {
    match run_at(kind, body) {
        Ok((len, data)) => if valid_utf8(data.take(len as int)) {
            Ok((decode_utf8(data.take(len as int)), data.skip(len as int)))
        } else {
            Err("invalid string value: data is not UTF-8 encoded"@)
        },
        Err(e) => Err(e),
    }
}

/// What stands behind the group whose opening key stands just before `body`. Inside a message
/// that is itself a field, groups may be nested one level less: such a group is read as the one
/// thing in another group.
pub open spec fn group_at(tag: u32, body: Seq<u8>, inside: bool) -> Result<Seq<u8>, Seq<char>> {
    let open = key_bytes(tag, FieldKind::StartGroup);
    let close = key_bytes(tag, FieldKind::EndGroup);
    match skipped_group(tag, body) {
        Ok(n) => if inside {
            match skipped_group(tag, open + body.take(n as int) + close) {
                Ok(_) => Ok(body.skip(n as int)),
                Err(e) => Err(e),
            }
        } else {
            Ok(body.skip(n as int))
        },
        Err(e) => if inside {
            match skipped_group(tag, open + body) {
                Ok(_) => Err(e),
                Err(deeper) => Err(deeper),
            }
        } else {
            Err(e)
        },
    }
}

/// What stands behind the value of a field that is passed over.
pub open spec fn behind_value(tag: u32, kind: FieldKind, body: Seq<u8>, inside: bool) -> Result<
    Seq<u8>,
    Seq<char>,
> {
    match kind {
        FieldKind::Varint => match number_at(kind, body) {
            Ok((_, rest)) => Ok(rest),
            Err(e) => Err(e),
        },
        FieldKind::Fixed32 => if body.len() < 4 {
            Err("buffer underflow"@)
        } else {
            Ok(body.skip(4))
        },
        FieldKind::Fixed64 => if body.len() < 8 {
            Err("buffer underflow"@)
        } else {
            Ok(body.skip(8))
        },
        FieldKind::Bytes => match run_at(kind, body) {
            Ok((len, data)) => Ok(data.skip(len as int)),
            Err(e) => Err(e),
        },
        FieldKind::StartGroup => group_at(tag, body, inside),
        FieldKind::EndGroup => Err("unexpected end group tag"@),
    }
}

/// What a read of a named field came to, with the place of the fault.
pub open spec fn in_field<T>(
    r: Result<(T, Seq<u8>), Seq<char>>,
    message: Seq<char>,
    field: Seq<char>,
) -> Result<(T, Seq<u8>), FaultView> {
    match r {
        Ok(x) => Ok(x),
        Err(e) => Err(FaultView::of(e).within(message, field)),
    }
}

/// `m` as it was, and what stands behind a field that it does not have.
pub open spec fn passed_over<T>(m: T, tag: u32, kind: FieldKind, body: Seq<u8>, inside: bool) -> Result<
    (T, Seq<u8>),
    FaultView,
> {
    match behind_value(tag, kind, body, inside) {
        Ok(rest) => Ok((m, rest)),
        Err(e) => Err(FaultView::of(e)),
    }
}

/// What the fields at the front of `bytes` make of `acc`, one after the other, until no more than
/// `limit` bytes are left, and these bytes; the first fault ends it. `merge` says what a field
/// with a number, a kind and the bytes behind its key makes of it.
pub open spec fn merged<T>(
    bytes: Seq<u8>,
    limit: nat,
    acc: T,
    merge: spec_fn(T, u32, FieldKind, Seq<u8>) -> Result<(T, Seq<u8>), FaultView>,
) -> Result<(T, Seq<u8>), FaultView>
    decreases bytes.len(),
{
    if bytes.len() <= limit {
        if bytes.len() == limit {
            Ok((acc, bytes))
        } else {
            Err(FaultView::of("delimited length exceeded"@))
        }
    } else {
        match read_key(bytes) {
            None => Err(FaultView::of(key_fault(bytes))),
            Some((tag, kind, n)) => match merge(acc, tag, kind, bytes.skip(n as int)) {
                Err(fault) => Err(fault),
                Ok((next, rest)) => if rest.len() >= bytes.len() {
                    Err(FaultView::of(key_fault(bytes)))
                } else {
                    merged(rest, limit, next, merge)
                },
            },
        }
    }
}

/// A run of groups takes at least one byte and no more than there are.
pub proof fn lemma_read_groups_len(bytes: Seq<u8>, left: nat)
    ensures
        read_groups(bytes, left) matches Some((v, n)) ==> 1 <= n <= bytes.len(),
    decreases left,
{
    if left > 0 && bytes.len() > 0 && bytes[0] >= 128 {
        lemma_read_groups_len(bytes.drop_first(), (left - 1) as nat);
    }
}

/// Takes the key of a field from the front of `bytes`.
pub fn next_key<'a>(bytes: &'a [u8]) -> (r: Result<(u32, FieldKind, &'a [u8]), DecodeFault>)
    ensures
        match r {
            Ok((tag, kind, body)) => {
                &&& read_key(bytes@) matches Some((t, k, n))
                &&& t == tag
                &&& k == kind
                &&& body@ == bytes@.skip(n as int)
                &&& body@.len() < bytes@.len()
                &&& 1 <= tag <= MAX_TAG
            },
            Err(fault) => read_key(bytes@) is None && fault@ == FaultView::of(key_fault(bytes@)),
        },
{
    proof {
        lemma_read_groups_len(bytes@, 10);
    }
    if let Ok(key) = take_key(bytes) {
        return Ok(key);
    }
    match take_varint(bytes) {
        Err(_) => Err(DecodeFault::new("invalid varint".to_string())),
        Ok((key, _)) => {
            let mut reason: String;
            if key > u32::MAX as u64 {
                reason = "invalid key value: ".to_string();
                reason.append(decimal_text(key).as_str());
            } else if key % 8 > 5 {
                reason = "invalid wire type value: ".to_string();
                reason.append(decimal_text(key % 8).as_str());
            } else {
                reason = "invalid tag value: 0".to_string();
            }
            Err(DecodeFault::new(reason))
        },
    }
}

/// Whether the fields of a message ended where the message ends.
pub fn at_limit(rest: &[u8], limit: usize) -> (r: Result<(), DecodeFault>)
    requires
        rest@.len() <= limit,
    ensures
        match r {
            Ok(_) => rest@.len() == limit,
            Err(fault) => {
                &&& rest@.len() < limit
                &&& fault@ == FaultView::of("delimited length exceeded"@)
            },
        },
{
    if rest.len() < limit {
        return Err(DecodeFault::new("delimited length exceeded".to_string()));
    }
    Ok(())
}

fn kind_text(k: FieldKind) -> (r: &'static str)
    ensures
        r@ == kind_name(k),
{
    match k {
        FieldKind::Varint => "Varint",
        FieldKind::Fixed64 => "SixtyFourBit",
        FieldKind::Bytes => "LengthDelimited",
        FieldKind::StartGroup => "StartGroup",
        FieldKind::EndGroup => "EndGroup",
        FieldKind::Fixed32 => "ThirtyTwoBit",
    }
}

fn wrong_kind(actual: FieldKind, expected: FieldKind) -> (r: String)
    ensures
        r@ == kind_fault(actual, expected),
{
    let mut s = "invalid wire type: ".to_string();
    s.append(kind_text(actual));
    s.append(" (expected ");
    s.append(kind_text(expected));
    s.append(")");
    s
}

fn take_number<'a>(kind: FieldKind, body: &'a [u8]) -> (r: Result<(u64, &'a [u8]), String>)
    ensures
        match r {
            Ok((v, rest)) => {
                &&& number_at(kind, body@) == Ok::<(u64, Seq<u8>), Seq<char>>((v, rest@))
                &&& rest@.len() <= body@.len()
            },
            Err(e) => number_at(kind, body@) == Err::<(u64, Seq<u8>), Seq<char>>(e@),
        },
{
    match kind {
        FieldKind::Varint => match take_varint(body) {
            Ok(x) => Ok(x),
            Err(_) => Err("invalid varint".to_string()),
        },
        _ => Err(wrong_kind(kind, FieldKind::Varint)),
    }
}

fn take_fixed32<'a>(kind: FieldKind, body: &'a [u8]) -> (r: Result<(u32, &'a [u8]), String>)
    ensures
        match r {
            Ok((v, rest)) => {
                &&& fixed32_at(kind, body@) == Ok::<(u32, Seq<u8>), Seq<char>>((v, rest@))
                &&& rest@.len() <= body@.len()
            },
            Err(e) => fixed32_at(kind, body@) == Err::<(u32, Seq<u8>), Seq<char>>(e@),
        },
{
    match kind {
        FieldKind::Fixed32 => {
            if body.len() < 4 {
                return Err("buffer underflow".to_string());
            }
            let v: u32 = body[0] as u32 + 0x100 * (body[1] as u32) + 0x1_0000 * (body[2] as u32)
                + 0x100_0000 * (body[3] as u32);
            let rest = vstd::slice::slice_subrange(body, 4, body.len());
            assert(rest@ =~= body@.skip(4));
            Ok((v, rest))
        },
        _ => Err(wrong_kind(kind, FieldKind::Fixed32)),
    }
}

/// The length of a run of bytes, and the run with what stands behind it.
pub fn take_run<'a>(kind: FieldKind, body: &'a [u8]) -> (r: Result<(usize, &'a [u8]), String>)
    ensures
        match r {
            Ok((len, data)) => {
                &&& run_at(kind, body@) == Ok::<(nat, Seq<u8>), Seq<char>>((len as nat, data@))
                &&& len <= data@.len() <= body@.len()
            },
            Err(e) => run_at(kind, body@) == Err::<(nat, Seq<u8>), Seq<char>>(e@),
        },
{
    match kind {
        FieldKind::Bytes => match take_varint(body) {
            Ok((len, data)) => {
                if len > data.len() as u64 {
                    return Err("buffer underflow".to_string());
                }
                Ok((len as usize, data))
            },
            Err(_) => Err("invalid varint".to_string()),
        },
        _ => Err(wrong_kind(kind, FieldKind::Bytes)),
    }
}

fn take_text<'a>(kind: FieldKind, body: &'a [u8]) -> (r: Result<(String, &'a [u8]), String>)
    ensures
        match r {
            Ok((s, rest)) => {
                &&& text_at(kind, body@) == Ok::<(Seq<char>, Seq<u8>), Seq<char>>((s@, rest@))
                &&& rest@.len() <= body@.len()
            },
            Err(e) => text_at(kind, body@) == Err::<(Seq<char>, Seq<u8>), Seq<char>>(e@),
        },
{
    let (len, data) = match take_run(kind, body) {
        Ok(x) => x,
        Err(e) => {
            return Err(e);
        },
    };
    let value = vstd::slice::slice_subrange(data, 0, len);
    let rest = vstd::slice::slice_subrange(data, len, data.len());
    assert(value@ =~= data@.take(len as int));
    assert(rest@ =~= data@.skip(len as int));
    match utf8_text(vstd::slice::slice_to_vec(value)) {
        Some(s) => Ok((s, rest)),
        None => Err("invalid string value: data is not UTF-8 encoded".to_string()),
    }
}

/// What stands behind the words that begin every fault.
fn reason_in(text: String, Ghost(reason): Ghost<Seq<char>>) -> (r: String)
    requires
        text@ == FAULT_FRONT@ + reason,
    ensures
        r@ == reason,
{
    let chars = chars_of(text.as_str());
    let front = chars_of(FAULT_FRONT);
    let tail = part(chars.as_slice(), front.len(), chars.len());
    assert(tail@ =~= reason);
    text_of(tail.as_slice())
}

/// Passes over a group outside any message; the reason where there is none.
fn plain_group<'a>(tag: u32, body: &'a [u8]) -> (r: Result<&'a [u8], String>)
    ensures
        match r {
            Ok(rest) => {
                &&& skipped_group(tag, body@) matches Ok(n)
                &&& n <= body@.len()
                &&& rest@ == body@.skip(n as int)
            },
            Err(e) => skipped_group(tag, body@) == Err::<nat, Seq<char>>(e@),
        },
{
    match take_group(tag, body) {
        Ok(rest) => Ok(rest),
        Err(text) => {
            let ghost reason = skipped_group(tag, body@)->Err_0;
            Err(reason_in(text, Ghost(reason)))
        },
    }
}

fn pass_group<'a>(tag: u32, body: &'a [u8], inside: bool) -> (r: Result<&'a [u8], String>)
    requires
        1 <= tag <= MAX_TAG,
    ensures
        match r {
            Ok(rest) => {
                &&& group_at(tag, body@, inside) == Ok::<Seq<u8>, Seq<char>>(rest@)
                &&& rest@.len() <= body@.len()
            },
            Err(e) => group_at(tag, body@, inside) == Err::<Seq<u8>, Seq<char>>(e@),
        },
{
    let ghost open = key_bytes(tag, FieldKind::StartGroup);
    let ghost close = key_bytes(tag, FieldKind::EndGroup);
    match plain_group(tag, body) {
        Ok(rest) => {
            if !inside {
                return Ok(rest);
            }
            let used: usize = body.len() - rest.len();
            let mut wrapped: Vec<u8> = Vec::new();
            put_key(tag, FieldKind::StartGroup, &mut wrapped);
            wrapped.extend_from_slice(vstd::slice::slice_subrange(body, 0, used));
            put_key(tag, FieldKind::EndGroup, &mut wrapped);
            assert(wrapped@ =~= open + body@.take(used as int) + close);
            match plain_group(tag, wrapped.as_slice()) {
                Ok(_) => Ok(rest),
                Err(e) => Err(e),
            }
        },
        Err(e) => {
            if !inside {
                return Err(e);
            }
            let mut wrapped: Vec<u8> = Vec::new();
            put_key(tag, FieldKind::StartGroup, &mut wrapped);
            wrapped.extend_from_slice(body);
            assert(wrapped@ =~= open + body@);
            match plain_group(tag, wrapped.as_slice()) {
                Ok(_) => Err(e),
                Err(deeper) => Err(deeper),
            }
        },
    }
}

/// The number of a field with a name.
pub fn field_number<'a>(kind: FieldKind, body: &'a [u8], message: &str, field: &str) -> (r: Result<
    (u64, &'a [u8]),
    DecodeFault,
>)
    ensures
        match r {
            Ok((v, rest)) => {
                &&& in_field(number_at(kind, body@), message@, field@) == Ok::<
                    (u64, Seq<u8>),
                    FaultView,
                >((v, rest@))
                &&& rest@.len() <= body@.len()
            },
            Err(f) => in_field(number_at(kind, body@), message@, field@) == Err::<
                (u64, Seq<u8>),
                FaultView,
            >(f@),
        },
{
    match take_number(kind, body) {
        Ok(x) => Ok(x),
        Err(e) => Err(DecodeFault::new(e).within(message, field)),
    }
}

/// The four bytes of a field with a name, as a number.
pub fn field_fixed32<'a>(kind: FieldKind, body: &'a [u8], message: &str, field: &str) -> (r: Result<
    (u32, &'a [u8]),
    DecodeFault,
>)
    ensures
        match r {
            Ok((v, rest)) => {
                &&& in_field(fixed32_at(kind, body@), message@, field@) == Ok::<
                    (u32, Seq<u8>),
                    FaultView,
                >((v, rest@))
                &&& rest@.len() <= body@.len()
            },
            Err(f) => in_field(fixed32_at(kind, body@), message@, field@) == Err::<
                (u32, Seq<u8>),
                FaultView,
            >(f@),
        },
{
    match take_fixed32(kind, body) {
        Ok(x) => Ok(x),
        Err(e) => Err(DecodeFault::new(e).within(message, field)),
    }
}

/// The text of a field with a name.
pub fn field_text<'a>(kind: FieldKind, body: &'a [u8], message: &str, field: &str) -> (r: Result<
    (String, &'a [u8]),
    DecodeFault,
>)
    ensures
        match r {
            Ok((s, rest)) => {
                &&& in_field(text_at(kind, body@), message@, field@) == Ok::<
                    (Seq<char>, Seq<u8>),
                    FaultView,
                >((s@, rest@))
                &&& rest@.len() <= body@.len()
            },
            Err(f) => in_field(text_at(kind, body@), message@, field@) == Err::<
                (Seq<char>, Seq<u8>),
                FaultView,
            >(f@),
        },
{
    match take_text(kind, body) {
        Ok(x) => Ok(x),
        Err(e) => Err(DecodeFault::new(e).within(message, field)),
    }
}

/// Passes over the value of a field.
pub fn pass_over<'a>(tag: u32, kind: FieldKind, body: &'a [u8], inside: bool) -> (r: Result<
    &'a [u8],
    DecodeFault,
>)
    requires
        1 <= tag <= MAX_TAG,
    ensures
        match r {
            Ok(rest) => {
                &&& behind_value(tag, kind, body@, inside) == Ok::<Seq<u8>, Seq<char>>(rest@)
                &&& rest@.len() <= body@.len()
            },
            Err(f) => {
                &&& behind_value(tag, kind, body@, inside) matches Err(e)
                &&& f@ == FaultView::of(e)
            },
        },
{
    let reason = match kind {
        FieldKind::Varint => match take_number(kind, body) {
            Ok((_, rest)) => {
                return Ok(rest);
            },
            Err(e) => e,
        },
        FieldKind::Fixed32 => {
            if body.len() >= 4 {
                let rest = vstd::slice::slice_subrange(body, 4, body.len());
                assert(rest@ =~= body@.skip(4));
                return Ok(rest);
            }
            "buffer underflow".to_string()
        },
        FieldKind::Fixed64 => {
            if body.len() >= 8 {
                let rest = vstd::slice::slice_subrange(body, 8, body.len());
                assert(rest@ =~= body@.skip(8));
                return Ok(rest);
            }
            "buffer underflow".to_string()
        },
        FieldKind::Bytes => match take_run(kind, body) {
            Ok((len, data)) => {
                let rest = vstd::slice::slice_subrange(data, len, data.len());
                assert(rest@ =~= data@.skip(len as int));
                return Ok(rest);
            },
            Err(e) => e,
        },
        FieldKind::StartGroup => match pass_group(tag, body, inside) {
            Ok(rest) => {
                return Ok(rest);
            },
            Err(e) => e,
        },
        FieldKind::EndGroup => "unexpected end group tag".to_string(),
    };
    Err(DecodeFault::new(reason))
}

/// 128 to the power of `n`.
pub open spec fn pow128(n: nat) -> nat
    decreases n,
{
    if n == 0 {
        1
    } else {
        128 * pow128((n - 1) as nat)
    }
}

proof fn lemma_groups_round_trip(v: nat, rest: Seq<u8>, left: nat)
    requires
        left >= 1,
        v < pow128(left),
    ensures
        read_groups(varint_bytes(v) + rest, left) == Some((v, varint_bytes(v).len())),
    decreases v,
{
    let bytes = varint_bytes(v) + rest;
    if v >= 128 {
        assert(pow128(0) == 1);
        assert(v / 128 < pow128((left - 1) as nat));
        lemma_groups_round_trip(v / 128, rest, (left - 1) as nat);
        assert(bytes.drop_first() =~= varint_bytes(v / 128) + rest);
        assert(bytes[0] == (v % 128 + 128) as u8);
    } else {
        assert(bytes[0] == v as u8);
    }
}

/// A number that is written as a variable-length integer is read back.
pub proof fn lemma_varint_round_trip(v: u64, rest: Seq<u8>)
    ensures
        read_varint(varint_bytes(v as nat) + rest) == Some((v as nat, varint_bytes(v as nat).len())),
        1 <= varint_bytes(v as nat).len() <= 10,
{
    reveal_with_fuel(pow128, 11);
    lemma_groups_round_trip(v as nat, rest, 10);
    lemma_groups_at_most(v as nat, 10);
}

proof fn lemma_groups_at_most(v: nat, left: nat)
    requires
        left >= 1,
        v < pow128(left),
    ensures
        1 <= varint_bytes(v).len() <= left,
    decreases v,
{
    if v >= 128 {
        assert(pow128(0) == 1);
        assert(v / 128 < pow128((left - 1) as nat));
        lemma_groups_at_most(v / 128, (left - 1) as nat);
    }
}

/// A key that is written is read back.
pub proof fn lemma_key_round_trip(tag: u32, kind: FieldKind, rest: Seq<u8>)
    requires
        1 <= tag <= MAX_TAG,
    ensures
        read_key(key_bytes(tag, kind) + rest) == Some((tag, kind, key_bytes(tag, kind).len())),
{
    let key = (tag * 8 + kind_number(kind)) as u64;
    lemma_varint_round_trip(key, rest);
}

/// The four bytes of a number make the number again.
pub proof fn lemma_u32_bytes(v: u32)
    ensures
        le_u32(u32_bytes(v)) == v,
        u32_bytes(v).len() == 4,
{
    let b = u32_bytes(v);
    assert(b[0] == v % 0x100);
    assert(b[1] == v / 0x100 % 0x100);
    assert(b[2] == v / 0x1_0000 % 0x100);
    assert(b[3] == v / 0x100_0000);
}

/// A field with a number.
pub open spec fn varint_field(tag: u32, v: u64) -> Seq<u8> {
    key_bytes(tag, FieldKind::Varint) + varint_bytes(v as nat)
}

/// A field with four bytes.
pub open spec fn fixed32_field(tag: u32, v: u32) -> Seq<u8> {
    key_bytes(tag, FieldKind::Fixed32) + u32_bytes(v)
}

/// A field with a run of bytes behind its length.
pub open spec fn bytes_field(tag: u32, data: Seq<u8>) -> Seq<u8> {
    key_bytes(tag, FieldKind::Bytes) + varint_bytes(data.len()) + data
}

/// Reads back the number of a field.
pub proof fn lemma_number_at(v: u64, rest: Seq<u8>)
    ensures
        number_at(FieldKind::Varint, varint_bytes(v as nat) + rest) == Ok::<
            (u64, Seq<u8>),
            Seq<char>,
        >((v, rest)),
{
    let num = varint_bytes(v as nat);
    lemma_varint_round_trip(v, rest);
    assert((num + rest).skip(num.len() as int) =~= rest);
}

/// Reads back the four bytes of a field.
pub proof fn lemma_fixed32_at(v: u32, rest: Seq<u8>)
    ensures
        fixed32_at(FieldKind::Fixed32, u32_bytes(v) + rest) == Ok::<(u32, Seq<u8>), Seq<char>>(
            (v, rest),
        ),
{
    let body = u32_bytes(v) + rest;
    assert(le_u32(body) == v);
    assert(body.skip(4) =~= rest);
}

/// Reads back the length of a run of bytes.
pub proof fn lemma_run_at(data: Seq<u8>, rest: Seq<u8>)
    requires
        data.len() <= u64::MAX,
    ensures
        run_at(FieldKind::Bytes, varint_bytes(data.len()) + (data + rest)) == Ok::<
            (nat, Seq<u8>),
            Seq<char>,
        >((data.len(), data + rest)),
{
    let num = varint_bytes(data.len());
    lemma_varint_round_trip(data.len() as u64, data + rest);
    assert((num + (data + rest)).skip(num.len() as int) =~= data + rest);
}

/// The field with a key and a body makes of `acc` what `merge` says, and the rest follows.
pub proof fn lemma_merged_step<T>(
    key: Seq<u8>,
    body: Seq<u8>,
    rest: Seq<u8>,
    tag: u32,
    kind: FieldKind,
    limit: nat,
    acc: T,
    next: T,
    merge: spec_fn(T, u32, FieldKind, Seq<u8>) -> Result<(T, Seq<u8>), FaultView>,
)
    requires
        1 <= tag <= MAX_TAG,
        key == key_bytes(tag, kind),
        limit <= rest.len() <= body.len(),
        merge(acc, tag, kind, body) == Ok::<(T, Seq<u8>), FaultView>((next, rest)),
    ensures
        merged(key + body, limit, acc, merge) == merged(rest, limit, next, merge),
{
    lemma_key_round_trip(tag, kind, body);
    lemma_read_groups_len(key + body, 10);
    assert((key + body).skip(key.len() as int) =~= body);
}

/// Appends a field with a number.
pub fn put_varint_field(tag: u32, v: u64, buf: &mut Vec<u8>)
    requires
        1 <= tag <= MAX_TAG,
    ensures
        final(buf)@ == old(buf)@ + varint_field(tag, v),
{
    put_key(tag, FieldKind::Varint, buf);
    put_varint(v, buf);
    assert(buf@ =~= old(buf)@ + varint_field(tag, v));
}

/// Appends the four bytes of `v`, the lowest first.
pub fn put_u32_bytes(v: u32, buf: &mut Vec<u8>)
    ensures
        final(buf)@ == old(buf)@ + u32_bytes(v),
{
    buf.push((v % 0x100) as u8);
    buf.push((v / 0x100 % 0x100) as u8);
    buf.push((v / 0x1_0000 % 0x100) as u8);
    buf.push((v / 0x100_0000) as u8);
    assert(buf@ =~= old(buf)@ + u32_bytes(v));
}

/// Appends a field with four bytes.
pub fn put_fixed32_field(tag: u32, v: u32, buf: &mut Vec<u8>)
    requires
        1 <= tag <= MAX_TAG,
    ensures
        final(buf)@ == old(buf)@ + fixed32_field(tag, v),
{
    put_key(tag, FieldKind::Fixed32, buf);
    put_u32_bytes(v, buf);
    assert(buf@ =~= old(buf)@ + fixed32_field(tag, v));
}

/// Appends a field with a run of bytes.
pub fn put_bytes_field(tag: u32, data: &[u8], buf: &mut Vec<u8>)
    requires
        1 <= tag <= MAX_TAG,
    ensures
        final(buf)@ == old(buf)@ + bytes_field(tag, data@),
{
    put_key(tag, FieldKind::Bytes, buf);
    put_varint(data.len() as u64, buf);
    buf.extend_from_slice(data);
    assert(buf@ =~= old(buf)@ + bytes_field(tag, data@));
}

/// A number is written in groups of seven bits, the lowest first; all but the last are marked, so
/// that numbers below a hundred and twenty-eight are one byte.
pub proof fn numbers_are_written_low_first(v: nat)
    ensures
        v < 128 ==> varint_bytes(v) == seq![v as u8],
        v >= 128 ==> {
            &&& varint_bytes(v)[0] >= 128
            &&& varint_bytes(v)[0] % 128 == v % 128
            &&& varint_bytes(v).skip(1) == varint_bytes(v / 128)
        },
{
    if v >= 128 {
        assert(varint_bytes(v).skip(1) =~= varint_bytes(v / 128));
    }
}

/// The key of a field holds its number and, in the three lowest bits, its kind; for numbers below
/// sixteen it is one byte.
pub proof fn keys_hold_number_and_kind(tag: u32)
    requires
        tag < 16,
    ensures
        key_bytes(tag, FieldKind::Varint) == seq![(8 * tag) as u8],
        key_bytes(tag, FieldKind::Fixed64) == seq![(8 * tag + 1) as u8],
        key_bytes(tag, FieldKind::Bytes) == seq![(8 * tag + 2) as u8],
        key_bytes(tag, FieldKind::Fixed32) == seq![(8 * tag + 5) as u8],
{
}

/// Four bytes hold a number with the lowest first.
pub proof fn four_bytes_hold_a_number(v: u32)
    ensures
        u32_bytes(v).len() == 4,
        u32_bytes(v)[0] + 0x100 * u32_bytes(v)[1] + 0x1_0000 * u32_bytes(v)[2] + 0x100_0000
            * u32_bytes(v)[3] == v,
{
}

} // verus!
