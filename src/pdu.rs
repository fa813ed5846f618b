//! GSM 03.40 Protocol Data Units: addresses, first octets, data coding
//! schemes, and the SMS-SUBMIT / SMS-DELIVER layouts.
use vstd::prelude::*;
use vstd::slice::slice_subrange;
use vstd::string::StringSliceAdditionalSpecFns;
use crate::errors::{HuaweiError, HuaweiResult};
use crate::gsm_encoding::{decode_sms_7bit, gsm_decode_string};
use crate::text::{chars_of, push_char, push_str};
use crate::gsm_encoding::GsmMessageData;

verus! {

/// Type of number: bits 6..4 of an address type octet.
#[derive(Debug, Clone, Copy, PartialEq, Eq, Structural, PartialOrd, Ord, Hash)]
pub enum TypeOfNumber {
    Unknown,
    International,
    National,
    Special,
    Gsm,
    Short,
    Reserved,
}

impl TypeOfNumber {
    /// The bits (already in place, mask 0x70) that stand for this value.
    pub open spec fn spec_bits(self) -> u8 {
        match self {
            TypeOfNumber::Unknown => 0x00,
            TypeOfNumber::International => 0x10,
            TypeOfNumber::National => 0x20,
            TypeOfNumber::Special => 0x30,
            TypeOfNumber::Gsm => 0x50,
            TypeOfNumber::Short => 0x60,
            TypeOfNumber::Reserved => 0x70,
        }
    }

    pub fn bits(self) -> (r: u8)
        ensures
            r == self.spec_bits(),
    {
        match self {
            TypeOfNumber::Unknown => 0x00,
            TypeOfNumber::International => 0x10,
            TypeOfNumber::National => 0x20,
            TypeOfNumber::Special => 0x30,
            TypeOfNumber::Gsm => 0x50,
            TypeOfNumber::Short => 0x60,
            TypeOfNumber::Reserved => 0x70,
        }
    }

    /// The value whose bits are `b`, if any.
    pub fn from_u8(b: u8) -> (r: Option<TypeOfNumber>)
        ensures
            r matches Some(t) ==> t.spec_bits() == b,
            r is None ==> forall|t: TypeOfNumber| t.spec_bits() != b,
    {
        match b {
            0x00 => Some(TypeOfNumber::Unknown),
            0x10 => Some(TypeOfNumber::International),
            0x20 => Some(TypeOfNumber::National),
            0x30 => Some(TypeOfNumber::Special),
            0x50 => Some(TypeOfNumber::Gsm),
            0x60 => Some(TypeOfNumber::Short),
            0x70 => Some(TypeOfNumber::Reserved),
            _ => None,
        }
    }
}

/// Numbering plan identification: bits 3..0 of an address type octet.
#[derive(Debug, Clone, Copy, PartialEq, Eq, Structural, PartialOrd, Ord, Hash)]
pub enum NumberingPlanIdentification {
    NetworkDetermined,
    IsdnTelephone,
    Data,
    Telex,
    National,
    Private,
    Ermes,
}

impl NumberingPlanIdentification {
    /// The bits (already in place, mask 0x0F) that stand for this value.
    pub open spec fn spec_bits(self) -> u8 {
        match self {
            NumberingPlanIdentification::NetworkDetermined => 0x0,
            NumberingPlanIdentification::IsdnTelephone => 0x1,
            NumberingPlanIdentification::Data => 0x3,
            NumberingPlanIdentification::Telex => 0x4,
            NumberingPlanIdentification::National => 0x8,
            NumberingPlanIdentification::Private => 0x9,
            NumberingPlanIdentification::Ermes => 0xa,
        }
    }

    pub fn bits(self) -> (r: u8)
        ensures
            r == self.spec_bits(),
    {
        match self {
            NumberingPlanIdentification::NetworkDetermined => 0x0,
            NumberingPlanIdentification::IsdnTelephone => 0x1,
            NumberingPlanIdentification::Data => 0x3,
            NumberingPlanIdentification::Telex => 0x4,
            NumberingPlanIdentification::National => 0x8,
            NumberingPlanIdentification::Private => 0x9,
            NumberingPlanIdentification::Ermes => 0xa,
        }
    }

    /// The value whose bits are `b`, if any.
    pub fn from_u8(b: u8) -> (r: Option<NumberingPlanIdentification>)
        ensures
            r matches Some(t) ==> t.spec_bits() == b,
            r is None ==> forall|t: NumberingPlanIdentification| t.spec_bits() != b,
    {
        match b {
            0x0 => Some(NumberingPlanIdentification::NetworkDetermined),
            0x1 => Some(NumberingPlanIdentification::IsdnTelephone),
            0x3 => Some(NumberingPlanIdentification::Data),
            0x4 => Some(NumberingPlanIdentification::Telex),
            0x8 => Some(NumberingPlanIdentification::National),
            0x9 => Some(NumberingPlanIdentification::Private),
            0xa => Some(NumberingPlanIdentification::Ermes),
            _ => None,
        }
    }
}

/// Message type indicator: bits 1..0 of a first octet.
#[derive(Debug, Clone, Copy, PartialEq, Eq, Structural, PartialOrd, Ord, Hash)]
pub enum MessageType {
    SmsDeliver,
    SmsSubmit,
    SmsCommand,
    Reserved,
}

impl MessageType {

    /// The value that the masked bits `b` stand for (every pattern stands for one).
    pub open spec fn spec_from_bits(b: u8) -> MessageType {
        if b == 0x0 {
            MessageType::SmsDeliver
        } else if b == 0x1 {
            MessageType::SmsSubmit
        } else if b == 0x2 {
            MessageType::SmsCommand
        } else {
            MessageType::Reserved
        }
    }

    pub fn from_bits(b: u8) -> (r: MessageType)
        ensures
            r == MessageType::spec_from_bits(b),
    {
        match b {
            0x0 => MessageType::SmsDeliver,
            0x1 => MessageType::SmsSubmit,
            0x2 => MessageType::SmsCommand,
            _ => MessageType::Reserved,
        }
    }
    /// The bits (already in place, mask 0x03) that stand for this value.
    pub open spec fn spec_bits(self) -> u8 {
        match self {
            MessageType::SmsDeliver => 0x0,
            MessageType::SmsSubmit => 0x1,
            MessageType::SmsCommand => 0x2,
            MessageType::Reserved => 0x3,
        }
    }

    pub fn bits(self) -> (r: u8)
        ensures
            r == self.spec_bits(),
    {
        match self {
            MessageType::SmsDeliver => 0x0,
            MessageType::SmsSubmit => 0x1,
            MessageType::SmsCommand => 0x2,
            MessageType::Reserved => 0x3,
        }
    }

    /// The value whose bits are `b`, if any.
    pub fn from_u8(b: u8) -> (r: Option<MessageType>)
        ensures
            r matches Some(t) ==> t.spec_bits() == b,
            r is None ==> forall|t: MessageType| t.spec_bits() != b,
    {
        match b {
            0x0 => Some(MessageType::SmsDeliver),
            0x1 => Some(MessageType::SmsSubmit),
            0x2 => Some(MessageType::SmsCommand),
            0x3 => Some(MessageType::Reserved),
            _ => None,
        }
    }
}

/// Validity period format: bits 4..3 of an SMS-SUBMIT first octet.
#[derive(Debug, Clone, Copy, PartialEq, Eq, Structural, PartialOrd, Ord, Hash)]
pub enum VpFieldValidity {
    Invalid,
    Enhanced,
    Relative,
    Absolute,
}

impl VpFieldValidity {

    /// The value that the masked bits `b` stand for (every pattern stands for one).
    pub open spec fn spec_from_bits(b: u8) -> VpFieldValidity {
        if b == 0x0 {
            VpFieldValidity::Invalid
        } else if b == 0x8 {
            VpFieldValidity::Enhanced
        } else if b == 0x10 {
            VpFieldValidity::Relative
        } else {
            VpFieldValidity::Absolute
        }
    }

    pub fn from_bits(b: u8) -> (r: VpFieldValidity)
        ensures
            r == VpFieldValidity::spec_from_bits(b),
    {
        match b {
            0x0 => VpFieldValidity::Invalid,
            0x8 => VpFieldValidity::Enhanced,
            0x10 => VpFieldValidity::Relative,
            _ => VpFieldValidity::Absolute,
        }
    }
    /// The bits (already in place, mask 0x18) that stand for this value.
    pub open spec fn spec_bits(self) -> u8 {
        match self {
            VpFieldValidity::Invalid => 0x0,
            VpFieldValidity::Enhanced => 0x8,
            VpFieldValidity::Relative => 0x10,
            VpFieldValidity::Absolute => 0x18,
        }
    }

    pub fn bits(self) -> (r: u8)
        ensures
            r == self.spec_bits(),
    {
        match self {
            VpFieldValidity::Invalid => 0x0,
            VpFieldValidity::Enhanced => 0x8,
            VpFieldValidity::Relative => 0x10,
            VpFieldValidity::Absolute => 0x18,
        }
    }

    /// The value whose bits are `b`, if any.
    pub fn from_u8(b: u8) -> (r: Option<VpFieldValidity>)
        ensures
            r matches Some(t) ==> t.spec_bits() == b,
            r is None ==> forall|t: VpFieldValidity| t.spec_bits() != b,
    {
        match b {
            0x0 => Some(VpFieldValidity::Invalid),
            0x8 => Some(VpFieldValidity::Enhanced),
            0x10 => Some(VpFieldValidity::Relative),
            0x18 => Some(VpFieldValidity::Absolute),
            _ => None,
        }
    }
}

/// Kind of message waiting indication: bits 1..0 of a data coding scheme.
#[derive(Debug, Clone, Copy, PartialEq, Eq, Structural, PartialOrd, Ord, Hash)]
pub enum MessageWaitingType {
    Voice,
    Fax,
    Email,
    Unknown,
}

impl MessageWaitingType {

    /// The value that the masked bits `b` stand for (every pattern stands for one).
    pub open spec fn spec_from_bits(b: u8) -> MessageWaitingType {
        if b == 0x0 {
            MessageWaitingType::Voice
        } else if b == 0x1 {
            MessageWaitingType::Fax
        } else if b == 0x2 {
            MessageWaitingType::Email
        } else {
            MessageWaitingType::Unknown
        }
    }

    pub fn from_bits(b: u8) -> (r: MessageWaitingType)
        ensures
            r == MessageWaitingType::spec_from_bits(b),
    {
        match b {
            0x0 => MessageWaitingType::Voice,
            0x1 => MessageWaitingType::Fax,
            0x2 => MessageWaitingType::Email,
            _ => MessageWaitingType::Unknown,
        }
    }
    /// The bits (already in place, mask 0x03) that stand for this value.
    pub open spec fn spec_bits(self) -> u8 {
        match self {
            MessageWaitingType::Voice => 0x0,
            MessageWaitingType::Fax => 0x1,
            MessageWaitingType::Email => 0x2,
            MessageWaitingType::Unknown => 0x3,
        }
    }

    pub fn bits(self) -> (r: u8)
        ensures
            r == self.spec_bits(),
    {
        match self {
            MessageWaitingType::Voice => 0x0,
            MessageWaitingType::Fax => 0x1,
            MessageWaitingType::Email => 0x2,
            MessageWaitingType::Unknown => 0x3,
        }
    }

    /// The value whose bits are `b`, if any.
    pub fn from_u8(b: u8) -> (r: Option<MessageWaitingType>)
        ensures
            r matches Some(t) ==> t.spec_bits() == b,
            r is None ==> forall|t: MessageWaitingType| t.spec_bits() != b,
    {
        match b {
            0x0 => Some(MessageWaitingType::Voice),
            0x1 => Some(MessageWaitingType::Fax),
            0x2 => Some(MessageWaitingType::Email),
            0x3 => Some(MessageWaitingType::Unknown),
            _ => None,
        }
    }
}

/// Message class: bits 1..0 of a data coding scheme.
#[derive(Debug, Clone, Copy, PartialEq, Eq, Structural, PartialOrd, Ord, Hash)]
pub enum MessageClass {
    Silent,
    StoreToNv,
    StoreToSim,
    StoreToTe,
}

impl MessageClass {

    /// The value that the masked bits `b` stand for (every pattern stands for one).
    pub open spec fn spec_from_bits(b: u8) -> MessageClass {
        if b == 0x0 {
            MessageClass::Silent
        } else if b == 0x1 {
            MessageClass::StoreToNv
        } else if b == 0x2 {
            MessageClass::StoreToSim
        } else {
            MessageClass::StoreToTe
        }
    }

    pub fn from_bits(b: u8) -> (r: MessageClass)
        ensures
            r == MessageClass::spec_from_bits(b),
    {
        match b {
            0x0 => MessageClass::Silent,
            0x1 => MessageClass::StoreToNv,
            0x2 => MessageClass::StoreToSim,
            _ => MessageClass::StoreToTe,
        }
    }
    /// The bits (already in place, mask 0x03) that stand for this value.
    pub open spec fn spec_bits(self) -> u8 {
        match self {
            MessageClass::Silent => 0x0,
            MessageClass::StoreToNv => 0x1,
            MessageClass::StoreToSim => 0x2,
            MessageClass::StoreToTe => 0x3,
        }
    }

    pub fn bits(self) -> (r: u8)
        ensures
            r == self.spec_bits(),
    {
        match self {
            MessageClass::Silent => 0x0,
            MessageClass::StoreToNv => 0x1,
            MessageClass::StoreToSim => 0x2,
            MessageClass::StoreToTe => 0x3,
        }
    }

    /// The value whose bits are `b`, if any.
    pub fn from_u8(b: u8) -> (r: Option<MessageClass>)
        ensures
            r matches Some(t) ==> t.spec_bits() == b,
            r is None ==> forall|t: MessageClass| t.spec_bits() != b,
    {
        match b {
            0x0 => Some(MessageClass::Silent),
            0x1 => Some(MessageClass::StoreToNv),
            0x2 => Some(MessageClass::StoreToSim),
            0x3 => Some(MessageClass::StoreToTe),
            _ => None,
        }
    }
}

/// Alphabet of the user data: bits 3..2 of a data coding scheme.
#[derive(Debug, Clone, Copy, PartialEq, Eq, Structural, PartialOrd, Ord, Hash)]
pub enum MessageEncoding {
    Gsm7Bit,
    EightBit,
    Ucs2,
    Reserved,
}

impl MessageEncoding {

    /// The value that the masked bits `b` stand for (every pattern stands for one).
    pub open spec fn spec_from_bits(b: u8) -> MessageEncoding {
        if b == 0x0 {
            MessageEncoding::Gsm7Bit
        } else if b == 0x4 {
            MessageEncoding::EightBit
        } else if b == 0x8 {
            MessageEncoding::Ucs2
        } else {
            MessageEncoding::Reserved
        }
    }

    pub fn from_bits(b: u8) -> (r: MessageEncoding)
        ensures
            r == MessageEncoding::spec_from_bits(b),
    {
        match b {
            0x0 => MessageEncoding::Gsm7Bit,
            0x4 => MessageEncoding::EightBit,
            0x8 => MessageEncoding::Ucs2,
            _ => MessageEncoding::Reserved,
        }
    }
    /// The bits (already in place, mask 0x0C) that stand for this value.
    pub open spec fn spec_bits(self) -> u8 {
        match self {
            MessageEncoding::Gsm7Bit => 0x0,
            MessageEncoding::EightBit => 0x4,
            MessageEncoding::Ucs2 => 0x8,
            MessageEncoding::Reserved => 0xc,
        }
    }

    pub fn bits(self) -> (r: u8)
        ensures
            r == self.spec_bits(),
    {
        match self {
            MessageEncoding::Gsm7Bit => 0x0,
            MessageEncoding::EightBit => 0x4,
            MessageEncoding::Ucs2 => 0x8,
            MessageEncoding::Reserved => 0xc,
        }
    }

    /// The value whose bits are `b`, if any.
    pub fn from_u8(b: u8) -> (r: Option<MessageEncoding>)
        ensures
            r matches Some(t) ==> t.spec_bits() == b,
            r is None ==> forall|t: MessageEncoding| t.spec_bits() != b,
    {
        match b {
            0x0 => Some(MessageEncoding::Gsm7Bit),
            0x4 => Some(MessageEncoding::EightBit),
            0x8 => Some(MessageEncoding::Ucs2),
            0xc => Some(MessageEncoding::Reserved),
            _ => None,
        }
    }
}

/// Address type: a type of number and a numbering plan.
#[derive(Debug, Clone, Copy, PartialEq, Eq, Structural, Hash)]
pub struct AddressType {
    pub type_of_number: TypeOfNumber,
    pub numbering_plan_identification: NumberingPlanIdentification,
}

impl AddressType {
    /// International number, ISDN/telephone numbering plan.
    pub fn default() -> (r: AddressType)
        ensures
            r.type_of_number == TypeOfNumber::International,
            r.numbering_plan_identification == NumberingPlanIdentification::IsdnTelephone,
    {
        AddressType {
            type_of_number: TypeOfNumber::International,
            numbering_plan_identification: NumberingPlanIdentification::IsdnTelephone,
        }
    }

    /// The type octet: high bit set, type of number in bits 6..4, plan in bits 3..0.
    pub open spec fn spec_octet(self) -> u8 {
        0x80u8 | self.type_of_number.spec_bits() | self.numbering_plan_identification.spec_bits()
    }

    pub fn into_u8(self) -> (r: u8)
        ensures
            r == self.spec_octet(),
    {
        0x80u8 | self.type_of_number.bits() | self.numbering_plan_identification.bits()
    }

    /// Reads a type octet; the high bit is ignored.
    pub fn try_from(b: u8) -> (r: HuaweiResult<AddressType>)
        ensures
            r matches Ok(t) ==> t.type_of_number.spec_bits() == b & 0x70
                && t.numbering_plan_identification.spec_bits() == b & 0x0F,
            r is Ok <==> type_octet_valid(b),
            r matches Err(e) ==> e matches HuaweiError::InvalidPdu(_),
    {
        let ton = match TypeOfNumber::from_u8(b & 0x70) {
            Some(t) => t,
            None => { return Err(HuaweiError::InvalidPdu("invalid type_of_number")); },
        };
        let npi = match NumberingPlanIdentification::from_u8(b & 0x0F) {
            Some(n) => n,
            None => { return Err(HuaweiError::InvalidPdu("invalid numbering_plan_identification")); },
        };
        Ok(AddressType { type_of_number: ton, numbering_plan_identification: npi })
    }
}

/// The type octet `b` names a type of number and a numbering plan.
pub open spec fn type_octet_valid(b: u8) -> bool {
    &&& exists|t: TypeOfNumber| t.spec_bits() == b & 0x70
    &&& exists|n: NumberingPlanIdentification| n.spec_bits() == b & 0x0F
}

/// An address type survives being written as an octet and read back.
pub proof fn lemma_address_type_round_trip(t: AddressType)
    ensures
        t.spec_octet() & 0x70 == t.type_of_number.spec_bits(),
        t.spec_octet() & 0x0F == t.numbering_plan_identification.spec_bits(),
{
    let a = t.type_of_number.spec_bits();
    let n = t.numbering_plan_identification.spec_bits();
    assert(a == 0 || a == 0x10 || a == 0x20 || a == 0x30 || a == 0x50 || a == 0x60 || a == 0x70);
    assert(n == 0 || n == 1 || n == 3 || n == 4 || n == 8 || n == 9 || n == 10);
    assert((a == 0 || a == 0x10 || a == 0x20 || a == 0x30 || a == 0x50 || a == 0x60 || a == 0x70) && (n
        == 0 || n == 1 || n == 3 || n == 4 || n == 8 || n == 9 || n == 10) ==> (0x80u8 | a | n) & 0x70 == a && (0x80u8 | a | n) & 0x0F == n) by (bit_vector);
}

/// The first octet of an SMS-SUBMIT PDU.
#[derive(Debug, Clone, Copy, PartialEq, Eq, Structural)]
pub struct PduFirstOctet {
    /// Message type.
    pub mti: MessageType,
    /// Reject duplicates.
    pub rd: bool,
    /// Format of the validity period field.
    pub vpf: VpFieldValidity,
    /// Status report requested.
    pub srr: bool,
    /// The user data starts with a header.
    pub udhi: bool,
    /// Reply path set.
    pub rp: bool,
}

impl PduFirstOctet {
    pub open spec fn spec_from(b: u8) -> PduFirstOctet {
        PduFirstOctet {
            mti: MessageType::spec_from_bits(b & 0x03),
            rd: b & 0x04 != 0,
            vpf: VpFieldValidity::spec_from_bits(b & 0x18),
            srr: b & 0x20 != 0,
            udhi: b & 0x40 != 0,
            rp: b & 0x80 != 0,
        }
    }

    /// Reads the fields of a first octet: MTI in bits 1..0, RD bit 2, VPF bits 4..3,
    /// SRR bit 5, UDHI bit 6, RP bit 7.
    pub fn from(b: u8) -> (r: PduFirstOctet)
        ensures
            r == PduFirstOctet::spec_from(b),
    {
        PduFirstOctet {
            mti: MessageType::from_bits(b & 0x03),
            rd: b & 0x04 != 0,
            vpf: VpFieldValidity::from_bits(b & 0x18),
            srr: b & 0x20 != 0,
            udhi: b & 0x40 != 0,
            rp: b & 0x80 != 0,
        }
    }

    pub open spec fn spec_octet(self) -> u8 {
        self.mti.spec_bits() | self.vpf.spec_bits() | (if self.rd { 0x04u8 } else { 0u8 }) | (if self.srr {
            0x20u8
        } else {
            0u8
        }) | (if self.udhi { 0x40u8 } else { 0u8 }) | (if self.rp { 0x80u8 } else { 0u8 })
    }

    pub fn into_u8(self) -> (r: u8)
        ensures
            r == self.spec_octet(),
    {
        self.mti.bits() | self.vpf.bits() | (if self.rd { 0x04u8 } else { 0u8 }) | (if self.srr {
            0x20u8
        } else {
            0u8
        }) | (if self.udhi { 0x40u8 } else { 0u8 }) | (if self.rp { 0x80u8 } else { 0u8 })
    }
}

/// Writing a first octet and reading it back gives the same fields, and
/// reading an octet and writing it back gives the same octet.
pub proof fn lemma_first_octet_round_trip(f: PduFirstOctet, b: u8)
    ensures
        PduFirstOctet::spec_from(f.spec_octet()) == f,
        PduFirstOctet::spec_from(b).spec_octet() == b,
{
    let m = f.mti.spec_bits();
    let v = f.vpf.spec_bits();
    let rd = if f.rd { 0x04u8 } else { 0u8 };
    let srr = if f.srr { 0x20u8 } else { 0u8 };
    let udhi = if f.udhi { 0x40u8 } else { 0u8 };
    let rp = if f.rp { 0x80u8 } else { 0u8 };
    assert(m == 0 || m == 1 || m == 2 || m == 3);
    assert(v == 0 || v == 8 || v == 0x10 || v == 0x18);
    assert((m == 0 || m == 1 || m == 2 || m == 3) && (v == 0 || v == 8 || v == 0x10 || v == 0x18) && (rd == 0 || rd == 4) && (srr == 0 || srr == 0x20)
        && (udhi == 0 || udhi == 0x40) && (rp == 0 || rp == 0x80) ==> {
        let o = m | v | rd | srr | udhi | rp;
        &&& o & 0x03 == m
        &&& o & 0x18 == v
        &&& (o & 0x04 != 0) == (rd == 4)
        &&& (o & 0x20 != 0) == (srr == 0x20)
        &&& (o & 0x40 != 0) == (udhi == 0x40)
        &&& (o & 0x80 != 0) == (rp == 0x80)
    }) by (bit_vector);
    assert(MessageType::spec_from_bits(m) == f.mti);
    assert(VpFieldValidity::spec_from_bits(v) == f.vpf);
    let g = PduFirstOctet::spec_from(b);
    let bm = b & 0x03;
    let bv = b & 0x18;
    assert(bm <= 3 && (bv == 0 || bv == 8 || bv == 0x10 || bv == 0x18)) by (bit_vector)
        requires bm == b & 0x03, bv == b & 0x18;
    assert(g.mti.spec_bits() == bm);
    assert(g.vpf.spec_bits() == bv);
    assert(bm == b & 0x03 && bv == b & 0x18 ==> b == bm | bv | (if b & 0x04 != 0 { 0x04u8 } else { 0u8 }) | (if b
        & 0x20 != 0 {
        0x20u8
    } else {
        0u8
    }) | (if b & 0x40 != 0 { 0x40u8 } else { 0u8 }) | (if b & 0x80 != 0 { 0x80u8 } else { 0u8 })) by (bit_vector);
}

/// A decoded data coding scheme octet.
#[derive(Debug, Clone, Copy, PartialEq, Eq, Structural)]
pub enum DataCodingScheme {
    /// General data coding.
    Standard { compressed: bool, class: MessageClass, encoding: MessageEncoding },
    /// A reserved coding group.
    Reserved,
    /// Message waiting indication; the content may be discarded.
    MessageWaitingDiscard { waiting: bool, type_indication: MessageWaitingType },
    /// Message waiting indication; the content is stored.
    MessageWaiting { waiting: bool, type_indication: MessageWaitingType, ucs2: bool },
}

impl DataCodingScheme {
    /// The scheme that the octet `b` stands for.
    pub open spec fn spec_from(b: u8) -> DataCodingScheme {
        if b & 0xC0 == 0 {
            DataCodingScheme::Standard {
                compressed: b & 0x20 != 0,
                class: if b & 0x10 != 0 {
                    MessageClass::StoreToNv
                } else {
                    MessageClass::spec_from_bits(b & 0x03)
                },
                encoding: MessageEncoding::spec_from_bits(b & 0x0C),
            }
        } else if b & 0xF0 == 0xF0 {
            DataCodingScheme::Standard {
                compressed: false,
                class: MessageClass::spec_from_bits(b & 0x03),
                encoding: if b & 0x04 != 0 {
                    MessageEncoding::Gsm7Bit
                } else {
                    MessageEncoding::EightBit
                },
            }
        } else if b & 0xF0 == 0xC0 {
            DataCodingScheme::MessageWaitingDiscard {
                waiting: b & 0x08 != 0,
                type_indication: MessageWaitingType::spec_from_bits(b & 0x03),
            }
        } else if b & 0xF0 == 0xD0 || b & 0xF0 == 0xE0 {
            DataCodingScheme::MessageWaiting {
                waiting: b & 0x08 != 0,
                type_indication: MessageWaitingType::spec_from_bits(b & 0x03),
                ucs2: b & 0xF0 == 0xE0,
            }
        } else {
            DataCodingScheme::Reserved
        }
    }

    /// Decodes a data coding scheme octet.
    pub fn from(b: u8) -> (r: DataCodingScheme)
        ensures
            r == DataCodingScheme::spec_from(b),
    {
        if b & 0xC0 == 0 {
            let class = if b & 0x10 != 0 {
                MessageClass::StoreToNv
            } else {
                MessageClass::from_bits(b & 0x03)
            };
            DataCodingScheme::Standard {
                compressed: b & 0x20 != 0,
                class,
                encoding: MessageEncoding::from_bits(b & 0x0C),
            }
        } else if b & 0xF0 == 0xF0 {
            let encoding = if b & 0x04 != 0 {
                MessageEncoding::Gsm7Bit
            } else {
                MessageEncoding::EightBit
            };
            DataCodingScheme::Standard {
                compressed: false,
                class: MessageClass::from_bits(b & 0x03),
                encoding,
            }
        } else if b & 0xF0 == 0xC0 {
            DataCodingScheme::MessageWaitingDiscard {
                waiting: b & 0x08 != 0,
                type_indication: MessageWaitingType::from_bits(b & 0x03),
            }
        } else if b & 0xF0 == 0xD0 || b & 0xF0 == 0xE0 {
            DataCodingScheme::MessageWaiting {
                waiting: b & 0x08 != 0,
                type_indication: MessageWaitingType::from_bits(b & 0x03),
                ucs2: b & 0xF0 == 0xE0,
            }
        } else {
            DataCodingScheme::Reserved
        }
    }

    /// The octet written for this scheme. A standard scheme is written in the
    /// general coding group with bit 4 clear, so that its class bits are read back;
    /// `Reserved` is written as 0x45.
    pub open spec fn spec_octet(self) -> u8 {
        match self {
            DataCodingScheme::Standard { compressed, class, encoding } => (if compressed {
                0x20u8
            } else {
                0u8
            }) | class.spec_bits() | encoding.spec_bits(),
            DataCodingScheme::Reserved => 0x45,
            DataCodingScheme::MessageWaitingDiscard { waiting, type_indication } => 0xC0u8 | (if waiting {
                0x08u8
            } else {
                0u8
            }) | type_indication.spec_bits(),
            DataCodingScheme::MessageWaiting { waiting, type_indication, ucs2 } => (if ucs2 {
                0xE0u8
            } else {
                0xD0u8
            }) | (if waiting { 0x08u8 } else { 0u8 }) | type_indication.spec_bits(),
        }
    }

    pub fn into_u8(self) -> (r: u8)
        ensures
            r == self.spec_octet(),
    {
        match self {
            DataCodingScheme::Standard { compressed, class, encoding } => (if compressed {
                0x20u8
            } else {
                0u8
            }) | class.bits() | encoding.bits(),
            DataCodingScheme::Reserved => 0x45,
            DataCodingScheme::MessageWaitingDiscard { waiting, type_indication } => 0xC0u8 | (if waiting {
                0x08u8
            } else {
                0u8
            }) | type_indication.bits(),
            DataCodingScheme::MessageWaiting { waiting, type_indication, ucs2 } => (if ucs2 {
                0xE0u8
            } else {
                0xD0u8
            }) | (if waiting { 0x08u8 } else { 0u8 }) | type_indication.bits(),
        }
    }

    pub open spec fn spec_encoding(self) -> MessageEncoding {
        match self {
            DataCodingScheme::Standard { encoding, .. } => encoding,
            DataCodingScheme::Reserved => MessageEncoding::Gsm7Bit,
            DataCodingScheme::MessageWaitingDiscard { .. } => MessageEncoding::Gsm7Bit,
            DataCodingScheme::MessageWaiting { ucs2, .. } => if ucs2 {
                MessageEncoding::Ucs2
            } else {
                MessageEncoding::Gsm7Bit
            },
        }
    }

    /// The alphabet of the user data under this scheme.
    pub fn encoding(&self) -> (r: MessageEncoding)
        ensures
            r == self.spec_encoding(),
    {
        match *self {
            DataCodingScheme::Standard { encoding, .. } => encoding,
            DataCodingScheme::Reserved => MessageEncoding::Gsm7Bit,
            DataCodingScheme::MessageWaitingDiscard { .. } => MessageEncoding::Gsm7Bit,
            DataCodingScheme::MessageWaiting { ucs2, .. } => if ucs2 {
                MessageEncoding::Ucs2
            } else {
                MessageEncoding::Gsm7Bit
            },
        }
    }
}

/// Every scheme is read back unchanged from the octet written for it.
pub proof fn lemma_dcs_encode_decode(d: DataCodingScheme)
    ensures
        DataCodingScheme::spec_from(d.spec_octet()) == d,
{
    match d {
        DataCodingScheme::Standard { compressed, class, encoding } => {
            let c: u8 = if compressed { 0x20 } else { 0 };
            let k = class.spec_bits();
            let e = encoding.spec_bits();
            assert(k == 0 || k == 1 || k == 2 || k == 3);
            assert(e == 0 || e == 4 || e == 8 || e == 12);
            assert((c == 0 || c == 0x20) && (k == 0 || k == 1 || k == 2 || k == 3) && (e == 0 || e == 4 || e == 8
                || e == 12) ==> (c | k | e) & 0xC0 == 0 && (c | k | e) & 0x10 == 0 && ((c | k | e) & 0x20 != 0)
                == (c == 0x20) && (c | k | e) & 0x03 == k && (c | k | e) & 0x0C == e) by (bit_vector);
        },
        DataCodingScheme::Reserved => {
            assert(0x45u8 & 0xC0 == 0x40 && 0x45u8 & 0xF0 == 0x40) by (bit_vector);
        },
        DataCodingScheme::MessageWaitingDiscard { waiting, type_indication } => {
            let w: u8 = if waiting { 0x08 } else { 0 };
            let t = type_indication.spec_bits();
            assert(t == 0 || t == 1 || t == 2 || t == 3);
            assert((w == 0 || w == 8) && (t == 0 || t == 1 || t == 2 || t == 3) ==> (0xC0u8 | w | t) & 0xC0 != 0
                && (0xC0u8 | w | t) & 0xF0 == 0xC0 && ((0xC0u8 | w | t) & 0x08 != 0) == (w == 8) && (0xC0u8 | w
                | t) & 0x03 == t) by (bit_vector);
        },
        DataCodingScheme::MessageWaiting { waiting, type_indication, ucs2 } => {
            let h: u8 = if ucs2 { 0xE0 } else { 0xD0 };
            let w: u8 = if waiting { 0x08 } else { 0 };
            let t = type_indication.spec_bits();
            assert(t == 0 || t == 1 || t == 2 || t == 3);
            assert((h == 0xE0 || h == 0xD0) && (w == 0 || w == 8) && (t == 0 || t == 1 || t == 2 || t == 3) ==> (h
                | w | t) & 0xC0 != 0 && (h | w | t) & 0xF0 == h && ((h | w | t) & 0x08 != 0) == (w == 8) && (h | w
                | t) & 0x03 == t) by (bit_vector);
        },
    }
}

/// A decoded scheme, written back as an octet, decodes to the same scheme.
pub proof fn lemma_dcs_round_trip(b: u8)
    ensures
        DataCodingScheme::spec_from(DataCodingScheme::spec_from(b).spec_octet())
            == DataCodingScheme::spec_from(b),
{
    lemma_dcs_encode_decode(DataCodingScheme::spec_from(b));
}

/// The first octet of an SMS-DELIVER PDU.
#[derive(Debug, Clone, Copy, PartialEq, Eq, Structural)]
pub struct DeliverPduFirstOctet {
    /// Message type.
    pub mti: MessageType,
    /// Status report indication.
    pub sri: bool,
    /// The user data starts with a header.
    pub udhi: bool,
    /// Reply path set.
    pub rp: bool,
}

impl DeliverPduFirstOctet {
    pub open spec fn spec_from(b: u8) -> DeliverPduFirstOctet {
        DeliverPduFirstOctet {
            mti: MessageType::spec_from_bits(b & 0x03),
            sri: b & 0x20 != 0,
            udhi: b & 0x40 != 0,
            rp: b & 0x80 != 0,
        }
    }

    /// Reads MTI (bits 1..0), SRI (bit 5), UDHI (bit 6) and RP (bit 7).
    pub fn from(b: u8) -> (r: DeliverPduFirstOctet)
        ensures
            r == DeliverPduFirstOctet::spec_from(b),
    {
        DeliverPduFirstOctet {
            mti: MessageType::from_bits(b & 0x03),
            sri: b & 0x20 != 0,
            udhi: b & 0x40 != 0,
            rp: b & 0x80 != 0,
        }
    }
}

/// A timestamp octet: two decimal digits, units in the high nybble and tens in the low one.
pub open spec fn spec_reverse_byte(b: u8) -> u8 {
    ((b % 16) * 10 + b / 16) as u8
}

pub fn reverse_byte(b: u8) -> (r: u8)
    ensures
        r == spec_reverse_byte(b),
        r as int == (b % 16) * 10 + b / 16,
{
    let units = b / 16;
    let tens = b % 16;
    tens * 10 + units
}

/// Service centre timestamp of an SMS-DELIVER PDU.
#[derive(Debug, Clone, Copy, PartialEq, Eq, Structural)]
pub struct SmscTimestamp {
    pub year: u8,
    pub month: u8,
    pub day: u8,
    pub hour: u8,
    pub minute: u8,
    pub second: u8,
    /// Difference between local time and GMT.
    pub timezone: u8,
}

impl SmscTimestamp {
    /// Reads the seven swapped-BCD octets of a timestamp.
    pub fn try_from(b: &[u8]) -> (r: HuaweiResult<SmscTimestamp>)
        ensures
            r is Ok <==> b@.len() == 7,
            r matches Ok(t) ==> t.year == spec_reverse_byte(b@[0]) && t.month == spec_reverse_byte(b@[1])
                && t.day == spec_reverse_byte(b@[2]) && t.hour == spec_reverse_byte(b@[3]) && t.minute
                == spec_reverse_byte(b@[4]) && t.second == spec_reverse_byte(b@[5]) && t.timezone
                == spec_reverse_byte(b@[6]),
            r matches Err(e) ==> e == HuaweiError::InvalidPdu("SmscTimestamp must be 7 bytes long"),
    {
        if b.len() != 7 {
            return Err(HuaweiError::InvalidPdu("SmscTimestamp must be 7 bytes long"));
        }
        Ok(SmscTimestamp {
            year: reverse_byte(b[0]),
            month: reverse_byte(b[1]),
            day: reverse_byte(b[2]),
            hour: reverse_byte(b[3]),
            minute: reverse_byte(b[4]),
            second: reverse_byte(b[5]),
            timezone: reverse_byte(b[6]),
        })
    }
}

/// The digits held by one octet of a phone number: the low nybble, then the
/// high nybble unless it is the filler 0xF.
pub open spec fn octet_digits(x: u8) -> Seq<u8> {
    if x >> 4u8 != 15 {
        seq![x & 0x0F, x >> 4u8]
    } else {
        seq![x & 0x0F]
    }
}

/// The digits held by the octets `s` of a phone number.
pub open spec fn spec_digits_of(s: Seq<u8>) -> Seq<u8>
    decreases s.len(),
{
    if s.len() == 0 {
        Seq::empty()
    } else {
        spec_digits_of(s.drop_last()) + octet_digits(s.last())
    }
}

/// Octet `k` of a phone number with digits `d`: two digits, low nybble
/// first, the last one of an odd count with the filler 0xF.
pub open spec fn number_octet(d: Seq<u8>, k: int) -> u8 {
    if 2 * k + 1 < d.len() {
        d[2 * k] | (d[2 * k + 1] << 4u8)
    } else {
        d[2 * k] | 0xF0u8
    }
}

pub open spec fn spec_number_octets(d: Seq<u8>) -> Seq<u8> {
    Seq::new(((d.len() + 1) / 2) as nat, |k: int| number_octet(d, k))
}

/// A phone number as a sequence of digits (nybbles), or of GSM septets for
/// an alphanumeric address.
#[derive(Debug, Clone, PartialEq, Eq, Hash)]
pub struct PhoneNumber(pub Vec<u8>);

impl PhoneNumber {
    /// Reads the semi-octet form: two digits an octet, low nybble first; a
    /// high nybble of 0xF is filler.
    pub fn from(b: &[u8]) -> (r: PhoneNumber)
        ensures
            r.0@ == spec_digits_of(b@),
    {
        let mut ret: Vec<u8> = Vec::new();
        let mut i: usize = 0;
        while i < b.len()
            invariant
                i <= b@.len(),
                ret@ == spec_digits_of(b@.subrange(0, i as int)),
            decreases b@.len() - i,
        {
            let x = b[i];
            let first = x & 0x0F;
            let second = x >> 4u8;
            ret.push(first);
            if second != 15 {
                ret.push(second);
            }
            assert(b@.subrange(0, i + 1).drop_last() == b@.subrange(0, i as int));
            assert(ret@ =~= spec_digits_of(b@.subrange(0, i + 1)));
            i += 1;
        }
        assert(b@.subrange(0, b@.len() as int) == b@);
        PhoneNumber(ret)
    }

    /// An alphanumeric address: `len` septets packed in `b`.
    pub fn from_gsm(b: &[u8], len: usize) -> (r: PhoneNumber)
        requires
            7 * len + 8 <= usize::MAX,
        ensures
            r.0@ == crate::gsm_encoding::spec_unpack(b@, 0, len as nat),
    {
        PhoneNumber(decode_sms_7bit(b, 0, len))
    }

    /// The semi-octet form of the digits.
    pub fn as_bytes(&self) -> (r: Vec<u8>)
        ensures
            r@ == spec_number_octets(self.0@),
    {
        let d = &self.0;
        let mut ret: Vec<u8> = Vec::new();
        let mut k: usize = 0;
        while k < d.len() / 2
            invariant
                k <= d@.len() / 2,
                ret@ == spec_number_octets(d@).subrange(0, k as int),
            decreases d@.len() / 2 - k,
        {
            ret.push(d[2 * k] | (d[2 * k + 1] << 4u8));
            assert(ret@ =~= spec_number_octets(d@).subrange(0, k + 1));
            k += 1;
        }
        if d.len() % 2 != 0 {
            ret.push(d[d.len() - 1] | 0xF0u8);
        }
        assert(ret@ =~= spec_number_octets(d@));
        ret
    }
}

proof fn lemma_octet_digits(a: u8, b: u8)
    requires
        a < 15,
        b < 15,
    ensures
        octet_digits(a | (b << 4u8)) == seq![a, b],
        octet_digits(a | 0xF0u8) == seq![a],
{
    assert(a < 15 && b < 15 ==> (a | (b << 4u8)) & 0x0F == a && (a | (b << 4u8)) >> 4u8 == b && (a | 0xF0u8) & 0x0F
        == a && (a | 0xF0u8) >> 4u8 == 15) by (bit_vector);
}

proof fn lemma_number_pairs(d: Seq<u8>, k: int)
    requires
        forall|i: int| 0 <= i < d.len() ==> #[trigger] d[i] < 15,
        0 <= k <= d.len() / 2,
    ensures
        spec_digits_of(spec_number_octets(d).subrange(0, k)) == d.subrange(0, 2 * k),
    decreases k,
{
    let o = spec_number_octets(d);
    if k > 0 {
        lemma_number_pairs(d, k - 1);
        assert(o.subrange(0, k).drop_last() == o.subrange(0, k - 1));
        lemma_octet_digits(d[2 * k - 2], d[2 * k - 1]);
        assert(d.subrange(0, 2 * k) =~= d.subrange(0, 2 * k - 2) + seq![d[2 * k - 2], d[2 * k - 1]]);
    } else {
        assert(d.subrange(0, 0) =~= Seq::<u8>::empty());
        assert(o.subrange(0, 0) =~= Seq::<u8>::empty());
    }
}

/// Writing digits in semi-octet form and reading them back gives the same
/// digits, as long as none is the filler nybble 0xF (or larger).
pub proof fn lemma_phone_number_round_trip(d: Seq<u8>)
    requires
        forall|i: int| 0 <= i < d.len() ==> #[trigger] d[i] < 15,
    ensures
        spec_digits_of(spec_number_octets(d)) == d,
{
    let o = spec_number_octets(d);
    let h: int = (d.len() / 2) as int;
    lemma_number_pairs(d, h);
    if d.len() % 2 != 0 {
        assert(o.subrange(0, h + 1).drop_last() == o.subrange(0, h));
        lemma_octet_digits(d[2 * h], 0);
        assert(d =~= d.subrange(0, 2 * h) + seq![d[2 * h]]);
        assert(o.subrange(0, h + 1) == o);
    } else {
        assert(o.subrange(0, h) == o);
        assert(d.subrange(0, 2 * h) == d);
    }
}

/// A PDU address: a type and a number.
#[derive(Debug, Clone, PartialEq, Eq, Hash)]
pub struct PduAddress {
    pub type_addr: AddressType,
    pub number: PhoneNumber,
}

/// The digits of the decimal digit characters of `cs`, in order.
pub open spec fn spec_dial_digits(cs: Seq<char>) -> Seq<u8>
    decreases cs.len(),
{
    if cs.len() == 0 {
        Seq::empty()
    } else if 0x30 <= cs.last() as u32 <= 0x39 {
        spec_dial_digits(cs.drop_last()).push((cs.last() as u32 - 0x30) as u8)
    } else {
        spec_dial_digits(cs.drop_last())
    }
}

/// The characters that write the decimal value of `d`.
pub open spec fn spec_decimal_u8(d: u8) -> Seq<char> {
    if d < 10 {
        seq![(d + 0x30) as char]
    } else if d < 100 {
        seq![(d / 10 + 0x30) as char, (d % 10 + 0x30) as char]
    } else {
        seq![(d / 100 + 0x30) as char, (d / 10 % 10 + 0x30) as char, (d % 10 + 0x30) as char]
    }
}

pub open spec fn spec_decimal_digits(d: Seq<u8>) -> Seq<char>
    decreases d.len(),
{
    if d.len() == 0 {
        Seq::empty()
    } else {
        spec_decimal_digits(d.drop_last()) + spec_decimal_u8(d.last())
    }
}

pub(crate) fn push_decimal_u8(s: &mut String, d: u8)
    ensures
        final(s)@ == old(s)@ + spec_decimal_u8(d),
{
    if d < 10 {
        push_char(s, (d + 0x30) as char);
    } else if d < 100 {
        push_char(s, (d / 10 + 0x30) as char);
        push_char(s, (d % 10 + 0x30) as char);
    } else {
        push_char(s, (d / 100 + 0x30) as char);
        push_char(s, (d / 10 % 10 + 0x30) as char);
        push_char(s, (d % 10 + 0x30) as char);
    }
    assert(final(s)@ =~= old(s)@ + spec_decimal_u8(d));
}

/// The octets `b` start with the length and a valid type octet of an address.
pub open spec fn spec_address_ok(b: Seq<u8>) -> bool {
    b.len() >= 3 && type_octet_valid(b[1])
}

impl PduAddress {
    /// This address is what the octets `b` hold.
    pub open spec fn is_read_from(self, b: Seq<u8>) -> bool {
        &&& self.type_addr.type_of_number.spec_bits() == b[1] & 0x70
        &&& self.type_addr.numbering_plan_identification.spec_bits() == b[1] & 0x0F
        &&& self.type_addr.type_of_number == TypeOfNumber::Gsm ==> self.number.0@ == crate::gsm_encoding::spec_unpack(
            b.subrange(2, b.len() as int),
            0,
            ((b[0] * 4) / 7) as nat,
        )
        &&& self.type_addr.type_of_number != TypeOfNumber::Gsm ==> self.number.0@ == spec_digits_of(
            b.subrange(2, b.len() as int),
        )
    }

    /// The octets of this address: a length octet, the type octet, then the
    /// number. The length counts the digits when `broken_len` is set (the
    /// convention of the destination and originating addresses), and the
    /// octets that follow it otherwise (that of the service centre address).
    pub open spec fn spec_bytes(self, broken_len: bool) -> Seq<u8> {
        let body = seq![self.type_addr.spec_octet()] + spec_number_octets(self.number.0@);
        let len = if broken_len { self.number.0@.len() } else { body.len() };
        seq![len as u8] + body
    }

    pub fn as_bytes(&self, broken_len: bool) -> (r: Vec<u8>)
        ensures
            r@ == self.spec_bytes(broken_len),
    {
        let mut ret: Vec<u8> = Vec::new();
        ret.push(self.type_addr.into_u8());
        let mut digits = self.number.as_bytes();
        ret.append(&mut digits);
        let len = if broken_len { self.number.0.len() } else { ret.len() };
        ret.insert(0, len as u8);
        assert(ret@ =~= self.spec_bytes(broken_len));
        ret
    }

    /// Reads an address: length octet, type octet, number. The length is
    /// only used for an alphanumeric number, which holds `(length * 4) / 7`
    /// packed septets.
    pub fn try_from(b: &[u8]) -> (r: HuaweiResult<PduAddress>)
        ensures
            r is Ok <==> spec_address_ok(b@),
            r matches Err(e) ==> e matches HuaweiError::InvalidPdu(_),
            r matches Ok(a) ==> a.is_read_from(b@),
    {
        if b.len() < 3 {
            return Err(HuaweiError::InvalidPdu("tried to make a PduAddress from less than 3 bytes"));
        }
        let type_addr = match AddressType::try_from(b[1]) {
            Ok(t) => t,
            Err(e) => { return Err(e); },
        };
        let rest = slice_subrange(b, 2, b.len());
        let number = if type_addr.type_of_number == TypeOfNumber::Gsm {
            let len = (b[0] as usize * 4) / 7;
            PhoneNumber::from_gsm(rest, len)
        } else {
            PhoneNumber::from(rest)
        };
        Ok(PduAddress { type_addr, number })
    }

    /// Reads a phone number written as text: its decimal digits are kept, and
    /// a `+` anywhere makes it international. The plan is ISDN/telephone.
    pub fn from_str(st: &str) -> (r: PduAddress)
        ensures
            r.number.0@ == spec_dial_digits(st@),
            r.type_addr.type_of_number == (if st@.contains('+') {
                TypeOfNumber::International
            } else {
                TypeOfNumber::Unknown
            }),
            r.type_addr.numbering_plan_identification == NumberingPlanIdentification::IsdnTelephone,
    {
        let cs = chars_of(st);
        let mut plus = false;
        let mut buf: Vec<u8> = Vec::new();
        let mut i: usize = 0;
        while i < cs.len()
            invariant
                cs@ == st@,
                i <= cs@.len(),
                buf@ == spec_dial_digits(cs@.subrange(0, i as int)),
                plus == cs@.subrange(0, i as int).contains('+'),
            decreases cs@.len() - i,
        {
            let c = cs[i];
            assert(cs@.subrange(0, i + 1).drop_last() == cs@.subrange(0, i as int));
            assert(cs@.subrange(0, i + 1) == cs@.subrange(0, i as int).push(c));
            if 0x30 <= c as u32 && c as u32 <= 0x39 {
                buf.push((c as u32 - 0x30) as u8);
            } else if c == '+' {
                plus = true;
            }
            proof {
                if plus && c != '+' {
                    let w = choose|w: int| 0 <= w < i && cs@.subrange(0, i as int)[w] == '+';
                    assert(cs@.subrange(0, i + 1)[w] == '+');
                }
                if c == '+' {
                    assert(cs@.subrange(0, i + 1)[i as int] == '+');
                }
                if !plus {
                    assert forall|w: int| 0 <= w < i + 1 implies #[trigger] cs@.subrange(0, i + 1)[w] != '+' by {
                        if w < i {
                            assert(cs@.subrange(0, i + 1)[w] == cs@.subrange(0, i as int)[w]);
                        }
                    }
                }
            }
            i += 1;
        }
        assert(cs@.subrange(0, cs@.len() as int) == cs@);
        let ton = if plus { TypeOfNumber::International } else { TypeOfNumber::Unknown };
        PduAddress {
            type_addr: AddressType {
                type_of_number: ton,
                numbering_plan_identification: NumberingPlanIdentification::IsdnTelephone,
            },
            number: PhoneNumber(buf),
        }
    }

    /// The text of this address: `+` for an international number, then the
    /// decoded characters of an alphanumeric number or the decimal digits.
    pub open spec fn spec_text(self) -> Seq<char> {
        (if self.type_addr.type_of_number == TypeOfNumber::International {
            seq!['+']
        } else {
            Seq::empty()
        }) + if self.type_addr.type_of_number == TypeOfNumber::Gsm {
            crate::gsm_encoding::spec_gsm_decode(self.number.0@)
        } else {
            spec_decimal_digits(self.number.0@)
        }
    }

    pub fn to_display_string(&self) -> (r: String)
        ensures
            r@ == self.spec_text(),
    {
        let mut ret = String::new();
        if self.type_addr.type_of_number == TypeOfNumber::International {
            push_char(&mut ret, '+');
        }
        if self.type_addr.type_of_number == TypeOfNumber::Gsm {
            let text = gsm_decode_string(self.number.0.as_slice());
            push_str(&mut ret, text.as_str());
        } else {
            let d = &self.number.0;
            let mut i: usize = 0;
            let ghost start = ret@;
            while i < d.len()
                invariant
                    i <= d@.len(),
                    ret@ == start + spec_decimal_digits(d@.subrange(0, i as int)),
                decreases d@.len() - i,
            {
                push_decimal_u8(&mut ret, d[i]);
                assert(d@.subrange(0, i + 1).drop_last() == d@.subrange(0, i as int));
                i += 1;
            }
            assert(d@.subrange(0, d@.len() as int) == d@);
        }
        ret
    }
}

/// Where the fields of an SMS-DELIVER PDU start: first octet, originating
/// address and its end, data coding scheme, timestamp, user data length;
/// `None` where the octets end too soon.
pub open spec fn spec_deliver_layout(b: Seq<u8>) -> Option<(int, int, int, int, int, int)> {
    if b.len() == 0 {
        None
    } else {
        let fo = b[0] + 1;
        let oa = fo + 1;
        if fo >= b.len() || oa >= b.len() {
            None
        } else {
            let oa_end = oa + (b[oa] / 2 + b[oa] % 2) + 2;
            let dcs = oa_end + 1;
            let scts = dcs + 1;
            let udl = scts + 7;
            if udl >= b.len() {
                None
            } else {
                Some((fo, oa, oa_end, dcs, scts, udl))
            }
        }
    }
}

/// The octets `b` hold an SMS-DELIVER PDU that can be read.
pub open spec fn spec_deliver_ok(b: Seq<u8>) -> bool {
    match spec_deliver_layout(b) {
        Some((fo, oa, oa_end, dcs, scts, udl)) => (b[0] > 0 ==> spec_address_ok(b.subrange(0, fo)))
            && spec_address_ok(b.subrange(oa, oa_end)),
        None => false,
    }
}

/// An SMS-DELIVER PDU: a received message.
#[derive(Debug, Clone, PartialEq, Eq)]
pub struct DeliverPdu {
    /// Service centre address, if given.
    pub sca: Option<PduAddress>,
    pub first_octet: DeliverPduFirstOctet,
    /// The sender.
    pub originating_address: PduAddress,
    pub dcs: DataCodingScheme,
    /// When the service centre received the message.
    pub scts: SmscTimestamp,
    pub user_data: Vec<u8>,
    pub user_data_len: u8,
}

impl DeliverPdu {
    /// `self` is the PDU that the octets `b` hold.
    pub open spec fn is_read_from(self, b: Seq<u8>) -> bool {
        spec_deliver_layout(b) matches Some((fo, oa, oa_end, dcs, scts, udl)) && {
            &&& self.sca is Some <==> b[0] > 0
            &&& self.sca matches Some(a) ==> a.is_read_from(b.subrange(0, fo))
            &&& self.first_octet == DeliverPduFirstOctet::spec_from(b[fo])
            &&& self.originating_address.is_read_from(b.subrange(oa, oa_end))
            &&& self.dcs == DataCodingScheme::spec_from(b[dcs])
            &&& self.scts.year == spec_reverse_byte(b[scts]) && self.scts.month == spec_reverse_byte(b[scts + 1])
                && self.scts.day == spec_reverse_byte(b[scts + 2]) && self.scts.hour == spec_reverse_byte(
                b[scts + 3],
            ) && self.scts.minute == spec_reverse_byte(b[scts + 4]) && self.scts.second == spec_reverse_byte(
                b[scts + 5],
            ) && self.scts.timezone == spec_reverse_byte(b[scts + 6])
            &&& self.user_data_len == b[udl]
            &&& self.user_data@ == b.subrange(udl + 1, b.len() as int)
        }
    }

    /// The user data, with what is needed to decode it.
    pub fn get_message_data(&self) -> (r: GsmMessageData)
        ensures
            r.bytes@ == self.user_data@,
            r.user_data_len == self.user_data_len,
            r.encoding == self.dcs.spec_encoding(),
            r.udh == self.first_octet.udhi,
    {
        GsmMessageData {
            bytes: vstd::slice::slice_to_vec(self.user_data.as_slice()),
            user_data_len: self.user_data_len,
            encoding: self.dcs.encoding(),
            udh: self.first_octet.udhi,
        }
    }

    /// Reads an SMS-DELIVER PDU: service centre address (its length octet
    /// counts the octets that follow), first octet, originating address (its
    /// length counts digits), protocol identifier, data coding scheme, seven
    /// timestamp octets, user data length, user data. For an alphanumeric
    /// sender the length counts the semi-octets of the packed text, so the
    /// address takes `ceil(length / 2)` octets and holds `(length * 4) / 7`
    /// septets.
    pub fn try_from(b: &[u8]) -> (r: HuaweiResult<DeliverPdu>)
        ensures
            r is Ok <==> spec_deliver_ok(b@),
            r matches Err(e) ==> e matches HuaweiError::InvalidPdu(_),
            r matches Ok(p) ==> p.is_read_from(b@),
    {
        if b.len() == 0 {
            return Err(HuaweiError::InvalidPdu("zero-length input"));
        }
        let scalen = b[0] as usize;
        let mut offset: usize = scalen + 1;
        if offset >= b.len() {
            return Err(HuaweiError::InvalidPdu("Offset check failed for: first octet"));
        }
        let sca = if scalen > 0 {
            match PduAddress::try_from(slice_subrange(b, 0, offset)) {
                Ok(a) => Some(a),
                Err(e) => { return Err(e); },
            }
        } else {
            None
        };
        let first_octet = DeliverPduFirstOctet::from(b[offset]);
        offset += 1;
        if offset >= b.len() {
            return Err(HuaweiError::InvalidPdu("Offset check failed for: originating address len"));
        }
        let len_nybbles = b[offset];
        let len_octets = (len_nybbles / 2 + len_nybbles % 2) as usize;
        if b.len() - offset < len_octets + 2 + 10 {
            return Err(HuaweiError::InvalidPdu("Offset check failed for: originating address"));
        }
        let oa_end = offset + len_octets + 2;
        let originating_address = match PduAddress::try_from(slice_subrange(b, offset, oa_end)) {
            Ok(a) => a,
            Err(e) => { return Err(e); },
        };
        offset = oa_end;
        let dcs = DataCodingScheme::from(b[offset + 1]);
        offset += 2;
        let scts = match SmscTimestamp::try_from(slice_subrange(b, offset, offset + 7)) {
            Ok(t) => t,
            Err(e) => { return Err(e); },
        };
        offset += 7;
        let user_data_len = b[offset];
        offset += 1;
        let user_data = vstd::slice::slice_to_vec(slice_subrange(b, offset, b.len()));
        Ok(DeliverPdu { sca, first_octet, originating_address, dcs, scts, user_data, user_data_len })
    }
}

/// An SMS-SUBMIT PDU: a message to send.
#[derive(Debug, Clone, PartialEq, Eq)]
pub struct Pdu {
    /// Service centre address, if it is to be given in the PDU.
    pub sca: Option<PduAddress>,
    pub first_octet: PduFirstOctet,
    /// Message reference.
    pub message_id: u8,
    /// The recipient.
    pub destination: PduAddress,
    pub dcs: DataCodingScheme,
    /// Validity period; sent unless the first octet says there is none.
    pub validity_period: u8,
    pub user_data: Vec<u8>,
    pub user_data_len: u8,
}

impl Pdu {
    /// Sets the service centre address.
    pub fn set_sca(&mut self, sca: PduAddress)
        ensures
            final(self).sca == Some(sca),
            final(self).first_octet == old(self).first_octet,
            final(self).message_id == old(self).message_id,
            final(self).destination == old(self).destination,
            final(self).dcs == old(self).dcs,
            final(self).validity_period == old(self).validity_period,
            final(self).user_data == old(self).user_data,
            final(self).user_data_len == old(self).user_data_len,
    {
        self.sca = Some(sca);
    }

    /// A PDU that sends `msg` to `recipient`: no service centre address, no
    /// status report, relative validity period 0, general data coding without
    /// class in the alphabet of `msg`.
    pub fn make_simple_message(recipient: PduAddress, msg: GsmMessageData) -> (r: Pdu)
        ensures
            r.sca is None,
            r.first_octet == (PduFirstOctet {
                mti: MessageType::SmsSubmit,
                rd: false,
                vpf: VpFieldValidity::Relative,
                srr: false,
                udhi: msg.udh,
                rp: false,
            }),
            r.message_id == 0,
            r.destination == recipient,
            r.dcs == (DataCodingScheme::Standard {
                compressed: false,
                class: MessageClass::Silent,
                encoding: msg.encoding,
            }),
            r.validity_period == 0,
            r.user_data == msg.bytes,
            r.user_data_len == msg.user_data_len,
    {
        Pdu {
            sca: None,
            first_octet: PduFirstOctet {
                mti: MessageType::SmsSubmit,
                rd: false,
                vpf: VpFieldValidity::Relative,
                srr: false,
                udhi: msg.udh,
                rp: false,
            },
            message_id: 0,
            destination: recipient,
            dcs: DataCodingScheme::Standard {
                compressed: false,
                class: MessageClass::Silent,
                encoding: msg.encoding,
            },
            validity_period: 0,
            user_data: msg.bytes,
            user_data_len: msg.user_data_len,
        }
    }

    /// The service centre part of the PDU: the address with its octet
    /// length, or a single 0.
    pub open spec fn spec_sca_bytes(self) -> Seq<u8> {
        match self.sca {
            Some(a) => a.spec_bytes(false),
            None => seq![0u8],
        }
    }

    /// The TPDU: everything after the service centre part.
    pub open spec fn spec_tpdu(self) -> Seq<u8> {
        seq![self.first_octet.spec_octet(), self.message_id] + self.destination.spec_bytes(true) + seq![
            0u8,
            self.dcs.spec_octet(),
        ] + (if self.first_octet.vpf != VpFieldValidity::Invalid {
            seq![self.validity_period]
        } else {
            Seq::empty()
        }) + seq![self.user_data_len] + self.user_data@
    }

    /// The PDU as sent, and the length of its TPDU (what `AT+CMGS` is given).
    pub fn as_bytes(&self) -> (r: (Vec<u8>, usize))
        ensures
            r.0@ == self.spec_sca_bytes() + self.spec_tpdu(),
            r.1 == self.spec_tpdu().len(),
    {
        let mut ret: Vec<u8> = Vec::new();
        let mut scalen: usize = 1;
        match &self.sca {
            Some(sca) => {
                let mut sb = sca.as_bytes(false);
                scalen = sb.len();
                ret.append(&mut sb);
            },
            None => {
                ret.push(0);
            },
        }
        ret.push(self.first_octet.into_u8());
        ret.push(self.message_id);
        let mut dest = self.destination.as_bytes(true);
        ret.append(&mut dest);
        ret.push(0);
        ret.push(self.dcs.into_u8());
        if self.first_octet.vpf != VpFieldValidity::Invalid {
            ret.push(self.validity_period);
        }
        ret.push(self.user_data_len);
        let mut ud = vstd::slice::slice_to_vec(self.user_data.as_slice());
        ret.append(&mut ud);
        assert(ret@ =~= self.spec_sca_bytes() + self.spec_tpdu());
        let tpdu_len = ret.len() - scalen;
        (ret, tpdu_len)
    }
}

/// The value of a hexadecimal digit.
pub open spec fn spec_hex_digit(b: u8) -> Option<u8> {
    if 0x30 <= b <= 0x39 {
        Some((b - 0x30) as u8)
    } else if 0x41 <= b <= 0x46 {
        Some((b - 0x41 + 10) as u8)
    } else if 0x61 <= b <= 0x66 {
        Some((b - 0x61 + 10) as u8)
    } else {
        None
    }
}

fn hex_digit(b: u8) -> (r: Option<u8>)
    ensures
        r == spec_hex_digit(b),
{
    if 0x30 <= b && b <= 0x39 {
        Some(b - 0x30)
    } else if 0x41 <= b && b <= 0x46 {
        Some(b - 0x41 + 10)
    } else if 0x61 <= b && b <= 0x66 {
        Some(b - 0x61 + 10)
    } else {
        None
    }
}

/// The octet written by one group of one or two characters: hexadecimal
/// digits, the second of which may follow a `+` sign.
pub open spec fn spec_hex_group(c: Seq<u8>) -> Option<u8> {
    if c.len() == 1 {
        spec_hex_digit(c[0])
    } else if c.len() == 2 && c[0] == 0x2B {
        spec_hex_digit(c[1])
    } else if c.len() == 2 && spec_hex_digit(c[0]) is Some && spec_hex_digit(c[1]) is Some {
        Some((spec_hex_digit(c[0])->0 * 16 + spec_hex_digit(c[1])->0) as u8)
    } else {
        None
    }
}

/// Group `k` of the text `s`: its characters `2k` and `2k + 1`, if there.
pub open spec fn hex_group_at(s: Seq<u8>, k: int) -> Seq<u8> {
    s.subrange(2 * k, if 2 * k + 2 <= s.len() { 2 * k + 2 } else { s.len() as int })
}

/// The octets that hexadecimal text `s` writes, if every group is valid.
pub open spec fn spec_hex_decode(s: Seq<u8>) -> Option<Seq<u8>> {
    if forall|k: int| 0 <= k < (s.len() + 1) / 2 ==> (#[trigger] spec_hex_group(hex_group_at(s, k))) is Some {
        Some(Seq::new(((s.len() + 1) / 2) as nat, |k: int| spec_hex_group(hex_group_at(s, k))->0))
    } else {
        None
    }
}

/// Octets written as hexadecimal text, upper case, two digits each.
pub struct HexData<'a>(pub &'a [u8]);

/// The upper-case hexadecimal digit of a nybble.
pub open spec fn spec_hex_char(n: u8) -> char {
    if n < 10 {
        (n + 0x30) as char
    } else {
        (n - 10 + 0x41) as char
    }
}

pub open spec fn spec_hex_text(b: Seq<u8>) -> Seq<char>
    decreases b.len(),
{
    if b.len() == 0 {
        Seq::empty()
    } else {
        spec_hex_text(b.drop_last()) + seq![spec_hex_char(b.last() / 16), spec_hex_char(b.last() % 16)]
    }
}

fn hex_char(n: u8) -> (r: char)
    requires
        n < 16,
    ensures
        r == spec_hex_char(n),
{
    if n < 10 {
        (n + 0x30) as char
    } else {
        (n - 10 + 0x41) as char
    }
}

impl<'a> HexData<'a> {
    /// The octets as upper-case hexadecimal text.
    pub fn to_hex_string(&self) -> (r: String)
        ensures
            r@ == spec_hex_text(self.0@),
    {
        let mut ret = String::new();
        let mut i: usize = 0;
        while i < self.0.len()
            invariant
                i <= self.0@.len(),
                ret@ == spec_hex_text(self.0@.subrange(0, i as int)),
            decreases self.0@.len() - i,
        {
            let b = self.0[i];
            push_char(&mut ret, hex_char(b / 16));
            push_char(&mut ret, hex_char(b % 16));
            assert(self.0@.subrange(0, i + 1).drop_last() == self.0@.subrange(0, i as int));
            i += 1;
        }
        assert(self.0@.subrange(0, self.0@.len() as int) == self.0@);
        ret
    }

    /// Reads hexadecimal text, two characters an octet (a last lone digit
    /// is an octet of its own).
    pub fn decode(data: &str) -> (r: HuaweiResult<Vec<u8>>)
        ensures
            r is Ok <==> forall|k: int| 0 <= k < (data.spec_bytes().len() + 1) / 2 ==> (#[trigger] spec_hex_group(
                hex_group_at(data.spec_bytes(), k),
            )) is Some,
            r matches Ok(v) ==> v@.len() == (data.spec_bytes().len() + 1) / 2 && forall|k: int|
                0 <= k < v@.len() ==> #[trigger] v@[k] == spec_hex_group(hex_group_at(data.spec_bytes(), k))->0,
            r matches Err(e) ==> e == HuaweiError::InvalidPdu("invalid hex string"),
            r matches Ok(v) ==> spec_hex_decode(data.spec_bytes()) == Some(v@),
            r is Err ==> spec_hex_decode(data.spec_bytes()) is None,
    {
        let b = data.as_bytes();
        let n = b.len();
        let mut ret: Vec<u8> = Vec::new();
        let mut k: usize = 0;
        while k < n / 2 + n % 2
            invariant
                b@ == data.spec_bytes(),
                n == b@.len(),
                2 * k <= n + 1,
                ret@.len() == k,
                forall|j: int| 0 <= j < k ==> (#[trigger] spec_hex_group(hex_group_at(b@, j))) is Some,
                forall|j: int| 0 <= j < k ==> #[trigger] ret@[j] == spec_hex_group(hex_group_at(b@, j))->0,
            decreases n + 1 - 2 * k,
        {
            let ghost g = hex_group_at(b@, k as int);
            let v: Option<u8> = if 2 * k + 1 == n {
                hex_digit(b[2 * k])
            } else if b[2 * k] == 0x2B {
                hex_digit(b[2 * k + 1])
            } else {
                match (hex_digit(b[2 * k]), hex_digit(b[2 * k + 1])) {
                    (Some(h), Some(l)) => Some(h * 16 + l),
                    _ => None,
                }
            };
            assert(v == spec_hex_group(g));
            match v {
                Some(x) => { ret.push(x); },
                None => { return Err(HuaweiError::InvalidPdu("invalid hex string")); },
            }
            k += 1;
        }
        assert(ret@ =~= spec_hex_decode(b@)->0);
        Ok(ret)
    }
}

/// Where the fields of an SMS-SUBMIT PDU start: first octet, destination
/// address and its end, user data length; `None` where the octets end too
/// soon.
pub open spec fn spec_submit_layout(b: Seq<u8>) -> Option<(int, int, int, int)> {
    if b.len() == 0 {
        None
    } else {
        let fo = b[0] + 1;
        let da = fo + 2;
        if da >= b.len() {
            None
        } else {
            let da_end = da + 2 + (b[da] / 2 + b[da] % 2);
            let vp = if PduFirstOctet::spec_from(b[fo]).vpf != VpFieldValidity::Invalid { 1int } else { 0int };
            let udl = da_end + 2 + vp;
            if udl >= b.len() {
                None
            } else {
                Some((fo, da, da_end, udl))
            }
        }
    }
}

/// The octets `b` hold an SMS-SUBMIT PDU that can be read.
pub open spec fn spec_submit_ok(b: Seq<u8>) -> bool {
    match spec_submit_layout(b) {
        Some((fo, da, da_end, udl)) => (b[0] > 0 ==> spec_address_ok(b.subrange(0, fo))) && spec_address_ok(
            b.subrange(da, da_end),
        ),
        None => false,
    }
}

impl Pdu {
    /// `self` is the PDU that the octets `b` hold.
    pub open spec fn is_read_from(self, b: Seq<u8>) -> bool {
        spec_submit_layout(b) matches Some((fo, da, da_end, udl)) && {
            &&& self.sca is Some <==> b[0] > 0
            &&& self.sca matches Some(a) ==> a.is_read_from(b.subrange(0, fo))
            &&& self.first_octet == PduFirstOctet::spec_from(b[fo])
            &&& self.message_id == b[fo + 1]
            &&& self.destination.is_read_from(b.subrange(da, da_end))
            &&& self.dcs == DataCodingScheme::spec_from(b[da_end + 1])
            &&& self.validity_period == (if self.first_octet.vpf != VpFieldValidity::Invalid {
                b[da_end + 2]
            } else {
                0u8
            })
            &&& self.user_data_len == b[udl]
            &&& self.user_data@ == b.subrange(udl + 1, b.len() as int)
        }
    }

    /// Reads an SMS-SUBMIT PDU, laid out as `as_bytes` writes it.
    pub fn parse(b: &[u8]) -> (r: HuaweiResult<Pdu>)
        ensures
            r is Ok <==> spec_submit_ok(b@),
            r matches Ok(p) ==> p.is_read_from(b@),
            r matches Err(e) ==> e matches HuaweiError::InvalidPdu(_),
    {
        if b.len() == 0 {
            return Err(HuaweiError::InvalidPdu("zero-length input"));
        }
        let fo = b[0] as usize + 1;
        if fo >= b.len() || b.len() - fo <= 2 {
            return Err(HuaweiError::InvalidPdu("Offset check failed for: destination address len"));
        }
        let da = fo + 2;
        let first_octet = PduFirstOctet::from(b[fo]);
        let da_octets = (b[da] / 2 + b[da] % 2) as usize;
        let vp: usize = if first_octet.vpf != VpFieldValidity::Invalid { 1 } else { 0 };
        if b.len() - da <= 2 + da_octets + 2 + vp {
            return Err(HuaweiError::InvalidPdu("Offset check failed for: user data len"));
        }
        let sca = if b[0] > 0 {
            match PduAddress::try_from(slice_subrange(b, 0, fo)) {
                Ok(a) => Some(a),
                Err(e) => { return Err(e); },
            }
        } else {
            None
        };
        let da_end = da + 2 + da_octets;
        let destination = match PduAddress::try_from(slice_subrange(b, da, da_end)) {
            Ok(a) => a,
            Err(e) => { return Err(e); },
        };
        let dcs = DataCodingScheme::from(b[da_end + 1]);
        let validity_period = if vp == 1 { b[da_end + 2] } else { 0 };
        let udl = da_end + 2 + vp;
        Ok(Pdu {
            sca,
            first_octet,
            message_id: b[fo + 1],
            destination,
            dcs,
            validity_period,
            user_data: vstd::slice::slice_to_vec(slice_subrange(b, udl + 1, b.len())),
            user_data_len: b[udl],
        })
    }
}

proof fn lemma_type_bits_injective(a: TypeOfNumber, b: TypeOfNumber, x: NumberingPlanIdentification, y: NumberingPlanIdentification)
    ensures
        a.spec_bits() == b.spec_bits() ==> a == b,
        x.spec_bits() == y.spec_bits() ==> x == y,
{
}

/// A phone number that survives the semi-octet form: at least one digit, no
/// more than fit the length octet, none of them 0xF or larger, and not an
/// alphanumeric address.
pub open spec fn address_well_formed(a: PduAddress) -> bool {
    &&& 1 <= a.number.0@.len() <= 255
    &&& forall|i: int| 0 <= i < a.number.0@.len() ==> #[trigger] a.number.0@[i] < 15
    &&& a.type_addr.type_of_number != TypeOfNumber::Gsm
}

/// An SMS-SUBMIT PDU that can be written and read back: well-formed
/// addresses, and no validity period unless the first octet says so.
pub open spec fn submit_well_formed(p: Pdu) -> bool {
    &&& address_well_formed(p.destination)
    &&& p.sca matches Some(a) ==> address_well_formed(a)
    &&& p.first_octet.vpf == VpFieldValidity::Invalid ==> p.validity_period == 0
}

/// Two addresses with the same type and digits.
pub open spec fn same_address(a: PduAddress, b: PduAddress) -> bool {
    a.type_addr == b.type_addr && a.number.0@ == b.number.0@
}

proof fn lemma_address_read_back(a: PduAddress, broken_len: bool)
    requires
        address_well_formed(a),
    ensures
        spec_address_ok(a.spec_bytes(broken_len)),
        forall|q: PduAddress| #[trigger] q.is_read_from(a.spec_bytes(broken_len)) ==> same_address(a, q),
{
    let b = a.spec_bytes(broken_len);
    let d = a.number.0@;
    lemma_address_type_round_trip(a.type_addr);
    assert(b[1] == a.type_addr.spec_octet());
    assert(b.subrange(2, b.len() as int) =~= spec_number_octets(d));
    lemma_phone_number_round_trip(d);
    assert(type_octet_valid(b[1]));
    assert forall|q: PduAddress| #[trigger] q.is_read_from(b) implies same_address(a, q) by {
        lemma_type_bits_injective(
            q.type_addr.type_of_number,
            a.type_addr.type_of_number,
            q.type_addr.numbering_plan_identification,
            a.type_addr.numbering_plan_identification,
        );
    }
}

/// The PDU `q` read from the octets of `p` is `p`: same addresses, and
/// every other field the same.
pub open spec fn same_submit(p: Pdu, q: Pdu) -> bool {
    &&& q.sca is Some <==> p.sca is Some
    &&& q.sca is Some ==> same_address(q.sca->0, p.sca->0)
    &&& q.first_octet == p.first_octet
    &&& q.message_id == p.message_id
    &&& same_address(q.destination, p.destination)
    &&& q.dcs == p.dcs
    &&& q.validity_period == p.validity_period
    &&& q.user_data_len == p.user_data_len
    &&& q.user_data@ == p.user_data@
}

/// The octets written for a well-formed SMS-SUBMIT PDU can be read
/// (`Pdu::parse` succeeds on them), and what is read is the same PDU.
#[verifier::rlimit(80)]
pub proof fn lemma_submit_round_trip(p: Pdu)
    requires
        submit_well_formed(p),
    ensures
        spec_submit_ok(p.spec_sca_bytes() + p.spec_tpdu()),
        forall|q: Pdu| #[trigger] q.is_read_from(p.spec_sca_bytes() + p.spec_tpdu()) ==> same_submit(p, q),
{
    let sb = p.spec_sca_bytes();
    let t = p.spec_tpdu();
    let b = sb + t;
    let fo = sb.len() as int;
    let db = p.destination.spec_bytes(true);
    let n = p.destination.number.0@.len();
    let da = fo + 2;
    let da_end = da + db.len();
    let vp: int = if p.first_octet.vpf != VpFieldValidity::Invalid { 1 } else { 0 };
    let udl = da_end + 2 + vp;
    match p.sca {
        Some(a) => {
            assert(sb[0] as int == sb.len() - 1);
        },
        None => {},
    }
    assert(b[0] as int + 1 == fo);
    assert(b[fo] == p.first_octet.spec_octet());
    assert(b[fo + 1] == p.message_id);
    assert(b[da] == n as u8);
    assert(b[da] as int == n);
    assert(db.len() == 2 + (n + 1) / 2);
    assert(b.subrange(da, da_end) =~= db);
    assert(b[da_end + 1] == p.dcs.spec_octet());
    lemma_first_octet_round_trip(p.first_octet, 0);
    lemma_dcs_encode_decode(p.dcs);
    assert(PduFirstOctet::spec_from(b[fo]) == p.first_octet);
    assert(b[udl] == p.user_data_len);
    assert(b.subrange(udl + 1, b.len() as int) =~= p.user_data@);
    assert(spec_submit_layout(b) == Some((fo, da, da_end, udl)));
    lemma_address_read_back(p.destination, true);
    match p.sca {
        Some(a) => {
            assert(b.subrange(0, fo) =~= sb);
            lemma_address_read_back(a, false);
        },
        None => {},
    }
    if p.first_octet.vpf != VpFieldValidity::Invalid {
        assert(b[da_end + 2] == p.validity_period);
    }
    assert forall|q: Pdu| #[trigger] q.is_read_from(b) implies same_submit(p, q) by {
        assert(q.destination.is_read_from(db));
        match p.sca {
            Some(a) => {
                assert(q.sca->0.is_read_from(sb));
            },
            None => {},
        }
    }
}

} // verus!
