//! SMS commands: message indications, service centre, listing, deleting
//! and sending messages.
use vstd::prelude::*;
use crate::at::{AtCommand, AtResponse, AtResponsePacket, AtValue, CodeModel, ValueModel, decimal_text, named_value, push_decimal, reply_errors};
use crate::errors::{HuaweiError, HuaweiResult};
use crate::pdu::{AddressType, DeliverPdu, HexData, Pdu, spec_deliver_ok, spec_hex_decode};
use vstd::utf8::encode_utf8;
use crate::text::{push_char, push_str};
use crate::cmd::network::integer_item;

verus! {

/// Storage status of a message (`+CMGL`).
#[derive(Debug, Clone, Copy, PartialEq, Eq, Structural, PartialOrd, Ord)]
pub enum MessageStatus {
    ReceivedUnread,
    ReceivedRead,
    StoredUnsent,
    StoredSent,
    All,
}

impl MessageStatus {
    pub open spec fn spec_code(self) -> u32 {
        match self {
            MessageStatus::ReceivedUnread => 0,
            MessageStatus::ReceivedRead => 1,
            MessageStatus::StoredUnsent => 2,
            MessageStatus::StoredSent => 3,
            MessageStatus::All => 4,
        }
    }

    pub fn code(self) -> (r: u32)
        ensures
            r == self.spec_code(),
    {
        match self {
            MessageStatus::ReceivedUnread => 0,
            MessageStatus::ReceivedRead => 1,
            MessageStatus::StoredUnsent => 2,
            MessageStatus::StoredSent => 3,
            MessageStatus::All => 4,
        }
    }

    /// The status with code `i`; other codes are out of range.
    pub fn from_integer(i: u32) -> (r: HuaweiResult<MessageStatus>)
        ensures
            r is Ok <==> i <= 4,
            r matches Ok(s) ==> s.spec_code() == i,
            r matches Err(e) ==> e == HuaweiError::ValueOutOfRange(AtValue::Integer(i)),
    {
        match i {
            0 => Ok(MessageStatus::ReceivedUnread),
            1 => Ok(MessageStatus::ReceivedRead),
            2 => Ok(MessageStatus::StoredUnsent),
            3 => Ok(MessageStatus::StoredSent),
            4 => Ok(MessageStatus::All),
            _ => Err(HuaweiError::ValueOutOfRange(AtValue::Integer(i))),
        }
    }
}

/// Whether new message indications go to the terminal (`+CNMI` mode).
#[derive(Debug, Clone, Copy, PartialEq, Eq, Structural, PartialOrd, Ord)]
pub enum NewMessageNotification {
    BufferInMe,
    SendDirectlyOrDiscard,
    SendDirectlyOrBuffer,
}

impl NewMessageNotification {
    pub open spec fn spec_code(self) -> u32 {
        match self {
            NewMessageNotification::BufferInMe => 0,
            NewMessageNotification::SendDirectlyOrDiscard => 1,
            NewMessageNotification::SendDirectlyOrBuffer => 2,
        }
    }

    pub fn code(self) -> (r: u32)
        ensures
            r == self.spec_code(),
    {
        match self {
            NewMessageNotification::BufferInMe => 0,
            NewMessageNotification::SendDirectlyOrDiscard => 1,
            NewMessageNotification::SendDirectlyOrBuffer => 2,
        }
    }
}

/// How new messages are stored and indicated (`+CNMI` mt).
#[derive(Debug, Clone, Copy, PartialEq, Eq, Structural, PartialOrd, Ord)]
pub enum NewMessageStorage {
    RouteNothing,
    StoreAndNotify,
    SendDirectly,
    StoreAndDiscardNotification,
}

impl NewMessageStorage {
    pub open spec fn spec_code(self) -> u32 {
        match self {
            NewMessageStorage::RouteNothing => 0,
            NewMessageStorage::StoreAndNotify => 1,
            NewMessageStorage::SendDirectly => 2,
            NewMessageStorage::StoreAndDiscardNotification => 3,
        }
    }

    pub fn code(self) -> (r: u32)
        ensures
            r == self.spec_code(),
    {
        match self {
            NewMessageStorage::RouteNothing => 0,
            NewMessageStorage::StoreAndNotify => 1,
            NewMessageStorage::SendDirectly => 2,
            NewMessageStorage::StoreAndDiscardNotification => 3,
        }
    }
}

/// Which messages to delete (`+CMGD`).
#[derive(Debug, Clone, Copy, PartialEq, Eq, Structural, PartialOrd, Ord)]
pub enum DeletionOptions {
    /// The message at this index.
    Indexed(u32),
    DeleteRead,
    DeleteReadAndSent,
    DeleteReadAndOutgoing,
    DeleteAll,
}

impl DeletionOptions {
    /// The index and deletion flag sent for these options.
    pub open spec fn spec_args(self) -> (u32, u32) {
        match self {
            DeletionOptions::Indexed(i) => (i, 0),
            DeletionOptions::DeleteRead => (0, 1),
            DeletionOptions::DeleteReadAndSent => (0, 2),
            DeletionOptions::DeleteReadAndOutgoing => (0, 3),
            DeletionOptions::DeleteAll => (0, 4),
        }
    }
}

/// A message from a listing.
#[derive(Debug, Clone)]
pub struct SmsMessage {
    pub status: MessageStatus,
    /// Index in the modem's memory.
    pub index: u32,
    /// The PDU as listed.
    pub raw_pdu: Vec<u8>,
    pub pdu: DeliverPdu,
}

/// `AT<param>=<value>`.
fn equals(param: &str, value: AtValue) -> (r: AtCommand)
    ensures
        r matches AtCommand::Equals { param: p, value: v } && p@ == param@ && v == value,
{
    AtCommand::Equals { param: param.to_owned(), value }
}

/// `AT+CNMI=<mode>,<mt>`.
pub fn new_message_indications_command(mode: NewMessageNotification, mt: NewMessageStorage) -> (r: AtCommand)
    ensures
        r matches AtCommand::Equals { param, value } && param@ == "+CNMI"@ && value.model() == ValueModel::Array(
            seq![ValueModel::Integer(mode.spec_code()), ValueModel::Integer(mt.spec_code())],
        ),
{
    let v = vec![AtValue::Integer(mode.code()), AtValue::Integer(mt.code())];
    proof {
        crate::parse::lemma_models_of(v@);
        assert(crate::at::models_of(v@) =~= seq![ValueModel::Integer(mode.spec_code()), ValueModel::Integer(mt.spec_code())]);
    }
    equals("+CNMI", AtValue::Array(v))
}

/// `AT+CSCA="<sca>"[,<type>]`.
pub fn smsc_addr_command(sca: String, tosca: Option<AddressType>) -> (r: AtCommand)
    ensures
        r matches AtCommand::Equals { param, value } && param@ == "+CSCA"@ && value.model() == ValueModel::Array(
            match tosca {
                Some(t) => seq![ValueModel::Str(sca@), ValueModel::Integer(t.spec_octet() as u32)],
                None => seq![ValueModel::Str(sca@)],
            },
        ),
{
    let ghost s = sca@;
    let mut arr = vec![AtValue::String(sca)];
    if let Some(t) = tosca {
        let b: u8 = t.into_u8();
        arr.push(AtValue::Integer(b as u32));
    }
    proof {
        crate::parse::lemma_models_of(arr@);
        assert(crate::at::models_of(arr@) =~= match tosca {
            Some(t) => seq![ValueModel::Str(s), ValueModel::Integer(t.spec_octet() as u32)],
            None => seq![ValueModel::Str(s)],
        });
    }
    equals("+CSCA", AtValue::Array(arr))
}

/// `AT+CMGD=<index>,<flag>`.
pub fn del_sms_command(del: DeletionOptions) -> (r: AtCommand)
    ensures
        r matches AtCommand::Equals { param, value } && param@ == "+CMGD"@ && value.model() == ValueModel::Array(
            seq![ValueModel::Integer(del.spec_args().0), ValueModel::Integer(del.spec_args().1)],
        ),
{
    let (index, flag): (u32, u32) = match del {
        DeletionOptions::Indexed(i) => (i, 0),
        DeletionOptions::DeleteRead => (0, 1),
        DeletionOptions::DeleteReadAndSent => (0, 2),
        DeletionOptions::DeleteReadAndOutgoing => (0, 3),
        DeletionOptions::DeleteAll => (0, 4),
    };
    let v = vec![AtValue::Integer(index), AtValue::Integer(flag)];
    proof {
        crate::parse::lemma_models_of(v@);
        assert(crate::at::models_of(v@) =~= seq![ValueModel::Integer(index), ValueModel::Integer(flag)]);
    }
    equals("+CMGD", AtValue::Array(v))
}

/// `AT+CMGL=<status>`.
pub fn list_sms_command(status: MessageStatus) -> (r: AtCommand)
    ensures
        r matches AtCommand::Equals { param, value } && param@ == "+CMGL"@ && value == AtValue::Integer(
            status.spec_code(),
        ),
{
    equals("+CMGL", AtValue::Integer(status.code()))
}

/// `AT+CMGF=<1 for text mode, 0 for PDU mode>`.
pub fn sms_textmode_command(text: bool) -> (r: AtCommand)
    ensures
        r matches AtCommand::Equals { param, value } && param@ == "+CMGF"@ && value == AtValue::Integer(
            if text { 1 } else { 0 },
        ),
{
    equals("+CMGF", AtValue::Integer(if text { 1 } else { 0 }))
}

/// A raw `AT+CMGS` command that expects a `+CMGS` reply.
fn cmgs_text(text: String) -> (r: AtCommand)
    ensures
        r matches AtCommand::Text { text: t, expected } && t@ == text@ && expected@.len() == 1
            && expected@[0]@ == "+CMGS"@,
{
    AtCommand::Text { text, expected: vec!["+CMGS".to_owned()] }
}

/// `AT+CMGS="<to>"`, a newline, the message and Ctrl-Z (text mode).
pub fn send_sms_textmode_command(to: &str, msg: &str) -> (r: AtCommand)
    ensures
        r matches AtCommand::Text { text, expected } && text@ == "AT+CMGS=\""@ + to@ + seq!['"', '\n'] + msg@
            + seq!['\u{1A}'] && expected@.len() == 1 && expected@[0]@ == "+CMGS"@,
{
    let mut text = String::new();
    push_str(&mut text, "AT+CMGS=\"");
    push_str(&mut text, to);
    push_char(&mut text, '"');
    push_char(&mut text, '\n');
    push_str(&mut text, msg);
    push_char(&mut text, '\u{1A}');
    assert(text@ =~= "AT+CMGS=\""@ + to@ + seq!['"', '\n'] + msg@ + seq!['\u{1A}']);
    cmgs_text(text)
}

/// `AT+CMGS=<TPDU length>`, a newline, the PDU in upper-case hexadecimal
/// and Ctrl-Z (PDU mode).
pub fn send_sms_pdu_command(pdu: &Pdu) -> (r: AtCommand)
    ensures
        r matches AtCommand::Text { text, expected } && text@ == "AT+CMGS="@ + decimal_text(pdu.spec_tpdu().len())
            + seq!['\n'] + crate::pdu::spec_hex_text(pdu.spec_sca_bytes() + pdu.spec_tpdu()) + seq!['\u{1A}']
            && expected@.len() == 1 && expected@[0]@ == "+CMGS"@,
{
    let (data, len) = pdu.as_bytes();
    let hex = HexData(data.as_slice()).to_hex_string();
    let mut text = String::new();
    push_str(&mut text, "AT+CMGS=");
    push_decimal(&mut text, len);
    push_char(&mut text, '\n');
    push_str(&mut text, hex.as_str());
    push_char(&mut text, '\u{1A}');
    assert(text@ =~= "AT+CMGS="@ + decimal_text(pdu.spec_tpdu().len()) + seq!['\n'] + crate::pdu::spec_hex_text(
        pdu.spec_sca_bytes() + pdu.spec_tpdu(),
    ) + seq!['\u{1A}']);
    cmgs_text(text)
}

/// The message reference in a reply to `AT+CMGS`.
pub fn message_reference_from_packet(pkt: &AtResponsePacket) -> (r: HuaweiResult<u32>)
    ensures
        r is Ok <==> pkt.status.model() == CodeModel::Okay && named_value(pkt.responses@, "+CMGS"@) is Some
            && named_value(pkt.responses@, "+CMGS"@)->0 is Integer,
        r is Ok ==> named_value(pkt.responses@, "+CMGS"@) == Some(AtValue::Integer(r->Ok_0)),
        reply_errors(*pkt, "+CMGS"@, r),
        pkt.status.model() == CodeModel::Okay && (named_value(pkt.responses@, "+CMGS"@) matches Some(v) && !(v is Integer))
            ==> r == Err::<u32, _>(HuaweiError::TypeMismatch),
{
    let v = match pkt.extract_named_response("+CMGS") {
        Ok(v) => v,
        Err(e) => { return Err(e); },
    };
    match v.get_integer() {
        Ok(n) => Ok(*n),
        Err(e) => Err(e),
    }
}

/// Why a `+CMGL` reply cannot be listed.
pub enum ListingError {
    /// A `+CMGL` value is not a list starting with two integers, or a PDU
    /// line comes with no `+CMGL` line before it.
    TypeMismatch,
    /// A `+CMGL` status code is not a known one.
    ValueOutOfRange(u32),
    /// A PDU line is not hexadecimal text.
    BadHex,
    /// A PDU line does not hold a readable SMS-DELIVER PDU.
    BadPdu,
}

/// `e` is the error that stands for `le`.
pub open spec fn is_listing_error(e: HuaweiError, le: ListingError) -> bool {
    match le {
        ListingError::TypeMismatch => e == HuaweiError::TypeMismatch,
        ListingError::ValueOutOfRange(n) => e == HuaweiError::ValueOutOfRange(AtValue::Integer(n)),
        ListingError::BadHex => e == HuaweiError::InvalidPdu("invalid hex string"),
        ListingError::BadPdu => e is InvalidPdu,
    }
}

/// The index and status code of a `+CMGL` line's value: its first two
/// elements, integers, the status code a known one.
pub open spec fn cmgl_entry(v: AtValue) -> Result<(u32, u32), ListingError> {
    match v {
        AtValue::Array(l) => if l@.len() >= 1 && l@[0] is Integer {
            if l@.len() >= 2 && l@[1] is Integer {
                let i = l@[0]->Integer_0;
                let n = l@[1]->Integer_0;
                if n <= 4 { Ok((i, n)) } else { Err(ListingError::ValueOutOfRange(n)) }
            } else {
                Err(ListingError::TypeMismatch)
            }
        } else {
            Err(ListingError::TypeMismatch)
        },
        _ => Err(ListingError::TypeMismatch),
    }
}

/// The messages listed by the reply lines `rs`, as index, status code and
/// PDU octets: each `+CMGL` line is paired with the next non-empty unknown
/// line, which holds a readable SMS-DELIVER PDU in hexadecimal; `cur` is the
/// `+CMGL` line waiting for its PDU. The first line that breaks these rules
/// gives the error.
pub open spec fn spec_listing(rs: Seq<AtResponse>, cur: Option<(u32, u32)>) -> Result<Seq<(u32, u32, Seq<u8>)>, ListingError>
    decreases rs.len(),
{
    if rs.len() == 0 {
        Ok(Seq::empty())
    } else {
        let rest = rs.drop_first();
        match rs[0] {
            AtResponse::InformationResponse { param, response } => if param@ == "+CMGL"@ {
                match cmgl_entry(response) {
                    Ok(c) => spec_listing(rest, Some(c)),
                    Err(e) => Err(e),
                }
            } else {
                spec_listing(rest, cur)
            },
            AtResponse::Unknown(st) => if st@.len() == 0 {
                spec_listing(rest, cur)
            } else {
                match cur {
                    None => Err(ListingError::TypeMismatch),
                    Some((i, n)) => match spec_hex_decode(encode_utf8(st@)) {
                        None => Err(ListingError::BadHex),
                        Some(h) => if spec_deliver_ok(h) {
                            match spec_listing(rest, None) {
                                Ok(l) => Ok(seq![(i, n, h)] + l),
                                Err(e) => Err(e),
                            }
                        } else {
                            Err(ListingError::BadPdu)
                        },
                    },
                }
            },
            _ => spec_listing(rest, cur),
        }
    }
}

/// The listing records of the messages `v`.
pub open spec fn message_records(v: Seq<SmsMessage>) -> Seq<(u32, u32, Seq<u8>)> {
    Seq::new(v.len(), |i: int| (v[i].index, v[i].status.spec_code(), v[i].raw_pdu@))
}

/// The messages in a reply to `AT+CMGL`: each `+CMGL: <index>,<status>,...`
/// line is paired with the next non-empty unknown line, which holds the PDU
/// in hexadecimal.
pub fn list_sms_from_packet(pkt: &AtResponsePacket) -> (r: HuaweiResult<Vec<SmsMessage>>)
    ensures
        r is Ok <==> pkt.status.model() == CodeModel::Okay && spec_listing(pkt.responses@, None) is Ok,
        r matches Ok(v) ==> spec_listing(pkt.responses@, None) == Ok::<_, ListingError>(message_records(v@)),
        pkt.status.model() != CodeModel::Okay ==> (r matches Err(HuaweiError::AtError(c)) && c.model()
            == pkt.status.model()),
        pkt.status.model() == CodeModel::Okay ==> (spec_listing(pkt.responses@, None) matches Err(le) ==> (
        r matches Err(e) && is_listing_error(e, le))),
        r matches Ok(v) ==> forall|i: int| 0 <= i < v@.len() ==> (#[trigger] v@[i]).pdu.is_read_from(v@[i].raw_pdu@),
{
    match pkt.assert_ok() {
        Ok(()) => {},
        Err(e) => { return Err(e); },
    }
    let mut cur: Option<(u32, MessageStatus)> = None;
    let mut ret: Vec<SmsMessage> = Vec::new();
    let mut i: usize = 0;
    let ghost rs = pkt.responses@;
    proof {
        assert(rs.subrange(0, rs.len() as int) == rs);
        match spec_listing(rs, None) {
            Ok(l) => { assert(message_records(ret@) + l =~= l); },
            Err(_) => {},
        }
    }
    while i < pkt.responses.len()
        invariant
            rs == pkt.responses@,
            pkt.status.model() == CodeModel::Okay,
            i <= rs.len(),
            spec_listing(rs, None) == match spec_listing(rs.subrange(i as int, rs.len() as int), match cur {
                Some((x, s)) => Some((x, s.spec_code())),
                None => None,
            }) {
                Ok(l) => Ok(message_records(ret@) + l),
                Err(e) => Err(e),
            },
            forall|j: int| 0 <= j < ret@.len() ==> (#[trigger] ret@[j]).pdu.is_read_from(ret@[j].raw_pdu@),
        decreases rs.len() - i,
    {
        let ghost tail = rs.subrange(i as int, rs.len() as int);
        assert(tail[0] == rs[i as int]);
        assert(tail.drop_first() == rs.subrange(i + 1, rs.len() as int));
        match &pkt.responses[i] {
            AtResponse::InformationResponse { param, response } => {
                if crate::at::str_eq(param.as_str(), "+CMGL") {
                    let list = match response.get_array() {
                        Ok(l) => l,
                        Err(e) => { return Err(e); },
                    };
                    let index = match integer_item(list, 0) {
                        Ok(n) => n,
                        Err(e) => { return Err(e); },
                    };
                    let stat = match integer_item(list, 1) {
                        Ok(n) => n,
                        Err(e) => { return Err(e); },
                    };
                    let stat = match MessageStatus::from_integer(stat) {
                        Ok(s) => s,
                        Err(e) => { return Err(e); },
                    };
                    cur = Some((index, stat));
                }
            },
            AtResponse::Unknown(st) => {
                if st.as_str().unicode_len() > 0 {
                    let (index, status) = match cur {
                        Some(c) => c,
                        None => { return Err(HuaweiError::TypeMismatch); },
                    };
                    cur = None;
                    let hex = match HexData::decode(st.as_str()) {
                        Ok(h) => h,
                        Err(e) => { return Err(e); },
                    };
                    let pdu = match DeliverPdu::try_from(hex.as_slice()) {
                        Ok(p) => p,
                        Err(e) => { return Err(e); },
                    };
                    let ghost before = ret@;
                    ret.push(SmsMessage { index, status, raw_pdu: hex, pdu });
                    proof {
                        match spec_listing(rs.subrange(i + 1, rs.len() as int), None) {
                            Ok(l) => {
                                assert(message_records(ret@) =~= message_records(before).push(
                                    (index, status.spec_code(), ret@.last().raw_pdu@),
                                ));
                                assert(message_records(ret@) + l =~= message_records(before) + (seq![
                                    (index, status.spec_code(), ret@.last().raw_pdu@),
                                ] + l));
                            },
                            Err(_) => {},
                        }
                    }
                }
            },
            _ => {},
        }
        i += 1;
    }
    proof {
        assert(rs.subrange(rs.len() as int, rs.len() as int) =~= Seq::<AtResponse>::empty());
        assert(message_records(ret@) + Seq::<(u32, u32, Seq<u8>)>::empty() =~= message_records(ret@));
    }
    Ok(ret)
}

} // verus!
