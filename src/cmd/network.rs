//! Network registration, operation mode, PIN and signal quality.
use vstd::prelude::*;
use crate::at::{AtResponsePacket, AtValue, CodeModel, named_value, reply_errors};
use crate::errors::{HuaweiError, HuaweiResult};

verus! {

/// Registration state (`+CREG`).
#[derive(Debug, Clone, Copy, PartialEq, Eq, Structural, PartialOrd, Ord)]
pub enum RegistrationState {
    NotRegisteredAndDisabled,
    RegisteredHome,
    NotRegisteredSearching,
    RegistrationDenied,
    Unknown,
    RegisteredRoaming,
}

impl RegistrationState {
    pub open spec fn spec_code(self) -> u32 {
        match self {
            RegistrationState::NotRegisteredAndDisabled => 0,
            RegistrationState::RegisteredHome => 1,
            RegistrationState::NotRegisteredSearching => 2,
            RegistrationState::RegistrationDenied => 3,
            RegistrationState::Unknown => 4,
            RegistrationState::RegisteredRoaming => 5,
        }
    }

    /// The state with code `i`; other codes are out of range.
    pub fn from_integer(i: u32) -> (r: HuaweiResult<RegistrationState>)
        ensures
            r is Ok <==> i <= 5,
            r matches Ok(s) ==> s.spec_code() == i,
            r matches Err(e) ==> e == HuaweiError::ValueOutOfRange(AtValue::Integer(i)),
    {
        match i {
            0 => Ok(RegistrationState::NotRegisteredAndDisabled),
            1 => Ok(RegistrationState::RegisteredHome),
            2 => Ok(RegistrationState::NotRegisteredSearching),
            3 => Ok(RegistrationState::RegistrationDenied),
            4 => Ok(RegistrationState::Unknown),
            5 => Ok(RegistrationState::RegisteredRoaming),
            _ => Err(HuaweiError::ValueOutOfRange(AtValue::Integer(i))),
        }
    }

    /// Registered, at home or roaming.
    pub fn is_registered(&self) -> (r: bool)
        ensures
            r == (*self == RegistrationState::RegisteredHome || *self == RegistrationState::RegisteredRoaming),
    {
        match *self {
            RegistrationState::RegisteredHome => true,
            RegistrationState::RegisteredRoaming => true,
            _ => false,
        }
    }
}

/// Modem operation mode (`+CFUN`).
#[derive(Debug, Clone, Copy, PartialEq, Eq, Structural, PartialOrd, Ord)]
pub enum ModemOperationMode {
    MinimumFunctionality,
    OnlineMode,
    OfflineMode,
    FtmMode,
    Restart,
    DisableRf,
}

impl ModemOperationMode {
    pub open spec fn spec_code(self) -> u32 {
        match self {
            ModemOperationMode::MinimumFunctionality => 0,
            ModemOperationMode::OnlineMode => 1,
            ModemOperationMode::OfflineMode => 4,
            ModemOperationMode::FtmMode => 5,
            ModemOperationMode::Restart => 6,
            ModemOperationMode::DisableRf => 7,
        }
    }

    /// The mode with code `i`; other codes are out of range.
    pub fn from_integer(i: u32) -> (r: HuaweiResult<ModemOperationMode>)
        ensures
            r is Ok <==> (i <= 1 || 4 <= i <= 7),
            r matches Ok(s) ==> s.spec_code() == i,
            r matches Err(e) ==> e == HuaweiError::ValueOutOfRange(AtValue::Integer(i)),
    {
        match i {
            0 => Ok(ModemOperationMode::MinimumFunctionality),
            1 => Ok(ModemOperationMode::OnlineMode),
            4 => Ok(ModemOperationMode::OfflineMode),
            5 => Ok(ModemOperationMode::FtmMode),
            6 => Ok(ModemOperationMode::Restart),
            7 => Ok(ModemOperationMode::DisableRf),
            _ => Err(HuaweiError::ValueOutOfRange(AtValue::Integer(i))),
        }
    }
}

/// PIN state (`+CPIN`).
#[derive(Debug, Clone, Copy, PartialEq, Eq, Structural)]
pub enum PinState {
    Ready,
    SimPin,
    SimPuk,
    SimPin2,
    SimPuk2,
}

/// One of the PIN state names.
pub open spec fn is_pin_name(t: Seq<char>) -> bool {
    t == "READY"@ || t == "SIM PIN"@ || t == "SIM PUK"@ || t == "SIM PIN2"@ || t == "SIM PUK2"@
}

impl PinState {
    /// The name the modem gives this state.
    pub open spec fn spec_name(self) -> Seq<char> {
        match self {
            PinState::Ready => "READY"@,
            PinState::SimPin => "SIM PIN"@,
            PinState::SimPuk => "SIM PUK"@,
            PinState::SimPin2 => "SIM PIN2"@,
            PinState::SimPuk2 => "SIM PUK2"@,
        }
    }

    /// The state named by `st`: `READY`, `SIM PIN`, `SIM PUK`, `SIM PIN2` or
    /// `SIM PUK2`; any other name is out of range.
    pub fn from_string(st: &str) -> (r: HuaweiResult<PinState>)
        ensures
            r matches Ok(p) ==> p.spec_name() == st@,
            r is Ok <==> is_pin_name(st@),
            r matches Err(e) ==> (e matches HuaweiError::ValueOutOfRange(AtValue::Unknown(t)) && t@ == st@),
    {
        proof {
            reveal_strlit("READY");
            reveal_strlit("SIM PIN");
            reveal_strlit("SIM PUK");
            reveal_strlit("SIM PIN2");
            reveal_strlit("SIM PUK2");
            assert("SIM PIN"@[5] != "SIM PUK"@[5]);
            assert("SIM PIN2"@[5] != "SIM PUK2"@[5]);
            assert("READY"@.len() == 5 && "SIM PIN"@.len() == 7 && "SIM PUK"@.len() == 7);
            assert("SIM PIN2"@.len() == 8 && "SIM PUK2"@.len() == 8);
        }
        if crate::at::str_eq(st, "READY") {
            Ok(PinState::Ready)
        } else if crate::at::str_eq(st, "SIM PIN") {
            Ok(PinState::SimPin)
        } else if crate::at::str_eq(st, "SIM PUK") {
            Ok(PinState::SimPuk)
        } else if crate::at::str_eq(st, "SIM PIN2") {
            Ok(PinState::SimPin2)
        } else if crate::at::str_eq(st, "SIM PUK2") {
            Ok(PinState::SimPuk2)
        } else {
            Err(HuaweiError::ValueOutOfRange(AtValue::Unknown(st.to_owned())))
        }
    }
}

/// Signal quality (`+CSQ`).
#[derive(Debug, Clone, Copy, PartialEq, Eq, Structural)]
pub struct SignalQuality {
    /// Received signal strength indication.
    pub rssi: u32,
    /// Channel bit error rate.
    pub ber: u32,
}

/// Element `i` of a list value, as an integer.
pub(crate) fn integer_item(list: &Vec<AtValue>, i: usize) -> (r: HuaweiResult<u32>)
    ensures
        r is Ok <==> i < list@.len() && list@[i as int] is Integer,
        r matches Ok(n) ==> list@[i as int] == AtValue::Integer(n),
        r matches Err(e) ==> e == HuaweiError::TypeMismatch,
{
    if i >= list.len() {
        return Err(HuaweiError::TypeMismatch);
    }
    match list[i].get_integer() {
        Ok(n) => Ok(*n),
        Err(e) => Err(e),
    }
}

/// The registration state in a reply to `AT+CREG?`: the second element of
/// the `+CREG` list.
pub fn registration_from_packet(pkt: &AtResponsePacket) -> (r: HuaweiResult<RegistrationState>)
    ensures
        r is Ok <==> pkt.status.model() == CodeModel::Okay && (named_value(pkt.responses@, "+CREG"@) matches Some(
            AtValue::Array(v),
        ) && v@.len() > 1 && (v@[1] matches AtValue::Integer(n) && n <= 5)),
        r is Ok ==> (named_value(pkt.responses@, "+CREG"@) matches Some(AtValue::Array(v)) && v@[1]
            == AtValue::Integer(r->Ok_0.spec_code())),
        reply_errors(*pkt, "+CREG"@, r),
        pkt.status.model() == CodeModel::Okay && (named_value(pkt.responses@, "+CREG"@) matches Some(v) && !(
        v matches AtValue::Array(l) && l@.len() > 1 && l@[1] is Integer)) ==> r == Err::<RegistrationState, _>(
            HuaweiError::TypeMismatch,
        ),
        pkt.status.model() == CodeModel::Okay && (named_value(pkt.responses@, "+CREG"@) matches Some(
            AtValue::Array(l),
        ) && l@.len() > 1 && (l@[1] matches AtValue::Integer(k) && k > 5)) ==> r == Err::<RegistrationState, _>(
            HuaweiError::ValueOutOfRange(named_value(pkt.responses@, "+CREG"@)->0->Array_0@[1]),
        ),
{
    let v = match pkt.extract_named_response("+CREG") {
        Ok(v) => v,
        Err(e) => { return Err(e); },
    };
    let list = match v.get_array() {
        Ok(l) => l,
        Err(e) => { return Err(e); },
    };
    let n = match integer_item(list, 1) {
        Ok(n) => n,
        Err(e) => { return Err(e); },
    };
    RegistrationState::from_integer(n)
}

/// The operation mode in a reply to `AT+CFUN?`.
pub fn operation_mode_from_packet(pkt: &AtResponsePacket) -> (r: HuaweiResult<ModemOperationMode>)
    ensures
        r is Ok <==> pkt.status.model() == CodeModel::Okay && (named_value(pkt.responses@, "+CFUN"@) matches Some(
            AtValue::Integer(n),
        ) && (n <= 1 || 4 <= n <= 7)),
        r is Ok ==> named_value(pkt.responses@, "+CFUN"@) == Some(AtValue::Integer(r->Ok_0.spec_code())),
        reply_errors(*pkt, "+CFUN"@, r),
        pkt.status.model() == CodeModel::Okay && (named_value(pkt.responses@, "+CFUN"@) matches Some(v) && !(v is Integer))
            ==> r == Err::<ModemOperationMode, _>(HuaweiError::TypeMismatch),
        pkt.status.model() == CodeModel::Okay && (named_value(pkt.responses@, "+CFUN"@) matches Some(AtValue::Integer(k))
            && !(k <= 1 || 4 <= k <= 7)) ==> r == Err::<ModemOperationMode, _>(
            HuaweiError::ValueOutOfRange(named_value(pkt.responses@, "+CFUN"@)->0),
        ),
{
    let v = match pkt.extract_named_response("+CFUN") {
        Ok(v) => v,
        Err(e) => { return Err(e); },
    };
    match v.get_integer() {
        Ok(n) => ModemOperationMode::from_integer(*n),
        Err(e) => Err(e),
    }
}

/// The PIN state in a reply to `AT+CPIN?`.
pub fn pin_state_from_packet(pkt: &AtResponsePacket) -> (r: HuaweiResult<PinState>)
    ensures
        r is Ok <==> pkt.status.model() == CodeModel::Okay && (named_value(pkt.responses@, "+CPIN"@) matches Some(
            AtValue::Unknown(t),
        ) && is_pin_name(t@)),
        r is Ok ==> (named_value(pkt.responses@, "+CPIN"@) matches Some(AtValue::Unknown(t)) && t@
            == r->Ok_0.spec_name()),
        reply_errors(*pkt, "+CPIN"@, r),
        pkt.status.model() == CodeModel::Okay && (named_value(pkt.responses@, "+CPIN"@) matches Some(v) && !(v is Unknown))
            ==> r == Err::<PinState, _>(HuaweiError::TypeMismatch),
        pkt.status.model() == CodeModel::Okay && (named_value(pkt.responses@, "+CPIN"@) matches Some(AtValue::Unknown(t))
            && !is_pin_name(t@)) ==> (r matches Err(HuaweiError::ValueOutOfRange(AtValue::Unknown(u))) && u@
            == named_value(pkt.responses@, "+CPIN"@)->0->Unknown_0@),
{
    let v = match pkt.extract_named_response("+CPIN") {
        Ok(v) => v,
        Err(e) => { return Err(e); },
    };
    match v.get_unknown() {
        Ok(s) => PinState::from_string(s.as_str()),
        Err(e) => Err(e),
    }
}

/// The signal quality in a reply to `AT+CSQ`: the first two elements of the
/// `+CSQ` list.
pub fn signal_quality_from_packet(pkt: &AtResponsePacket) -> (r: HuaweiResult<SignalQuality>)
    ensures
        r is Ok <==> pkt.status.model() == CodeModel::Okay && (named_value(pkt.responses@, "+CSQ"@) matches Some(
            AtValue::Array(v),
        ) && v@.len() > 1 && v@[0] is Integer && v@[1] is Integer),
        r is Ok ==> (named_value(pkt.responses@, "+CSQ"@) matches Some(AtValue::Array(v)) && v@[0]
            == AtValue::Integer(r->Ok_0.rssi) && v@[1] == AtValue::Integer(r->Ok_0.ber)),
        reply_errors(*pkt, "+CSQ"@, r),
        pkt.status.model() == CodeModel::Okay && (named_value(pkt.responses@, "+CSQ"@) matches Some(v) && !(v matches AtValue::Array(
            l,
        ) && l@.len() > 1 && l@[0] is Integer && l@[1] is Integer)) ==> r == Err::<SignalQuality, _>(
            HuaweiError::TypeMismatch,
        ),
{
    let v = match pkt.extract_named_response("+CSQ") {
        Ok(v) => v,
        Err(e) => { return Err(e); },
    };
    let list = match v.get_array() {
        Ok(l) => l,
        Err(e) => { return Err(e); },
    };
    let rssi = match integer_item(list, 0) {
        Ok(n) => n,
        Err(e) => { return Err(e); },
    };
    let ber = match integer_item(list, 1) {
        Ok(n) => n,
        Err(e) => { return Err(e); },
    };
    Ok(SignalQuality { rssi, ber })
}

} // verus!
