//! Typed SMS-related (`+CMS ERROR`) error codes, from GSM TS 27.005.
use vstd::prelude::*;

verus! {

/// A numeric `+CMS ERROR` code with a known meaning.
#[derive(Debug, Clone, Copy, PartialEq, Eq, Structural, PartialOrd, Ord, Hash)]
pub enum CmsError {
    /// Unassigned (unallocated) number
    UnassignedNumber,
    /// Operatior determined barring
    OperatorDeterminedBarring,
    /// Call barred
    CallBarred,
    /// Short message transfer rejected
    TransferRejected,
    /// Destination out of service
    DestinationOutOfService,
    /// Unidentified subscriber
    UnidentifiedSubscriber,
    /// Facility rejected
    FacilityRejected,
    /// Unknown subscriber
    UnknownSubscriber,
    /// Network out of order
    NetworkOutOfOrder,
    /// Temporary failure
    TemporaryFailure,
    /// Congestion
    Congestion,
    /// Resources unavailable, unspecified
    ResourcesUnavailable,
    /// Requested facility not subscribed
    NotSubscribed,
    /// Requested facility not implemented
    NotImplemented,
    /// Invalid short message transfer reference value
    InvalidReferenceValue,
    /// Invalid message, unspecified
    InvalidMessage,
    /// Invalid mandatory information
    InvalidMandatoryInformation,
    /// Message type non-existent or not implemented
    NonexistentMessageType,
    /// Message not compatible with short message protocol state
    IncompatibleMessage,
    /// Information element non-existent or not implemented
    NonexistentInformationElement,
    /// Protocol error, unspecified
    ProtocolError,
    /// Internetworking, unspecified
    InternetworkingError,
    /// ME failure
    MeFailure,
    /// SMS service of ME reserved
    SmsServiceReserved,
    /// Operation not allowed
    NotAllowed,
    /// Operation not supported
    NotSupported,
    /// Invalid PDU mode parameter
    InvalidPduModeParameter,
    /// Invalid text mode parameter
    InvalidTextModeParameter,
    /// (U)SIM not inserted
    SimNotInserted,
    /// (U)SIM PIN required
    SimPinRequired,
    /// PH-(U)SIM PIN required
    PhSimPinRequired,
    /// (U)SIM failure
    SimFailure,
    /// (U)SIM busy
    SimBusy,
    /// (U)SIM wrong
    SimWrong,
    /// (U)SIM PUK required
    SimPukRequired,
    /// (U)SIM PIN2 required
    SimPin2Required,
    /// (U)SIM PUK2 required
    SimPuk2Required,
    /// Memory failure
    MemoryFailure,
    /// Invalid memory index
    InvalidMemoryIndex,
    /// Memory full
    MemoryFull,
    /// SMSC address unknown
    SmscAddressUnknown,
    /// No network service
    NoNetworkService,
    /// Network timeout
    NetworkTimeout,
    /// No `+CNMA` acknowledgement expected
    NoCnmaAcknowledgementExpected,
    /// Unknown error
    UnknownError,
}

impl CmsError {
    /// The numeric code of this error.
    pub open spec fn spec_code(self) -> u32 {
        match self {
            CmsError::UnassignedNumber => 1,
            CmsError::OperatorDeterminedBarring => 8,
            CmsError::CallBarred => 10,
            CmsError::TransferRejected => 21,
            CmsError::DestinationOutOfService => 27,
            CmsError::UnidentifiedSubscriber => 28,
            CmsError::FacilityRejected => 29,
            CmsError::UnknownSubscriber => 30,
            CmsError::NetworkOutOfOrder => 38,
            CmsError::TemporaryFailure => 41,
            CmsError::Congestion => 42,
            CmsError::ResourcesUnavailable => 47,
            CmsError::NotSubscribed => 50,
            CmsError::NotImplemented => 69,
            CmsError::InvalidReferenceValue => 81,
            CmsError::InvalidMessage => 95,
            CmsError::InvalidMandatoryInformation => 96,
            CmsError::NonexistentMessageType => 97,
            CmsError::IncompatibleMessage => 98,
            CmsError::NonexistentInformationElement => 99,
            CmsError::ProtocolError => 111,
            CmsError::InternetworkingError => 127,
            CmsError::MeFailure => 300,
            CmsError::SmsServiceReserved => 301,
            CmsError::NotAllowed => 302,
            CmsError::NotSupported => 303,
            CmsError::InvalidPduModeParameter => 304,
            CmsError::InvalidTextModeParameter => 305,
            CmsError::SimNotInserted => 310,
            CmsError::SimPinRequired => 311,
            CmsError::PhSimPinRequired => 312,
            CmsError::SimFailure => 313,
            CmsError::SimBusy => 314,
            CmsError::SimWrong => 315,
            CmsError::SimPukRequired => 316,
            CmsError::SimPin2Required => 317,
            CmsError::SimPuk2Required => 318,
            CmsError::MemoryFailure => 320,
            CmsError::InvalidMemoryIndex => 321,
            CmsError::MemoryFull => 322,
            CmsError::SmscAddressUnknown => 330,
            CmsError::NoNetworkService => 331,
            CmsError::NetworkTimeout => 332,
            CmsError::NoCnmaAcknowledgementExpected => 340,
            CmsError::UnknownError => 500,
        }
    }

    pub fn code(self) -> (r: u32)
        ensures
            r == self.spec_code(),
    {
        match self {
            CmsError::UnassignedNumber => 1,
            CmsError::OperatorDeterminedBarring => 8,
            CmsError::CallBarred => 10,
            CmsError::TransferRejected => 21,
            CmsError::DestinationOutOfService => 27,
            CmsError::UnidentifiedSubscriber => 28,
            CmsError::FacilityRejected => 29,
            CmsError::UnknownSubscriber => 30,
            CmsError::NetworkOutOfOrder => 38,
            CmsError::TemporaryFailure => 41,
            CmsError::Congestion => 42,
            CmsError::ResourcesUnavailable => 47,
            CmsError::NotSubscribed => 50,
            CmsError::NotImplemented => 69,
            CmsError::InvalidReferenceValue => 81,
            CmsError::InvalidMessage => 95,
            CmsError::InvalidMandatoryInformation => 96,
            CmsError::NonexistentMessageType => 97,
            CmsError::IncompatibleMessage => 98,
            CmsError::NonexistentInformationElement => 99,
            CmsError::ProtocolError => 111,
            CmsError::InternetworkingError => 127,
            CmsError::MeFailure => 300,
            CmsError::SmsServiceReserved => 301,
            CmsError::NotAllowed => 302,
            CmsError::NotSupported => 303,
            CmsError::InvalidPduModeParameter => 304,
            CmsError::InvalidTextModeParameter => 305,
            CmsError::SimNotInserted => 310,
            CmsError::SimPinRequired => 311,
            CmsError::PhSimPinRequired => 312,
            CmsError::SimFailure => 313,
            CmsError::SimBusy => 314,
            CmsError::SimWrong => 315,
            CmsError::SimPukRequired => 316,
            CmsError::SimPin2Required => 317,
            CmsError::SimPuk2Required => 318,
            CmsError::MemoryFailure => 320,
            CmsError::InvalidMemoryIndex => 321,
            CmsError::MemoryFull => 322,
            CmsError::SmscAddressUnknown => 330,
            CmsError::NoNetworkService => 331,
            CmsError::NetworkTimeout => 332,
            CmsError::NoCnmaAcknowledgementExpected => 340,
            CmsError::UnknownError => 500,
        }
    }

    /// The error with numeric code `c`, if the code is a known one.
    pub open spec fn spec_from_code(c: u32) -> Option<CmsError> {
        match c {
            1 => Some(CmsError::UnassignedNumber),
            8 => Some(CmsError::OperatorDeterminedBarring),
            10 => Some(CmsError::CallBarred),
            21 => Some(CmsError::TransferRejected),
            27 => Some(CmsError::DestinationOutOfService),
            28 => Some(CmsError::UnidentifiedSubscriber),
            29 => Some(CmsError::FacilityRejected),
            30 => Some(CmsError::UnknownSubscriber),
            38 => Some(CmsError::NetworkOutOfOrder),
            41 => Some(CmsError::TemporaryFailure),
            42 => Some(CmsError::Congestion),
            47 => Some(CmsError::ResourcesUnavailable),
            50 => Some(CmsError::NotSubscribed),
            69 => Some(CmsError::NotImplemented),
            81 => Some(CmsError::InvalidReferenceValue),
            95 => Some(CmsError::InvalidMessage),
            96 => Some(CmsError::InvalidMandatoryInformation),
            97 => Some(CmsError::NonexistentMessageType),
            98 => Some(CmsError::IncompatibleMessage),
            99 => Some(CmsError::NonexistentInformationElement),
            111 => Some(CmsError::ProtocolError),
            127 => Some(CmsError::InternetworkingError),
            300 => Some(CmsError::MeFailure),
            301 => Some(CmsError::SmsServiceReserved),
            302 => Some(CmsError::NotAllowed),
            303 => Some(CmsError::NotSupported),
            304 => Some(CmsError::InvalidPduModeParameter),
            305 => Some(CmsError::InvalidTextModeParameter),
            310 => Some(CmsError::SimNotInserted),
            311 => Some(CmsError::SimPinRequired),
            312 => Some(CmsError::PhSimPinRequired),
            313 => Some(CmsError::SimFailure),
            314 => Some(CmsError::SimBusy),
            315 => Some(CmsError::SimWrong),
            316 => Some(CmsError::SimPukRequired),
            317 => Some(CmsError::SimPin2Required),
            318 => Some(CmsError::SimPuk2Required),
            320 => Some(CmsError::MemoryFailure),
            321 => Some(CmsError::InvalidMemoryIndex),
            322 => Some(CmsError::MemoryFull),
            330 => Some(CmsError::SmscAddressUnknown),
            331 => Some(CmsError::NoNetworkService),
            332 => Some(CmsError::NetworkTimeout),
            340 => Some(CmsError::NoCnmaAcknowledgementExpected),
            500 => Some(CmsError::UnknownError),
            _ => None,
        }
    }

    pub fn from_u32(c: u32) -> (r: Option<CmsError>)
        ensures
            r == CmsError::spec_from_code(c),
            r matches Some(e) ==> e.spec_code() == c,
            r is None ==> forall|e: CmsError| e.spec_code() != c,
    {
        match c {
            1 => Some(CmsError::UnassignedNumber),
            8 => Some(CmsError::OperatorDeterminedBarring),
            10 => Some(CmsError::CallBarred),
            21 => Some(CmsError::TransferRejected),
            27 => Some(CmsError::DestinationOutOfService),
            28 => Some(CmsError::UnidentifiedSubscriber),
            29 => Some(CmsError::FacilityRejected),
            30 => Some(CmsError::UnknownSubscriber),
            38 => Some(CmsError::NetworkOutOfOrder),
            41 => Some(CmsError::TemporaryFailure),
            42 => Some(CmsError::Congestion),
            47 => Some(CmsError::ResourcesUnavailable),
            50 => Some(CmsError::NotSubscribed),
            69 => Some(CmsError::NotImplemented),
            81 => Some(CmsError::InvalidReferenceValue),
            95 => Some(CmsError::InvalidMessage),
            96 => Some(CmsError::InvalidMandatoryInformation),
            97 => Some(CmsError::NonexistentMessageType),
            98 => Some(CmsError::IncompatibleMessage),
            99 => Some(CmsError::NonexistentInformationElement),
            111 => Some(CmsError::ProtocolError),
            127 => Some(CmsError::InternetworkingError),
            300 => Some(CmsError::MeFailure),
            301 => Some(CmsError::SmsServiceReserved),
            302 => Some(CmsError::NotAllowed),
            303 => Some(CmsError::NotSupported),
            304 => Some(CmsError::InvalidPduModeParameter),
            305 => Some(CmsError::InvalidTextModeParameter),
            310 => Some(CmsError::SimNotInserted),
            311 => Some(CmsError::SimPinRequired),
            312 => Some(CmsError::PhSimPinRequired),
            313 => Some(CmsError::SimFailure),
            314 => Some(CmsError::SimBusy),
            315 => Some(CmsError::SimWrong),
            316 => Some(CmsError::SimPukRequired),
            317 => Some(CmsError::SimPin2Required),
            318 => Some(CmsError::SimPuk2Required),
            320 => Some(CmsError::MemoryFailure),
            321 => Some(CmsError::InvalidMemoryIndex),
            322 => Some(CmsError::MemoryFull),
            330 => Some(CmsError::SmscAddressUnknown),
            331 => Some(CmsError::NoNetworkService),
            332 => Some(CmsError::NetworkTimeout),
            340 => Some(CmsError::NoCnmaAcknowledgementExpected),
            500 => Some(CmsError::UnknownError),
            _ => None,
        }
    }

    /// A short human-readable description of the error.
    pub fn description(self) -> &'static str {
        match self {
            CmsError::UnassignedNumber => "Unassigned (unallocated) number",
            CmsError::OperatorDeterminedBarring => "Operatior determined barring",
            CmsError::CallBarred => "Call barred",
            CmsError::TransferRejected => "Short message transfer rejected",
            CmsError::DestinationOutOfService => "Destination out of service",
            CmsError::UnidentifiedSubscriber => "Unidentified subscriber",
            CmsError::FacilityRejected => "Facility rejected",
            CmsError::UnknownSubscriber => "Unknown subscriber",
            CmsError::NetworkOutOfOrder => "Network out of order",
            CmsError::TemporaryFailure => "Temporary failure",
            CmsError::Congestion => "Congestion",
            CmsError::ResourcesUnavailable => "Resources unavailable, unspecified",
            CmsError::NotSubscribed => "Requested facility not subscribed",
            CmsError::NotImplemented => "Requested facility not implemented",
            CmsError::InvalidReferenceValue => "Invalid short message transfer reference value",
            CmsError::InvalidMessage => "Invalid message, unspecified",
            CmsError::InvalidMandatoryInformation => "Invalid mandatory information",
            CmsError::NonexistentMessageType => "Message type non-existent or not implemented",
            CmsError::IncompatibleMessage => "Message not compatible with short message protocol state",
            CmsError::NonexistentInformationElement => "Information element non-existent or not implemented",
            CmsError::ProtocolError => "Protocol error, unspecified",
            CmsError::InternetworkingError => "Internetworking, unspecified",
            CmsError::MeFailure => "ME failure",
            CmsError::SmsServiceReserved => "SMS service of ME reserved",
            CmsError::NotAllowed => "Operation not allowed",
            CmsError::NotSupported => "Operation not supported",
            CmsError::InvalidPduModeParameter => "Invalid PDU mode parameter",
            CmsError::InvalidTextModeParameter => "Invalid text mode parameter",
            CmsError::SimNotInserted => "(U)SIM not inserted",
            CmsError::SimPinRequired => "(U)SIM PIN required",
            CmsError::PhSimPinRequired => "PH-(U)SIM PIN required",
            CmsError::SimFailure => "(U)SIM failure",
            CmsError::SimBusy => "(U)SIM busy",
            CmsError::SimWrong => "(U)SIM wrong",
            CmsError::SimPukRequired => "(U)SIM PUK required",
            CmsError::SimPin2Required => "(U)SIM PIN2 required",
            CmsError::SimPuk2Required => "(U)SIM PUK2 required",
            CmsError::MemoryFailure => "Memory failure",
            CmsError::InvalidMemoryIndex => "Invalid memory index",
            CmsError::MemoryFull => "Memory full",
            CmsError::SmscAddressUnknown => "SMSC address unknown",
            CmsError::NoNetworkService => "No network service",
            CmsError::NetworkTimeout => "Network timeout",
            CmsError::NoCnmaAcknowledgementExpected => "No `+CNMA` acknowledgement expected",
            CmsError::UnknownError => "Unknown error",
        }
    }
}

} // verus!
