use huawei_modem::at::{AtCommand, AtResponse, AtResponsePacket, AtResultCode, AtValue};
use huawei_modem::cmd::network::{
    pin_state_from_packet, registration_from_packet, signal_quality_from_packet, PinState, RegistrationState,
};
use huawei_modem::cmd::sms::{
    del_sms_command, list_sms_from_packet, new_message_indications_command, send_sms_pdu_command,
    DeletionOptions, MessageStatus, NewMessageNotification, NewMessageStorage,
};
use huawei_modem::errors::HuaweiError;
use huawei_modem::gsm_encoding::GsmMessageData;
use huawei_modem::parse::parse_response_line;
use huawei_modem::pdu::{Pdu, PduAddress};

fn line(s: &str) -> AtResponse {
    parse_response_line(s.as_bytes()).unwrap()
}

#[test]
fn registration() {
    let pkt = AtResponsePacket { responses: vec![line("+CREG: 0,5")], status: AtResultCode::Okay };
    let r = registration_from_packet(&pkt).unwrap();
    assert_eq!(r, RegistrationState::RegisteredRoaming);
    assert!(r.is_registered());
    let bad = AtResponsePacket { responses: vec![line("+CREG: 0,9")], status: AtResultCode::Okay };
    assert!(matches!(registration_from_packet(&bad), Err(HuaweiError::ValueOutOfRange(AtValue::Integer(9)))));
    assert!(!RegistrationState::NotRegisteredSearching.is_registered());
}

#[test]
fn pin_and_signal() {
    let pkt = AtResponsePacket { responses: vec![line("+CPIN: SIM PIN")], status: AtResultCode::Okay };
    assert_eq!(pin_state_from_packet(&pkt).unwrap(), PinState::SimPin);
    assert!(PinState::from_string("SIM PIN3").is_err());
    let pkt = AtResponsePacket { responses: vec![line("+CSQ: 17,99")], status: AtResultCode::Okay };
    let q = signal_quality_from_packet(&pkt).unwrap();
    assert_eq!((q.rssi, q.ber), (17, 99));
}

#[test]
fn listing() {
    let pkt = AtResponsePacket {
        responses: vec![
            line("+CMGL: 3,1,,37"),
            line("07911326040000F0040B911346610089F60000208062917314080CC8F71D14969741F977FD07"),
        ],
        status: AtResultCode::Okay,
    };
    let msgs = list_sms_from_packet(&pkt).unwrap();
    assert_eq!(msgs.len(), 1);
    assert_eq!(msgs[0].index, 3);
    assert_eq!(msgs[0].status, MessageStatus::ReceivedRead);
    assert_eq!(msgs[0].pdu.get_message_data().decode_message().unwrap().text, "How are you?");
    let orphan = AtResponsePacket { responses: vec![line("0791")], status: AtResultCode::Okay };
    assert!(matches!(list_sms_from_packet(&orphan), Err(HuaweiError::TypeMismatch)));
}

#[test]
fn command_builders() {
    let c = new_message_indications_command(NewMessageNotification::SendDirectlyOrBuffer, NewMessageStorage::StoreAndNotify);
    assert_eq!(c.to_string(), "AT+CNMI=2,1");
    assert_eq!(del_sms_command(DeletionOptions::Indexed(4)).to_string(), "AT+CMGD=4,0");
    assert_eq!(del_sms_command(DeletionOptions::DeleteAll).to_string(), "AT+CMGD=0,4");
    let pdu = Pdu::make_simple_message(PduAddress::from_str("+447700900123"), GsmMessageData::encode_message("hello")[0].clone());
    match send_sms_pdu_command(&pdu) {
        AtCommand::Text { text, expected } => {
            assert_eq!(text, "AT+CMGS=19\n0011000C9144770009103200000005E8329BFD06\u{1A}");
            assert_eq!(expected, vec!["+CMGS".to_string()]);
        }
        _ => panic!("not a text command"),
    }
}

#[test]
fn listing_errors() {
    let failed = AtResponsePacket { responses: vec![], status: AtResultCode::CmsError(huawei_modem::error_codes::CmsError::MemoryFailure) };
    assert!(matches!(list_sms_from_packet(&failed), Err(HuaweiError::AtError(_))));
    let bad_status = AtResponsePacket { responses: vec![line("+CMGL: 1,9,,20")], status: AtResultCode::Okay };
    assert!(matches!(list_sms_from_packet(&bad_status), Err(HuaweiError::ValueOutOfRange(AtValue::Integer(9)))));
    let bad_hex = AtResponsePacket { responses: vec![line("+CMGL: 1,0,,20"), line("07ZZ")], status: AtResultCode::Okay };
    assert_eq!(list_sms_from_packet(&bad_hex).unwrap_err(), HuaweiError::InvalidPdu("invalid hex string"));
    let bad_pdu = AtResponsePacket { responses: vec![line("+CMGL: 1,0,,20"), line("0791")], status: AtResultCode::Okay };
    assert!(matches!(list_sms_from_packet(&bad_pdu), Err(HuaweiError::InvalidPdu(_))));
    let missing = AtResponsePacket { responses: vec![], status: AtResultCode::Okay };
    assert!(matches!(registration_from_packet(&missing), Err(HuaweiError::ExpectedResponse(_))));
}
