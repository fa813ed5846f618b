use huawei_modem::gsm_encoding::GsmMessageData;
use huawei_modem::pdu::{
    AddressType, DataCodingScheme, DeliverPdu, HexData, MessageEncoding, NumberingPlanIdentification,
    Pdu, PduAddress, PduFirstOctet, PhoneNumber, TypeOfNumber, reverse_byte,
};

#[test]
fn destination_address_bytes() {
    let addr = PduAddress::from_str("+447700900123");
    assert_eq!(addr.type_addr.type_of_number, TypeOfNumber::International);
    assert_eq!(
        addr.as_bytes(true),
        vec![12, 0x91, 0x44, 0x77, 0x00, 0x09, 0x10, 0x32]
    );
    assert_eq!(addr.as_bytes(false)[0], 7);
    assert_eq!(addr.to_display_string(), "+447700900123");
}

#[test]
fn national_address_text() {
    let addr = PduAddress::from_str("07700 900123");
    assert_eq!(addr.type_addr.type_of_number, TypeOfNumber::Unknown);
    assert_eq!(addr.number.0, vec![0, 7, 7, 0, 0, 9, 0, 0, 1, 2, 3]);
    assert_eq!(addr.to_display_string(), "07700900123");
}

#[test]
fn simple_submit_bytes() {
    let addr = PduAddress::from_str("+447700900123");
    let parts = GsmMessageData::encode_message("hello");
    assert_eq!(parts.len(), 1);
    let pdu = Pdu::make_simple_message(addr, parts[0].clone());
    let (bytes, tpdu_len) = pdu.as_bytes();
    assert_eq!(
        bytes,
        vec![
            0x00, 0x11, 0x00, 0x0C, 0x91, 0x44, 0x77, 0x00, 0x09, 0x10, 0x32, 0x00, 0x00, 0x00, 0x05,
            0xE8, 0x32, 0x9B, 0xFD, 0x06
        ]
    );
    assert_eq!(tpdu_len, bytes.len() - 1);
}

#[test]
fn submit_with_service_centre() {
    let mut pdu = Pdu::make_simple_message(
        PduAddress::from_str("+447700900123"),
        GsmMessageData::encode_message("hi")[0].clone(),
    );
    pdu.set_sca(PduAddress::from_str("+447785016005"));
    let (bytes, tpdu_len) = pdu.as_bytes();
    assert_eq!(&bytes[..9], &[0x07, 0x91, 0x44, 0x77, 0x58, 0x10, 0x06, 0x50, 0x11]);
    assert_eq!(tpdu_len, bytes.len() - 8);
}

#[test]
fn phone_number_round_trip() {
    let digits = vec![4, 4, 7, 7, 0, 0, 9, 0, 0, 1, 2, 3];
    let n = PhoneNumber(digits.clone());
    assert_eq!(n.as_bytes(), vec![0x44, 0x77, 0x00, 0x09, 0x10, 0x32]);
    assert_eq!(PhoneNumber::from(&n.as_bytes()[..]).0, digits);
    let odd = vec![1, 2, 3];
    assert_eq!(PhoneNumber::from(&PhoneNumber(odd.clone()).as_bytes()[..]).0, odd);
    assert_eq!(PhoneNumber::from(&[][..]).0, Vec::<u8>::new());
}

#[test]
fn dcs_round_trip_all_octets() {
    for b in 0..=255u8 {
        let d = DataCodingScheme::from(b);
        assert_eq!(DataCodingScheme::from(d.into_u8()), d);
    }
    assert_eq!(DataCodingScheme::from(0x08).encoding(), MessageEncoding::Ucs2);
    assert_eq!(DataCodingScheme::from(0xF0).encoding(), MessageEncoding::EightBit);
    assert_eq!(DataCodingScheme::from(0xF5).encoding(), MessageEncoding::Gsm7Bit);
    assert_eq!(DataCodingScheme::from(0x45), DataCodingScheme::Reserved);
    assert_eq!(DataCodingScheme::Reserved.into_u8(), 0x45);
}

#[test]
fn first_octet_round_trip_all_octets() {
    for b in 0..=255u8 {
        assert_eq!(PduFirstOctet::from(b).into_u8(), b);
    }
}

#[test]
fn reverse_byte_sweep() {
    assert_eq!(reverse_byte(0x21), 12);
    assert_eq!(reverse_byte(0x90), 9);
    for b in 0..=255u8 {
        assert_eq!(reverse_byte(b) as u32, (b as u32 & 0x0F) * 10 + (b as u32 >> 4));
    }
}

#[test]
fn address_type_octets() {
    assert_eq!(AddressType::default().into_u8(), 0x91);
    let t = AddressType::try_from(0x81).unwrap();
    assert_eq!(t.type_of_number, TypeOfNumber::Unknown);
    assert_eq!(t.numbering_plan_identification, NumberingPlanIdentification::IsdnTelephone);
    assert!(AddressType::try_from(0x92).is_err());
    assert!(AddressType::try_from(0xC1).is_err());
}

#[test]
fn hex_round_trip() {
    assert_eq!(HexData(&[0x07, 0x91, 0xAB]).to_hex_string(), "0791AB");
    assert_eq!(HexData::decode("0791ab").unwrap(), vec![0x07, 0x91, 0xAB]);
    assert_eq!(HexData::decode("F").unwrap(), vec![0x0F]);
    assert!(HexData::decode("0G").is_err());
}

const DELIVER: &str = "07911326040000F0040B911346610089F60000208062917314080CC8F71D14969741F977FD07";

#[test]
fn deliver_pdu_parse() {
    let bytes = HexData::decode(DELIVER).unwrap();
    let pdu = DeliverPdu::try_from(&bytes).unwrap();
    let sca = pdu.sca.clone().unwrap();
    assert_eq!(sca.to_display_string(), "+31624000000");
    assert_eq!(pdu.originating_address.to_display_string(), "+31641600986");
    assert_eq!(pdu.scts.year, 2);
    assert_eq!(pdu.scts.month, 8);
    assert_eq!(pdu.scts.day, 26);
    assert_eq!(pdu.scts.hour, 19);
    assert_eq!(pdu.scts.minute, 37);
    assert_eq!(pdu.scts.second, 41);
    assert_eq!(pdu.user_data_len, 12);
    let text = pdu.get_message_data().decode_message().unwrap();
    assert_eq!(text.text, "How are you?");
    assert!(text.udh.is_none());
}

#[test]
fn deliver_pdu_truncated() {
    let bytes = HexData::decode(DELIVER).unwrap();
    assert!(DeliverPdu::try_from(&[]).is_err());
    assert!(DeliverPdu::try_from(&bytes[..26]).is_err());
    assert!(DeliverPdu::try_from(&bytes[..27]).is_ok());
}

#[test]
fn alphanumeric_sender() {
    let bytes = vec![
        0x00, 0x04, 0x0A, 0xD0, 0xC8, 0x32, 0x9B, 0xFD, 0x06, 0x00, 0x00, 0x21, 0x30, 0x11, 0x21, 0x43, 0x65, 0x00,
        0x00,
    ];
    let pdu = DeliverPdu::try_from(&bytes).unwrap();
    assert!(pdu.sca.is_none());
    assert_eq!(pdu.originating_address.type_addr.type_of_number, TypeOfNumber::Gsm);
    assert_eq!(pdu.originating_address.to_display_string(), "Hello");
    assert_eq!(pdu.scts.year, 12);
    assert_eq!(pdu.get_message_data().decode_message().unwrap().text, "");
}

#[test]
fn submit_parse_round_trip() {
    let mut pdu = Pdu::make_simple_message(
        PduAddress::from_str("+447700900123"),
        GsmMessageData::encode_message("hello")[0].clone(),
    );
    let back = Pdu::parse(&pdu.as_bytes().0).unwrap();
    assert_eq!(back, pdu);
    pdu.set_sca(PduAddress::from_str("+447785016005"));
    assert_eq!(Pdu::parse(&pdu.as_bytes().0).unwrap(), pdu);
    assert!(Pdu::parse(&[0x00, 0x11]).is_err());
}
