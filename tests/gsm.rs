use huawei_modem::errors::HuaweiError;
use huawei_modem::gsm_encoding::udh::{UdhComponent, UserDataHeader};
use huawei_modem::gsm_encoding::{
    decode_sms_7bit, encode_sms_7bit, gsm_decode_string, try_gsm_encode_char, try_gsm_encode_string,
    GsmMessageData,
};
use huawei_modem::pdu::MessageEncoding;

#[test]
fn hello_packing() {
    let septets = try_gsm_encode_string("hello").unwrap();
    assert_eq!(encode_sms_7bit(&septets, 0), vec![0xE8, 0x32, 0x9B, 0xFD, 0x06]);
    assert_eq!(decode_sms_7bit(&[0xE8, 0x32, 0x9B, 0xFD, 0x06], 0, 5), septets);
}

#[test]
fn septet_round_trip_paddings() {
    let s: Vec<u8> = (0..40u8).map(|i| (i * 37 + 5) % 128).collect();
    for p in 0..7usize {
        for n in [0usize, 1, 7, 8, 9, 40] {
            let packed = encode_sms_7bit(&s[..n], p);
            assert_eq!(packed.len(), (p + 7 * n + 7) / 8);
            assert_eq!(decode_sms_7bit(&packed, p, n), s[..n].to_vec());
        }
    }
}

#[test]
fn gsm_alphabet() {
    assert_eq!(try_gsm_encode_string("A@{").unwrap(), vec![0x41, 0x00, 0x1B, 0x28]);
    assert_eq!(try_gsm_encode_string("\u{20AC}").unwrap(), vec![0x1B, 0x65]);
    assert!(try_gsm_encode_string("\u{4F60}").is_none());
    assert_eq!(gsm_decode_string(&[0x41, 0x00, 0x1B, 0x28, 0x1B, 0x99, 0x80]), "A@{");
    let mut v = vec![];
    assert!(try_gsm_encode_char('^', &mut v));
    assert!(!try_gsm_encode_char('\u{4F60}', &mut v));
    assert_eq!(v, vec![0x1B, 0x14]);
}

#[test]
fn concatenated_message() {
    let text = "a".repeat(200);
    let parts = GsmMessageData::encode_message(&text);
    assert_eq!(parts.len(), 2);
    let r = parts[0].as_bytes()[3];
    for (i, p) in parts.iter().enumerate() {
        assert_eq!(*p.encoding(), MessageEncoding::Gsm7Bit);
        assert_eq!(&p.as_bytes()[..6], &[5, 0, 3, r, 2, i as u8 + 1]);
        let d = p.decode_message().unwrap();
        let c = d.udh.unwrap().get_concatenated_sms_data().unwrap();
        assert_eq!((c.reference, c.parts, c.sequence), (r as u16, 2, i as u8 + 1));
    }
    assert_eq!(parts[0].user_data_len(), 7 + 153);
    assert_eq!(parts[1].user_data_len(), 7 + 47);
    let joined: String = parts.iter().map(|p| p.decode_message().unwrap().text).collect();
    assert_eq!(joined, text);
}

#[test]
fn short_message_single_part() {
    let parts = GsmMessageData::encode_message(&"b".repeat(160));
    assert_eq!(parts.len(), 1);
    assert!(!parts[0].udh);
    assert_eq!(parts[0].user_data_len(), 160);
    assert_eq!(parts[0].decode_message().unwrap().text, "b".repeat(160));
}

#[test]
fn ucs2_message() {
    let parts = GsmMessageData::encode_message("\u{4F60}\u{597D}");
    assert_eq!(parts.len(), 1);
    assert_eq!(*parts[0].encoding(), MessageEncoding::Ucs2);
    assert_eq!(parts[0].as_bytes(), &[0x4F, 0x60, 0x59, 0x7D]);
    assert_eq!(parts[0].decode_message().unwrap().text, "\u{4F60}\u{597D}");
    let long = "\u{4F60}".repeat(100);
    let parts = GsmMessageData::encode_message(&long);
    assert_eq!(parts.len(), 2);
    assert_eq!(parts[0].user_data_len(), 6 + 134);
    assert_eq!(parts[1].user_data_len(), 6 + 66);
    let joined: String = parts.iter().map(|p| p.decode_message().unwrap().text).collect();
    assert_eq!(joined, long);
}

#[test]
fn decode_errors() {
    let bad = GsmMessageData { encoding: MessageEncoding::EightBit, udh: false, bytes: vec![1, 2], user_data_len: 2 };
    match bad.decode_message() {
        Err(HuaweiError::UnsupportedEncoding(MessageEncoding::EightBit, b)) => assert_eq!(b, vec![1, 2]),
        other => panic!("unexpected {:?}", other),
    }
    let short = GsmMessageData { encoding: MessageEncoding::Gsm7Bit, udh: true, bytes: vec![9, 0], user_data_len: 2 };
    assert!(matches!(short.decode_message(), Err(HuaweiError::InvalidPdu(_))));
    let empty = GsmMessageData { encoding: MessageEncoding::EightBit, udh: false, bytes: vec![], user_data_len: 0 };
    assert_eq!(empty.decode_message().unwrap().text, "");
}

#[test]
fn udh_bytes() {
    let h = UserDataHeader {
        components: vec![UdhComponent { id: 8, data: vec![0x12, 0x34, 3, 1] }],
    };
    let b = h.as_bytes();
    assert_eq!(b, vec![6, 8, 4, 0x12, 0x34, 3, 1]);
    let back = UserDataHeader::try_from(&b[1..]).unwrap();
    assert_eq!(back, h);
    let c = back.get_concatenated_sms_data().unwrap();
    assert_eq!((c.reference, c.parts, c.sequence), (0x1234, 3, 1));
    assert!(UserDataHeader::try_from(&[0, 5, 1]).is_err());
}

#[test]
fn long_message_many_parts() {
    let text = "z".repeat(10_000);
    let parts = GsmMessageData::encode_message(&text);
    assert_eq!(parts.len(), 66);
    let r = parts[0].as_bytes()[3];
    for (i, p) in parts.iter().enumerate() {
        assert_eq!(&p.as_bytes()[..6], &[5, 0, 3, r, 66, i as u8 + 1]);
    }
    let joined: String = parts.iter().map(|p| p.decode_message().unwrap().text).collect();
    assert_eq!(joined, text);
}

#[test]
fn escape_takes_next_code() {
    assert_eq!(gsm_decode_string(&[0x1B, 0x41, 0x42]), "B");
    assert_eq!(gsm_decode_string(&[0x43, 0x1B]), "C");
    assert_eq!(gsm_decode_string(&[0x1B, 0x3C, 0x1B, 0x3E]), "[]");
}
