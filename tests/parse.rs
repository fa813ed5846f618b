use huawei_modem::at::{AtResponse, AtResultCode, AtValue};
use huawei_modem::error_codes::CmsError;
use huawei_modem::errors::HuaweiError;
use huawei_modem::parse::{
    parse_empty, parse_information_response, parse_integer, parse_range, parse_response_code,
    parse_response_line, parse_string, parse_unknown, parse_value, responses,
};

#[test]
fn value_string() {
    assert_eq!(parse_string(b"\"testing\"").unwrap(), (&[] as &[u8], "testing".to_string()));
    assert_eq!(parse_value(b"\"testing\"").unwrap(), (&[] as &[u8], AtValue::String("testing".into())));
}

#[test]
fn value_integer() {
    assert_eq!(parse_integer(b"9001").unwrap(), (&[] as &[u8], 9001));
    assert_eq!(parse_value(b"9001").unwrap(), (&[] as &[u8], AtValue::Integer(9001)));
}

#[test]
fn value_range() {
    assert_eq!(parse_range(b"2-9001").unwrap(), (&[] as &[u8], (2, 9001)));
    assert_eq!(parse_value(b"2-9001").unwrap(), (&[] as &[u8], AtValue::Range(2, 9001)));
}

#[test]
fn value_empty() {
    assert_eq!(parse_empty(b"").unwrap(), (&[] as &[u8], ()));
    assert_eq!(parse_value(b"").unwrap(), (&[] as &[u8], AtValue::Empty));
}

#[test]
fn value_unknown() {
    assert_eq!(parse_unknown(b"invalid").unwrap(), (&[] as &[u8], "invalid".to_string()));
    assert_eq!(parse_value(b"invalid").unwrap(), (&[] as &[u8], AtValue::Unknown("invalid".into())));
}

#[test]
fn value_complex() {
    assert_eq!(
        parse_value(b"3,0,15,\"GSM\",(),(0-3),,(0-1),invalid,(0-2,15),(\"GSM\",\"IRA\")").unwrap(),
        (
            &[] as &[u8],
            AtValue::Array(vec![
                AtValue::Integer(3),
                AtValue::Integer(0),
                AtValue::Integer(15),
                AtValue::String("GSM".into()),
                AtValue::BracketedArray(vec![]),
                AtValue::BracketedArray(vec![AtValue::Range(0, 3)]),
                AtValue::Empty,
                AtValue::BracketedArray(vec![AtValue::Range(0, 1)]),
                AtValue::Unknown("invalid".into()),
                AtValue::BracketedArray(vec![AtValue::Range(0, 2), AtValue::Integer(15)]),
                AtValue::BracketedArray(vec![AtValue::String("GSM".into()), AtValue::String("IRA".into())]),
            ])
        )
    )
}

#[test]
fn integer_too_large_is_a_bareword() {
    assert!(matches!(parse_integer(b"99999999999"), Err(HuaweiError::ParseError)));
    assert_eq!(parse_value(b"99999999999").unwrap().1, AtValue::Unknown("99999999999".into()));
}

#[test]
fn value_leaves_rest() {
    assert_eq!(parse_value(b"12abc").unwrap(), (&b"abc"[..], AtValue::Integer(12)));
    assert_eq!(parse_string(b"\"a\",1").unwrap(), (&b",1"[..], "a".to_string()));
}

#[test]
fn trailing_comma_gives_empty() {
    assert_eq!(parse_value(b"3,").unwrap().1, AtValue::Array(vec![AtValue::Integer(3), AtValue::Empty]));
}

#[test]
fn cms_error_codes() {
    assert_eq!(parse_response_code(b"+CMS ERROR: 330").unwrap(), AtResultCode::CmsError(CmsError::SmscAddressUnknown));
    assert_eq!(parse_response_code(b"+CMS ERROR: FAILED").unwrap(), AtResultCode::CmsErrorString("FAILED".into()));
    assert_eq!(parse_response_code(b"+CMS ERROR: 9999").unwrap(), AtResultCode::CmsErrorUnknown(9999));
    assert_eq!(parse_response_code(b"+CME ERROR: 10").unwrap(), AtResultCode::CmeError(10));
    assert_eq!(parse_response_code(b"OK").unwrap(), AtResultCode::Okay);
    assert_eq!(parse_response_code(b"NO CARRIER").unwrap(), AtResultCode::NoCarrier);
    assert_eq!(parse_response_code(b"COMMAND NOT SUPPORT").unwrap(), AtResultCode::CommandNotSupported);
    assert!(parse_response_code(b"+CREG: 0,1").is_err());
}

#[test]
fn result_code_lines() {
    assert_eq!(
        parse_response_line(b"+CMS ERROR: 330").unwrap(),
        AtResponse::ResultCode(AtResultCode::CmsError(CmsError::SmscAddressUnknown))
    );
    assert_eq!(
        parse_response_line(b"+CMS ERROR: FAILED").unwrap(),
        AtResponse::ResultCode(AtResultCode::CmsErrorString("FAILED".into()))
    );
    assert_eq!(parse_response_line(b"OK").unwrap(), AtResponse::ResultCode(AtResultCode::Okay));
}

#[test]
fn information_and_unknown_lines() {
    assert_eq!(
        parse_response_line(b"+CREG: 0,1").unwrap(),
        AtResponse::InformationResponse {
            param: "+CREG".into(),
            response: AtValue::Array(vec![AtValue::Integer(0), AtValue::Integer(1)]),
        }
    );
    assert_eq!(
        parse_information_response(b"+CPIN:READY").unwrap().1,
        ("+CPIN".to_string(), AtValue::Unknown("READY".into()))
    );
    assert_eq!(parse_response_line(b"  0791ABCD  ").unwrap(), AtResponse::Unknown("0791ABCD".into()));
    assert!(parse_response_line(b"   ").is_err());
}

#[test]
fn bulk_lines() {
    assert!(responses(b"").is_none());
    assert!(responses(b"OK\r\n+CM").is_none());
    let r = responses(b"\r\n+CREG: 0,1\r\n\r\nOK\r\n").unwrap();
    assert_eq!(r.len(), 2);
    assert_eq!(r[1], AtResponse::ResultCode(AtResultCode::Okay));
}

#[test]
fn written_values_read_back() {
    let flat = AtValue::Array(vec![AtValue::Integer(3), AtValue::Range(0, 3), AtValue::String("GSM".into())]);
    let text = flat.to_string();
    assert_eq!(text, "3,0-3,\"GSM\"");
    assert_eq!(parse_value(text.as_bytes()).unwrap(), (&[] as &[u8], flat));
    let list = AtValue::BracketedArray(vec![AtValue::String("IRA".into()), AtValue::Integer(15)]);
    let text = list.to_string();
    assert_eq!(parse_value(text.as_bytes()).unwrap(), (&[] as &[u8], list));
    let empty = AtValue::BracketedArray(vec![]);
    assert_eq!(parse_value(empty.to_string().as_bytes()).unwrap().1, empty);
}
