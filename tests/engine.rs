use huawei_modem::at::{AtCommand, AtResponse, AtResponsePacket, AtResultCode, AtValue};
use huawei_modem::codec::AtCodec;
use huawei_modem::engine::{ModemEngine, ECHO_OFF_ID};
use huawei_modem::errors::HuaweiError;
use huawei_modem::parse::parse_response_line;

fn line(s: &str) -> AtResponse {
    parse_response_line(s.as_bytes()).unwrap()
}

#[test]
fn urc_routing() {
    let mut e = ModemEngine::new();
    let first = e.next_command().unwrap();
    assert_eq!(first, AtCommand::Basic { command: "E".into(), number: Some(0) });
    let step = e.on_responses(vec![line("OK")]);
    assert_eq!(step.completed.unwrap().id, ECHO_OFF_ID);
    assert!(e.next_command().is_none());

    let step = e.on_responses(vec![line("+CMTI: \"SM\",3")]);
    assert_eq!(step.urcs, vec![line("+CMTI: \"SM\",3")]);
    assert!(step.completed.is_none());

    let id = e.submit(AtCommand::Read { param: "+CREG".into() });
    assert_eq!(e.next_command().unwrap(), AtCommand::Read { param: "+CREG".into() });
    let step = e.on_responses(vec![line("+CMTI: \"SM\",3"), line("+CREG: 0,1")]);
    assert!(step.urcs.is_empty());
    assert!(step.completed.is_none());
    let step = e.on_responses(vec![line("OK")]);
    assert_eq!(step.urcs, vec![line("+CMTI: \"SM\",3")]);
    let done = step.completed.unwrap();
    assert_eq!(done.id, id);
    assert_eq!(done.packet.status, AtResultCode::Okay);
    assert_eq!(done.packet.responses, vec![line("+CREG: 0,1")]);
}

#[test]
fn commands_in_submission_order() {
    let mut e = ModemEngine::new();
    let a = e.submit(AtCommand::Execute { command: "+CSQ".into() });
    let b = e.submit(AtCommand::Read { param: "+CPIN".into() });
    assert!(a < b);
    e.next_command();
    assert!(e.next_command().is_none());
    e.on_responses(vec![line("OK")]);
    assert_eq!(e.next_command().unwrap(), AtCommand::Execute { command: "+CSQ".into() });
    let done = e.on_responses(vec![line("+CSQ: 20,99"), line("OK")]).completed.unwrap();
    assert_eq!(done.id, a);
    assert_eq!(e.next_command().unwrap(), AtCommand::Read { param: "+CPIN".into() });
    let done = e.on_responses(vec![line("ERROR")]).completed.unwrap();
    assert_eq!(done.id, b);
    assert_eq!(done.packet.status, AtResultCode::Error);
}

#[test]
fn packet_extraction() {
    let pkt = AtResponsePacket {
        responses: vec![line("+CSQ: 20,99")],
        status: AtResultCode::Okay,
    };
    assert_eq!(
        pkt.extract_named_response("+CSQ").unwrap(),
        &AtValue::Array(vec![AtValue::Integer(20), AtValue::Integer(99)])
    );
    assert!(pkt.extract_named_response_opt("+CREG").unwrap().is_none());
    match pkt.extract_named_response("+CREG") {
        Err(HuaweiError::ExpectedResponse(name)) => assert_eq!(name, "+CREG"),
        other => panic!("unexpected {:?}", other),
    }
    let failed = AtResponsePacket { responses: vec![], status: AtResultCode::CmeError(3) };
    assert_eq!(failed.assert_ok(), Err(HuaweiError::AtError(AtResultCode::CmeError(3))));
    assert!(matches!(failed.extract_named_response_opt("+CSQ"), Err(HuaweiError::AtError(AtResultCode::CmeError(3)))));
}

#[test]
fn command_text_and_frames() {
    let cmd = AtCommand::Equals {
        param: "+CNMI".into(),
        value: AtValue::Array(vec![AtValue::Integer(2), AtValue::Integer(1)]),
    };
    assert_eq!(cmd.to_string(), "AT+CNMI=2,1");
    assert_eq!(AtCommand::Test { param: "+CMGF".into() }.to_string(), "AT+CMGF=?");
    assert_eq!(AtCommand::Basic { command: "E".into(), number: Some(0) }.to_string(), "ATE0");
    let v = AtValue::BracketedArray(vec![AtValue::String("GSM".into()), AtValue::Range(0, 3), AtValue::Empty]);
    assert_eq!(v.to_string(), "(\"GSM\",0-3,)");
    let mut codec = AtCodec;
    let mut out = vec![];
    codec.encode(&AtCommand::Read { param: "+CREG".into() }, &mut out);
    assert_eq!(out, b"\r\nAT+CREG?\r\n".to_vec());
    let mut buf = b"+CREG: 0,1\r\nOK\r\n".to_vec();
    let got = codec.decode(&mut buf).unwrap();
    assert_eq!(got.len(), 2);
    assert!(buf.is_empty());
    let mut partial = b"OK\r\n+CR".to_vec();
    assert!(codec.decode(&mut partial).is_none());
    assert_eq!(partial.len(), 7);
    assert_eq!(AtCommand::Read { param: "+CREG".into() }.expected(), vec!["+CREG".to_string()]);
}
