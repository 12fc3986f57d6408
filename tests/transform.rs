use flowgger::gelf::{encode, Gelf};
use flowgger::record::{Record, SdParam};
use flowgger::rfc5424::{decode, DecodeError, RFC5424};
use flowgger::{Decoder, Encoder};

const SU_LINE: &str = "<34>1 2003-10-11T22:14:15.003Z mymachine.example.com su - ID47 - BOM'su root' failed for lonvick on /dev/pts/8";

fn text(b: &[u8]) -> &str {
    std::str::from_utf8(b).unwrap()
}

#[test]
fn decodes_su_line() {
    let r = decode(SU_LINE).unwrap();
    assert_eq!(r.facility as u32 * 8 + r.severity as u32, 34);
    assert_eq!(r.facility, 4);
    assert_eq!(r.severity, 2);
    assert_eq!(text(&r.ts), "2003-10-11T22:14:15.003Z");
    assert_eq!(text(&r.hostname), "mymachine.example.com");
    assert_eq!(r.appname.as_deref(), Some(&b"su"[..]));
    assert_eq!(r.procid, None);
    assert_eq!(r.msgid.as_deref(), Some(&b"ID47"[..]));
    assert!(r.sd.is_empty());
    let msg = r.msg.unwrap();
    assert!(text(&msg).contains("su root' failed for lonvick on /dev/pts/8"));
}

#[test]
fn encodes_su_line() {
    let r = decode(SU_LINE).unwrap();
    let out = encode(&r).unwrap();
    assert_eq!(
        text(&out),
        "{\"version\":\"1.1\",\"host\":\"mymachine.example.com\",\"short_message\":\"BOM'su root' failed for lonvick on /dev/pts/8\",\"level\":2,\"_facility\":4,\"_timestamp\":\"2003-10-11T22:14:15.003Z\",\"_appname\":\"su\",\"_msgid\":\"ID47\"}"
    );
}

#[test]
fn decodes_structured_data() {
    let line = "<165>1 2003-10-11T22:14:15.003Z mymachine.example.com evntslog - ID47 [exampleSDID@32473 iut=\"3\" eventSource=\"Application\" eventID=\"1011\"] An application event";
    let r = decode(line).unwrap();
    assert_eq!(r.facility, 20);
    assert_eq!(r.severity, 5);
    assert_eq!(r.sd.len(), 3);
    assert_eq!(text(&r.sd[0].name), "iut");
    assert_eq!(text(&r.sd[0].value), "3");
    assert_eq!(text(&r.sd[1].name), "eventSource");
    assert_eq!(text(&r.sd[1].value), "Application");
    assert_eq!(text(&r.sd[2].name), "eventID");
    assert_eq!(text(&r.sd[2].value), "1011");
    assert_eq!(text(r.msg.as_ref().unwrap()), "An application event");
    let out = encode(&r).unwrap();
    assert_eq!(
        text(&out),
        "{\"version\":\"1.1\",\"host\":\"mymachine.example.com\",\"short_message\":\"An application event\",\"level\":5,\"_facility\":20,\"_timestamp\":\"2003-10-11T22:14:15.003Z\",\"_appname\":\"evntslog\",\"_msgid\":\"ID47\",\"_sd_iut\":\"3\",\"_sd_eventSource\":\"Application\",\"_sd_eventID\":\"1011\"}"
    );
}

#[test]
fn line_without_message() {
    let r = decode("<0>1 2003-10-11T22:14:15Z host app 12 - [x]").unwrap();
    assert_eq!(r.facility, 0);
    assert_eq!(r.severity, 0);
    assert_eq!(r.procid.as_deref(), Some(&b"12"[..]));
    assert_eq!(r.msgid, None);
    assert!(r.sd.is_empty());
    assert_eq!(r.msg, None);
    let out = encode(&r).unwrap();
    assert_eq!(
        text(&out),
        "{\"version\":\"1.1\",\"host\":\"host\",\"level\":0,\"_facility\":0,\"_timestamp\":\"2003-10-11T22:14:15Z\",\"_appname\":\"app\",\"_procid\":\"12\"}"
    );
}

#[test]
fn empty_message_is_kept() {
    let r = decode("<13>1 2003-10-11T22:14:15Z host app - - - ").unwrap();
    assert_eq!(r.msg, Some(Vec::new()));
    assert_eq!(r.facility, 1);
    assert_eq!(r.severity, 5);
}

#[test]
fn bad_priority_is_refused() {
    assert_eq!(decode("").err(), Some(DecodeError::BadPriority));
    assert_eq!(decode("34>1 2003-10-11T22:14:15Z h a p m -").err(), Some(DecodeError::BadPriority));
    assert_eq!(decode("<192>1 2003-10-11T22:14:15Z h a p m -").err(), Some(DecodeError::BadPriority));
    assert_eq!(decode("<034>1 2003-10-11T22:14:15Z h a p m -").err(), Some(DecodeError::BadPriority));
    assert_eq!(decode("<>1 2003-10-11T22:14:15Z h a p m -").err(), Some(DecodeError::BadPriority));
    assert_eq!(decode("<3a>1 2003-10-11T22:14:15Z h a p m -").err(), Some(DecodeError::BadPriority));
    assert_eq!(decode("<1911>1 2003-10-11T22:14:15Z h a p m -").err(), Some(DecodeError::BadPriority));
    assert_eq!(decode("<34").err(), Some(DecodeError::BadPriority));
    assert_eq!(decode("<191>1 2003-10-11T22:14:15Z h a p m -").map(|r| (r.facility, r.severity)), Ok((23, 7)));
}

#[test]
fn bad_version_is_refused() {
    assert_eq!(decode("<34>2 2003-10-11T22:14:15Z h a p m -").err(), Some(DecodeError::BadVersion));
    assert_eq!(decode("<34>1").err(), Some(DecodeError::BadVersion));
    assert_eq!(decode("<34>12003-10-11T22:14:15Z h a p m -").err(), Some(DecodeError::BadVersion));
}

#[test]
fn missing_or_bad_timestamp_is_refused() {
    assert_eq!(decode("<34>1 - host app - - -").err(), Some(DecodeError::BadTimestamp));
    assert_eq!(decode("<34>1 2003-10-11 host app - - -").err(), Some(DecodeError::BadTimestamp));
    assert_eq!(decode("<34>1 2003-10-11T22:14:15 host app - - -").err(), Some(DecodeError::BadTimestamp));
    assert_eq!(decode("<34>1 2003/10/11T22:14:15Z host app - - -").err(), Some(DecodeError::BadTimestamp));
    assert_eq!(decode("<34>1 2003-10-11T22:14:15Z").err(), Some(DecodeError::BadTimestamp));
}

#[test]
fn missing_field_is_refused() {
    assert_eq!(decode("<34>1 2003-10-11T22:14:15Z host app - -").err(), Some(DecodeError::MissingField));
    assert_eq!(decode("<34>1 2003-10-11T22:14:15Z host").err(), Some(DecodeError::MissingField));
    assert_eq!(decode("<34>1 2003-10-11T22:14:15Z  app - - -").err(), Some(DecodeError::MissingField));
}

#[test]
fn bad_structured_data_is_refused() {
    let head = "<34>1 2003-10-11T22:14:15Z host app - - ";
    for sd in [
        "",
        "[id a=\"b\"",
        "[id a=\"b",
        "[id a=b]",
        "[id =\"b\"]",
        "[]",
        "[id a=\"b\"]x",
        "x",
        "-x",
    ] {
        let line = format!("{}{}", head, sd);
        assert_eq!(decode(&line).err(), Some(DecodeError::BadStructuredData), "{}", line);
    }
}

#[test]
fn reserved_and_header_names_are_kept_apart() {
    let r = decode("<34>1 2003-10-11T22:14:15Z host app - - [x id=\"7\" msgid=\"m\"] hi").unwrap();
    let out = encode(&r).unwrap();
    assert_eq!(
        text(&out),
        "{\"version\":\"1.1\",\"host\":\"host\",\"short_message\":\"hi\",\"level\":2,\"_facility\":4,\"_timestamp\":\"2003-10-11T22:14:15Z\",\"_appname\":\"app\",\"_sd_id\":\"7\",\"_sd_msgid\":\"m\"}"
    );
}

#[test]
fn timestamps_are_checked() {
    for ts in [
        "2003-10-11T22:14:15!",
        "2003-19-39T29:69:69Z",
        "2003-00-11T22:14:15Z",
        "2003-10-00T22:14:15Z",
        "2003-10-32T22:14:15Z",
        "2003-10-11T24:14:15Z",
        "2003-10-11T22:60:15Z",
        "2003-10-11T22:14:61Z",
        "2003-10-11T22:14:15.Z",
        "2003-10-11T22:14:15.1234567Z",
        "2003-10-11T22:14:15ZZ",
        "2003-10-11T22:14:15+24:00",
        "2003-10-11T22:14:15+02:60",
        "2003-10-11T22:14:15+0200",
        "2003-10-11T22:14:15+02:00x",
    ] {
        let line = format!("<34>1 {} host app - - -", ts);
        assert_eq!(decode(&line).err(), Some(DecodeError::BadTimestamp), "{}", ts);
    }
    for ts in [
        "2003-10-11T22:14:15Z",
        "2003-10-11T22:14:60Z",
        "2003-10-11T22:14:15.003Z",
        "2003-10-11T22:14:15.123456Z",
        "2003-08-24T05:14:15.000003-07:00",
        "2003-12-31T23:59:59+23:59",
        "1985-04-12T23:20:50.52Z",
    ] {
        let line = format!("<34>1 {} host app - - -", ts);
        assert_eq!(text(&decode(&line).unwrap().ts), ts);
    }
}

#[test]
fn strings_are_escaped() {
    let r = Record {
        facility: 1,
        severity: 3,
        ts: b"t".to_vec(),
        hostname: b"a\"b\\c".to_vec(),
        appname: None,
        procid: None,
        msgid: None,
        sd: vec![SdParam { name: b"k\x1f".to_vec(), value: b"v\n".to_vec() }],
        msg: Some(b"caf\xc3\xa9".to_vec()),
    };
    let out = encode(&r).unwrap();
    assert_eq!(
        text(&out),
        "{\"version\":\"1.1\",\"host\":\"a\\\"b\\\\c\",\"short_message\":\"caf\u{e9}\",\"level\":3,\"_facility\":1,\"_timestamp\":\"t\",\"_sd_k\\u001f\":\"v\\u000a\"}"
    );
}

#[test]
fn large_numbers_are_written_in_full() {
    let r = Record {
        facility: 123,
        severity: 255,
        ts: Vec::new(),
        hostname: Vec::new(),
        appname: None,
        procid: None,
        msgid: None,
        sd: Vec::new(),
        msg: None,
    };
    assert_eq!(
        text(&encode(&r).unwrap()),
        "{\"version\":\"1.1\",\"host\":\"\",\"level\":255,\"_facility\":123,\"_timestamp\":\"\"}"
    );
}

#[test]
fn traits_run_the_codecs() {
    let r = RFC5424.decode(SU_LINE).unwrap();
    let out = Gelf.encode(r).unwrap();
    assert!(text(&out).contains("\"host\":\"mymachine.example.com\""));
    assert!(RFC5424.decode("garbage").is_err());
}

#[test]
fn several_elements_are_read() {
    let r = decode("<34>1 2003-10-11T22:14:15Z host app - - [a x=\"1\"][b@1 y=\"2\" z=\"3\"] msg").unwrap();
    assert_eq!(r.sd.len(), 3);
    assert_eq!((text(&r.sd[0].name), text(&r.sd[0].value)), ("x", "1"));
    assert_eq!((text(&r.sd[1].name), text(&r.sd[1].value)), ("y", "2"));
    assert_eq!((text(&r.sd[2].name), text(&r.sd[2].value)), ("z", "3"));
    assert_eq!(text(r.msg.as_ref().unwrap()), "msg");
    let spaced = decode("<34>1 2003-10-11T22:14:15Z host app - - [a x=\"1\"] [b y=\"2\"]").unwrap();
    assert_eq!(spaced.sd.len(), 1);
    assert_eq!(text(spaced.msg.as_ref().unwrap()), "[b y=\"2\"]");
    assert_eq!(
        decode("<34>1 2003-10-11T22:14:15Z host app - - [a x=\"1\"][").err(),
        Some(DecodeError::BadStructuredData)
    );
}

#[test]
fn escaped_values_are_unescaped() {
    let r = decode("<34>1 2003-10-11T22:14:15Z host app - - [a x=\"q\\\"t\\\\u\\]v\\n\"] m").unwrap();
    assert_eq!(text(&r.sd[0].value), "q\"t\\u]v\\n");
    let out = encode(&r).unwrap();
    assert!(text(&out).contains("\"_sd_x\":\"q\\\"t\\\\u]v\\\\n\""));
    assert_eq!(
        decode("<34>1 2003-10-11T22:14:15Z host app - - [a x=\"\\\"]").err(),
        Some(DecodeError::BadStructuredData)
    );
    let empty = decode("<34>1 2003-10-11T22:14:15Z host app - - [a x=\"\"]").unwrap();
    assert!(empty.sd[0].value.is_empty());
}
