use statusline::uevent::parse_datagram;
use statusline::uevent::parse_vars;
use statusline::uevent::DatagramError;
use statusline::uevent::ParseVarsError;

fn datagram(parts: &[&[u8]]) -> Vec<u8> {
    let mut buf = Vec::new();
    for part in parts {
        buf.extend_from_slice(part);
        buf.push(0);
    }
    buf
}

#[test]
fn two_record_datagram_parses() {
    let buf = datagram(&[b"add@/devices/bat0", b"K1=V1", b"K2=V2"]);
    let ev = parse_datagram(&buf).unwrap();
    assert_eq!(ev.header, "add@/devices/bat0");
    assert_eq!(ev.vars.get("K1").unwrap().as_str(), "V1");
    assert_eq!(ev.vars.get("K2").unwrap().as_str(), "V2");
    assert!(ev.vars.get("K3").is_none());
}

#[test]
fn duplicate_key_keeps_last_value() {
    let buf = datagram(&[b"HEADER", b"K=first", b"K=second"]);
    let ev = parse_datagram(&buf).unwrap();
    assert_eq!(ev.vars.get("K").unwrap().as_str(), "second");
}

#[test]
fn value_may_contain_equals() {
    let buf = datagram(&[b"HEADER", b"K=a=b"]);
    let ev = parse_datagram(&buf).unwrap();
    assert_eq!(ev.vars.get("K").unwrap().as_str(), "a=b");
}

#[test]
fn empty_value_and_empty_header() {
    let buf = datagram(&[b"", b"K="]);
    let ev = parse_datagram(&buf).unwrap();
    assert_eq!(ev.header, "");
    assert_eq!(ev.vars.get("K").unwrap().as_str(), "");
}

#[test]
fn missing_header_terminator_is_framing_error() {
    let buf: Vec<u8> = b"HEADER".to_vec();
    assert!(matches!(
        parse_datagram(&buf),
        Err(DatagramError::MissingHeaderTerminator)
    ));
}

#[test]
fn record_without_equals_is_distinct_error() {
    let buf = datagram(&[b"HEADER", b"KV"]);
    assert!(matches!(
        parse_datagram(&buf),
        Err(DatagramError::InvalidVars(ParseVarsError::MissingEqualSign))
    ));
}

#[test]
fn empty_datagram_is_rejected() {
    let buf: Vec<u8> = Vec::new();
    assert!(matches!(parse_datagram(&buf), Err(DatagramError::EmptyDatagram)));
}

#[test]
fn invalid_header_encoding_is_rejected() {
    let buf = datagram(&[b"\xff\xfe", b"K=V"]);
    assert!(matches!(parse_datagram(&buf), Err(DatagramError::InvalidHeader)));
}

#[test]
fn invalid_value_encoding_rejects_whole_datagram() {
    let buf = datagram(&[b"HEADER", b"GOOD=1", b"K=\xff"]);
    assert!(matches!(
        parse_datagram(&buf),
        Err(DatagramError::InvalidVars(ParseVarsError::InvalidUtf8))
    ));
}

#[test]
fn multibyte_text_is_decoded() {
    let buf = datagram(&[b"HEADER", b"K=caf\xc3\xa9"]);
    let ev = parse_datagram(&buf).unwrap();
    assert_eq!(ev.vars.get("K").unwrap().as_str(), "caf\u{e9}");
}

#[test]
fn record_not_ending_in_delimiter_is_rejected() {
    assert!(matches!(
        parse_vars(b"K=V", 0),
        Err(ParseVarsError::MissingDelimiter)
    ));
}

#[test]
fn newline_delimited_vars_parse() {
    let vars = parse_vars(b"A=1\nB=2\n", b'\n').unwrap();
    assert_eq!(vars.get("A").unwrap().as_str(), "1");
    assert_eq!(vars.get("B").unwrap().as_str(), "2");
}

#[test]
fn empty_vars_parse_to_empty_map() {
    let vars = parse_vars(b"", 0).unwrap();
    assert!(vars.get("A").is_none());
}

#[test]
fn varmap_insert_if_absent_keeps_first() {
    let mut m = statusline::uevent::VarMap::new();
    m.insert_if_absent(String::from("K"), String::from("1"));
    m.insert_if_absent(String::from("K"), String::from("2"));
    assert_eq!(m.get("K").unwrap().as_str(), "1");
}
