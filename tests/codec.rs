use winproxy::{
    parse_bypass_list, trim_str, DecodeError, DefaultConnectionSettings, EncodeError, Error,
    Flags, AUTO_DETECT, AUTO_PROXY_URL, DIRECT, PROXY,
};

fn framed(out: &mut Vec<u8>, s: &[u8]) {
    out.extend_from_slice(&(s.len() as u32).to_le_bytes());
    out.extend_from_slice(s);
}

fn blob(flags: u32, proxy: &[u8], list: &[u8], script: &[u8], tail: &[u8]) -> Vec<u8> {
    let mut b = Vec::new();
    b.extend_from_slice(&70u32.to_le_bytes());
    b.extend_from_slice(&7u32.to_le_bytes());
    b.extend_from_slice(&flags.to_le_bytes());
    framed(&mut b, proxy);
    framed(&mut b, list);
    framed(&mut b, script);
    b.extend_from_slice(tail);
    b
}

fn tail() -> Vec<u8> {
    (0u8..32).collect()
}

fn same(a: &DefaultConnectionSettings, b: &DefaultConnectionSettings) -> bool {
    a.reserved_a == b.reserved_a
        && a.version == b.version
        && a.flags == b.flags
        && a.proxy_address == b.proxy_address
        && a.bypass_list == b.bypass_list
        && a.script_address == b.script_address
        && a.reserved_b == b.reserved_b
}

fn strings(v: &[&str]) -> Vec<String> {
    v.iter().map(|s| s.to_string()).collect()
}

#[test]
fn end_to_end_example() {
    let mut s = DefaultConnectionSettings::default();
    assert_eq!(s.reserved_a, 70);
    s.version = 1;
    s.flags = Flags::from_bits_retain(PROXY);
    s.proxy_address = "127.0.0.1:8080".to_string();
    s.bypass_list = strings(&["localhost", "127.*"]);
    s.script_address = String::new();
    s.reserved_b = [0u8; 32];
    let bytes = s.try_into_bytes().unwrap();
    let expected = {
        let mut b = Vec::new();
        b.extend_from_slice(&70u32.to_le_bytes());
        b.extend_from_slice(&1u32.to_le_bytes());
        b.extend_from_slice(&2u32.to_le_bytes());
        framed(&mut b, b"127.0.0.1:8080");
        framed(&mut b, b"localhost;127.*");
        framed(&mut b, b"");
        b.extend_from_slice(&[0u8; 32]);
        b
    };
    assert_eq!(bytes, expected);
    let d = DefaultConnectionSettings::from_bytes(&bytes).unwrap();
    assert_eq!(d.reserved_a, 70);
    assert_eq!(d.version, 1);
    assert_eq!(d.flags.bits(), PROXY);
    assert_eq!(d.proxy_address, "127.0.0.1:8080");
    assert_eq!(d.bypass_list, strings(&["localhost", "127.*"]));
    assert_eq!(d.script_address, "");
    assert_eq!(d.reserved_b, [0u8; 32]);
    assert_eq!(d.bypass_list_string(), "localhost;127.*");
}

#[test]
fn decode_trims_and_filters() {
    assert_eq!(parse_bypass_list(" a ;;b; "), strings(&["a", "b"]));
    assert_eq!(parse_bypass_list(""), Vec::<String>::new());
    assert_eq!(parse_bypass_list(" ; ;"), Vec::<String>::new());
    assert_eq!(parse_bypass_list("\u{3000}x\u{a0};y\t"), strings(&["x", "y"]));
}

#[test]
fn encode_joins_without_empty_segments() {
    let mut s = DefaultConnectionSettings::default();
    s.bypass_list = strings(&["a", "b"]);
    assert_eq!(s.bypass_list_string(), "a;b");
}

#[test]
fn encode_trims_but_keeps_empty_entries() {
    let mut s = DefaultConnectionSettings::default();
    s.bypass_list = strings(&[" a ", "", "b"]);
    assert_eq!(s.bypass_list_string(), "a;;b");
    s.bypass_list = Vec::new();
    assert_eq!(s.bypass_list_string(), "");
}

#[test]
fn bypass_list_round_trip() {
    let list = strings(&["localhost", "*.example.com", "10.*", "é"]);
    let mut s = DefaultConnectionSettings::default();
    s.bypass_list = list.clone();
    let joined = s.bypass_list_string();
    assert_eq!(joined, "localhost;*.example.com;10.*;é");
    assert_eq!(parse_bypass_list(&joined), list);
}

#[test]
fn set_bypass_list_from_str_parses() {
    let mut s = DefaultConnectionSettings::default();
    s.set_bypass_list_from_str("localhost;127.*");
    assert_eq!(s.bypass_list, strings(&["localhost", "127.*"]));
    assert_eq!(s.reserved_a, 70);
}

#[test]
fn trim_removes_unicode_whitespace() {
    assert_eq!(trim_str("\u{2003} ab c\n\u{85}"), "ab c");
    assert_eq!(trim_str("   "), "");
    assert_eq!(trim_str("x"), "x");
}

#[test]
fn decoded_record_round_trips() {
    let b = blob(0x0000_0005, b"proxy:3128", b" a ;;b; ", "http://w/é.pac".as_bytes(), &tail());
    let d = DefaultConnectionSettings::from_bytes(&b).unwrap();
    assert_eq!(d.version, 7);
    assert_eq!(d.proxy_address, "proxy:3128");
    assert_eq!(d.bypass_list, strings(&["a", "b"]));
    assert_eq!(d.script_address, "http://w/é.pac");
    assert_eq!(d.reserved_b.to_vec(), tail());
    let copy = DefaultConnectionSettings::from_bytes(&b).unwrap();
    let again = DefaultConnectionSettings::from_bytes(&copy.try_into_bytes().unwrap()).unwrap();
    assert!(same(&d, &again));
}

#[test]
fn unknown_flag_bits_are_kept() {
    let word = 0xF0F0_0103u32;
    let b = blob(word, b"", b"", b"", &tail());
    let d = DefaultConnectionSettings::from_bytes(&b).unwrap();
    assert_eq!(d.flags.bits(), word);
    assert!(d.is_proxy_enabled());
    assert!(!d.is_script_enabled());
    let out = d.try_into_bytes().unwrap();
    assert_eq!(out, b);
    assert_eq!(&out[8..12], &word.to_le_bytes());
}

#[test]
fn every_prefix_fails() {
    let b = blob(3, b"p:1", b"x;y", b"s", &tail());
    assert!(DefaultConnectionSettings::from_bytes(&b).is_ok());
    for n in 0..b.len() {
        assert!(DefaultConnectionSettings::from_bytes(&b[..n]).is_err(), "prefix {}", n);
    }
}

#[test]
fn truncated_input() {
    let r = DefaultConnectionSettings::from_bytes(&[1, 2, 3]);
    assert!(matches!(r, Err(Error::Decode(DecodeError::Truncated))));
    let b = blob(1, b"", b"", b"", &[0u8; 31]);
    let r = DefaultConnectionSettings::from_bytes(&b);
    assert!(matches!(r, Err(Error::Decode(DecodeError::Truncated))));
}

#[test]
fn length_prefix_overrun() {
    let mut b = Vec::new();
    b.extend_from_slice(&[0u8; 12]);
    b.extend_from_slice(&100u32.to_le_bytes());
    b.extend_from_slice(b"abc");
    let r = DefaultConnectionSettings::from_bytes(&b);
    assert!(matches!(r, Err(Error::Decode(DecodeError::LengthOverrun))));
    let mut c = blob(1, b"", b"", b"", &tail());
    c[20..24].copy_from_slice(&u32::MAX.to_le_bytes());
    let r = DefaultConnectionSettings::from_bytes(&c);
    assert!(matches!(r, Err(Error::Decode(DecodeError::LengthOverrun))));
}

#[test]
fn invalid_utf8() {
    let b = blob(1, &[0xff, 0xfe], b"", b"", &tail());
    let r = DefaultConnectionSettings::from_bytes(&b);
    assert!(matches!(r, Err(Error::Decode(DecodeError::InvalidUtf8))));
    let b = blob(1, b"", b"", &[0xed, 0xa0, 0x80], &tail());
    let r = DefaultConnectionSettings::from_bytes(&b);
    assert!(matches!(r, Err(Error::Decode(DecodeError::InvalidUtf8))));
}

#[test]
fn trailing_bytes() {
    let mut b = blob(1, b"", b"", b"", &tail());
    b.push(0);
    let r = DefaultConnectionSettings::from_bytes(&b);
    assert!(matches!(r, Err(Error::Decode(DecodeError::TrailingBytes))));
}

#[test]
fn encode_error_is_distinct() {
    assert_ne!(Error::Encode(EncodeError::StringTooLong), Error::Decode(DecodeError::Truncated));
}

#[test]
fn default_record() {
    let s = DefaultConnectionSettings::default();
    assert_eq!(s.reserved_a, 70);
    assert_eq!(s.version, 0);
    assert_eq!(s.flags.bits(), DIRECT);
    assert!(s.proxy_address.is_empty());
    assert!(s.bypass_list.is_empty());
    assert!(s.script_address.is_empty());
    assert_eq!(s.reserved_b, [0u8; 32]);
    let bytes = s.try_into_bytes().unwrap();
    assert_eq!(bytes.len(), 12 + 12 + 32);
}

#[test]
fn flag_setters_touch_one_bit() {
    let mut s = DefaultConnectionSettings::default();
    s.flags = Flags::from_bits_retain(0x8000_0001);
    s.enable_proxy();
    assert_eq!(s.flags.bits(), 0x8000_0003);
    s.enable_script();
    assert!(s.is_script_enabled());
    s.enable_auto_detect();
    assert!(s.is_auto_detect_enabled());
    assert_eq!(s.flags.bits(), 0x8000_000F);
    s.disable_proxy();
    assert!(!s.is_proxy_enabled());
    s.set_script_enabled(false);
    s.disable_auto_detect();
    assert_eq!(s.flags.bits(), 0x8000_0001);
    s.set_proxy_enabled(true);
    s.disable_script();
    s.set_auto_detect_enabled(true);
    assert_eq!(s.flags.bits(), 0x8000_000B);
}

#[test]
fn flags_contains_and_set() {
    let mut f = Flags::from_bits_retain(0);
    assert!(!f.contains(AUTO_PROXY_URL));
    f.set(AUTO_PROXY_URL | AUTO_DETECT, true);
    assert!(f.contains(AUTO_PROXY_URL));
    assert!(f.contains(AUTO_DETECT));
    f.set(AUTO_DETECT, false);
    assert_eq!(f.bits(), AUTO_PROXY_URL);
}

#[test]
fn try_from_conversions() {
    let b = blob(2, b"h:1", b"a;b", b"", &tail());
    let d = DefaultConnectionSettings::try_from(&b[..]).unwrap();
    assert_eq!(d.bypass_list, strings(&["a", "b"]));
    let out = Vec::<u8>::try_from(d).unwrap();
    assert_eq!(out, b);
    assert!(matches!(
        DefaultConnectionSettings::try_from(&b[..10]),
        Err(Error::Decode(DecodeError::Truncated))
    ));
}

#[test]
fn version_change_touches_only_its_word() {
    let b = blob(5, b"h:1", b"a;b", b"s", &tail());
    let mut d = DefaultConnectionSettings::try_from(&b[..]).unwrap();
    d.version = 0x0102_0304;
    let out = Vec::<u8>::try_from(d).unwrap();
    assert_eq!(out.len(), b.len());
    assert_eq!(&out[4..8], &0x0102_0304u32.to_le_bytes());
    for i in (0..b.len()).filter(|i| !(4..8).contains(i)) {
        assert_eq!(out[i], b[i]);
    }
}
