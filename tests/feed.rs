use gateslam::feed::{decode_feed, decode_record, last_field_start, split_lines, FeedError, FormatCause};

const CONFIG_A: &str = "client\nremote 10.0.0.1 1194\n";
const CONFIG_B: &str = "client\nremote 10.0.0.2 443\n";
const ENCODED_A: &str = "Y2xpZW50CnJlbW90ZSAxMC4wLjAuMSAxMTk0Cg==";
const ENCODED_B: &str = "Y2xpZW50CnJlbW90ZSAxMC4wLjAuMiA0NDMK";

fn header() -> String {
    String::from("*vpn_servers\r\n#HostName,IP,Score,Ping,Speed,CountryLong,CountryShort,NumVpnSessions,Uptime,TotalUsers,TotalTraffic,LogType,Operator,Message,OpenVPN_ConfigData_Base64\r\n")
}

fn record(host: &str, ip: &str, encoded: &str) -> String {
    format!("{},{},100,5,1000,Japan,JP,3,100,10,1000,2weeks,op,msg,{}\r\n", host, ip, encoded)
}

fn two_record_feed() -> String {
    let mut feed = header();
    feed.push_str(&record("public-vpn-1", "10.0.0.1", ENCODED_A));
    feed.push_str(&record("public-vpn-2", "10.0.0.2", ENCODED_B));
    feed.push_str("*\r\n");
    feed
}

#[test]
fn decodes_each_record_and_fingerprints_raw_feed() {
    let feed = two_record_feed();
    let snap = decode_feed(feed.as_bytes()).unwrap();
    assert_eq!(snap.configs, vec![CONFIG_A.to_string(), CONFIG_B.to_string()]);
    assert_eq!(snap.fingerprint, "644aaf3cfbf2c5a29ecab981ef495ed1");
}

#[test]
fn fingerprint_of_empty_feed() {
    let snap = decode_feed(b"").unwrap();
    assert!(snap.configs.is_empty());
    assert_eq!(snap.fingerprint, "d41d8cd98f00b204e9800998ecf8427e");
}

#[test]
fn headers_alone_give_no_candidates() {
    let snap = decode_feed(header().as_bytes()).unwrap();
    assert!(snap.configs.is_empty());
    assert_eq!(snap.fingerprint.len(), 32);
}

#[test]
fn decoding_twice_gives_the_same_snapshot() {
    let feed = two_record_feed();
    let first = decode_feed(feed.as_bytes()).unwrap();
    let second = decode_feed(feed.as_bytes()).unwrap();
    assert_eq!(first.configs, second.configs);
    assert_eq!(first.fingerprint, second.fingerprint);
}

#[test]
fn break_lines_are_ignored_wherever_they_stand() {
    let plain = two_record_feed();
    let mut with_breaks = header();
    with_breaks.push_str("*\r\n");
    with_breaks.push_str(&record("public-vpn-1", "10.0.0.1", ENCODED_A));
    with_breaks.push_str("*\n");
    with_breaks.push_str(&record("public-vpn-2", "10.0.0.2", ENCODED_B));
    with_breaks.push_str("*\r\n");
    let a = decode_feed(plain.as_bytes()).unwrap();
    let b = decode_feed(with_breaks.as_bytes()).unwrap();
    assert_eq!(a.configs, b.configs);
    assert_ne!(a.fingerprint, b.fingerprint);
}

#[test]
fn corrupted_base64_fails_the_whole_feed() {
    let mut feed = header();
    feed.push_str(&record("public-vpn-1", "10.0.0.1", ENCODED_A));
    feed.push_str(&record("public-vpn-2", "10.0.0.2", "Y2xp!!ZW50Cn"));
    feed.push_str(&record("public-vpn-3", "10.0.0.3", ENCODED_B));
    match decode_feed(feed.as_bytes()) {
        Err(FeedError::FeedFormatError { record, cause }) => {
            assert_eq!(record, 1);
            assert_eq!(cause, FormatCause::Base64);
        }
        _ => panic!("a corrupted record must fail the feed"),
    }
}

#[test]
fn invalid_utf8_fails_the_feed() {
    let mut feed = header();
    feed.push_str(&record("public-vpn-1", "10.0.0.1", "/w=="));
    match decode_feed(feed.as_bytes()) {
        Err(FeedError::FeedFormatError { record, cause }) => {
            assert_eq!(record, 0);
            assert_eq!(cause, FormatCause::Utf8);
        }
        _ => panic!("a record that is not UTF-8 must fail the feed"),
    }
}

#[test]
fn record_without_commas_is_its_own_field() {
    assert_eq!(decode_record(ENCODED_B.as_bytes()).unwrap(), CONFIG_B);
    assert_eq!(decode_record(b"").unwrap(), "");
}

#[test]
fn last_field_follows_last_comma() {
    assert_eq!(last_field_start(b"a,bc,def"), 5);
    assert_eq!(last_field_start(b"abc"), 0);
    assert_eq!(last_field_start(b"abc,"), 4);
}

#[test]
fn lines_split_at_newlines_and_drop_carriage_returns() {
    let lines = split_lines(b"one\r\ntwo\n\nthree");
    assert_eq!(lines, vec![b"one".to_vec(), b"two".to_vec(), b"".to_vec(), b"three".to_vec()]);
    assert_eq!(split_lines(b"x\n"), vec![b"x".to_vec()]);
    assert!(split_lines(b"").is_empty());
    assert_eq!(split_lines(b"tail\r"), vec![b"tail\r".to_vec()]);
}
