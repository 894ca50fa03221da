use ekg::recorder::{escape_json, Recorder};
use ekg::time::{to_ms, Duration, SystemTime};

fn at_ms(n: u64) -> SystemTime {
    SystemTime::after_epoch(Duration::from_millis(n))
}

#[test]
fn escape_json_handles_quotes_and_backslashes() {
    assert_eq!(escape_json(r#"a"b\c"#), r#"a\"b\\c"#);
}

#[test]
fn escape_json_handles_control_chars() {
    assert_eq!(escape_json("a\nb\tc"), "a\\nb\\tc");
    assert_eq!(escape_json("\u{01}"), "\\u0001");
}

#[test]
fn escape_json_passthrough_plain_host() {
    assert_eq!(escape_json("1.1.1.1"), "1.1.1.1");
    assert_eq!(escape_json("my-router.local"), "my-router.local");
}

#[test]
fn log_sample_writes_null_rtt_on_timeout() {
    let mut rec = Recorder::new();
    rec.log_sample(at_ms(5), "1.1.1.1", None);
    rec.log_sample(at_ms(6), "1.1.1.1", Some(Duration::new(0, 12_500_000)));

    let contents = rec.take();
    let lines: Vec<&str> = contents.lines().collect();
    assert_eq!(lines.len(), 2);
    assert!(lines[0].contains("\"rtt_ms\":null"));
    assert!(lines[1].contains("\"rtt_ms\":12.5"));
    assert!(lines[0].contains("\"host\":\"1.1.1.1\""));
}

#[test]
fn log_outage_end_includes_duration_ms() {
    let mut rec = Recorder::new();
    let start = at_ms(1_690_300_003_123);
    rec.log_outage_start("host", start);
    rec.log_outage_end(
        "host",
        start.plus(Duration::from_secs(36)),
        Duration::from_secs(36),
    );

    let contents = rec.take();
    let lines: Vec<&str> = contents.lines().collect();
    assert_eq!(lines.len(), 2);
    assert!(lines[0].contains("\"event\":\"outage_start\""));
    assert!(lines[1].contains("\"event\":\"outage_end\""));
    assert!(lines[1].contains("\"duration_ms\":36000"));
}

#[test]
fn records_have_the_documented_shape() {
    let mut rec = Recorder::new();
    rec.log_sample(
        at_ms(1_690_300_000_123),
        "1.1.1.1",
        Some(Duration::new(0, 12_340_000)),
    );
    rec.log_sample(at_ms(1_690_300_001_123), "1.1.1.1", None);
    rec.log_outage_start("1.1.1.1", at_ms(1_690_300_003_123));
    rec.log_outage_end(
        "1.1.1.1",
        at_ms(1_690_300_010_123),
        Duration::from_millis(7000),
    );
    assert_eq!(
        rec.take(),
        "{\"ts\":1690300000123,\"host\":\"1.1.1.1\",\"rtt_ms\":12.34}\n\
         {\"ts\":1690300001123,\"host\":\"1.1.1.1\",\"rtt_ms\":null}\n\
         {\"ts\":1690300003123,\"host\":\"1.1.1.1\",\"event\":\"outage_start\"}\n\
         {\"ts\":1690300010123,\"host\":\"1.1.1.1\",\"event\":\"outage_end\",\"duration_ms\":7000}\n"
    );
}

#[test]
fn taking_leaves_nothing_behind() {
    let mut rec = Recorder::new();
    rec.log_sample(at_ms(1), "a", Some(Duration::from_millis(1)));
    assert_eq!(rec.take(), "{\"ts\":1,\"host\":\"a\",\"rtt_ms\":1}\n");
    assert_eq!(rec.take(), "");
    rec.log_sample(at_ms(2), "b", Some(Duration::from_millis(2)));
    assert_eq!(rec.take(), "{\"ts\":2,\"host\":\"b\",\"rtt_ms\":2}\n");
}

#[test]
fn rtt_keeps_every_nanosecond() {
    let cases = [
        (0u128, "0"),
        (1, "0.000001"),
        (1_000_000, "1"),
        (10_500_000, "10.5"),
        (999_999, "0.999999"),
        (2_000_000_100, "2000.0001"),
    ];
    for (nanos, text) in cases {
        let mut rec = Recorder::new();
        rec.log_sample(at_ms(0), "h", Some(Duration::from_nanos(nanos)));
        assert_eq!(
            rec.take(),
            format!("{{\"ts\":0,\"host\":\"h\",\"rtt_ms\":{text}}}\n")
        );
    }
}

#[test]
fn every_control_char_is_escaped() {
    for n in 0u8..0x20 {
        let c = n as char;
        let escaped = escape_json(&c.to_string());
        let expected = match c {
            '\n' => "\\n".to_string(),
            '\r' => "\\r".to_string(),
            '\t' => "\\t".to_string(),
            _ => format!("\\u{:04x}", n),
        };
        assert_eq!(escaped, expected);
    }
    assert_eq!(escape_json("\u{7f}\u{e9}\u{1f4e1}"), "\u{7f}\u{e9}\u{1f4e1}");
    assert_eq!(escape_json(""), "");
}

#[test]
fn hostile_host_stays_on_its_line() {
    let mut rec = Recorder::new();
    rec.log_sample(at_ms(0), "a\",\"event\":\"x\"}\n{", None);
    let contents = rec.take();
    assert_eq!(contents.lines().count(), 1);
    assert_eq!(
        contents,
        "{\"ts\":0,\"host\":\"a\\\",\\\"event\\\":\\\"x\\\"}\\n{\",\"rtt_ms\":null}\n"
    );
}

#[test]
fn times_before_the_epoch_count_as_the_epoch() {
    let t = SystemTime::before_epoch(Duration::from_secs(5));
    assert_eq!(to_ms(t), 0);
    assert_eq!(to_ms(t.plus(Duration::from_secs(7))), 2000);
    assert_eq!(to_ms(SystemTime::after_epoch(Duration::new(1, 999_999))), 1000);
}

/// Reads a JSON string whose opening quote has been read: its text, and what
/// follows its closing quote.
fn read_string(s: &str) -> (String, String) {
    let mut text = String::new();
    let mut chars = s.chars();
    loop {
        match chars.next().unwrap() {
            '"' => return (text, chars.collect()),
            '\\' => match chars.next().unwrap() {
                'n' => text.push('\n'),
                'r' => text.push('\r'),
                't' => text.push('\t'),
                'u' => {
                    let digits: String = (0..4).map(|_| chars.next().unwrap()).collect();
                    let code = u32::from_str_radix(&digits, 16).unwrap();
                    text.push(char::from_u32(code).unwrap());
                }
                c => text.push(c),
            },
            c => text.push(c),
        }
    }
}

#[test]
fn any_host_reads_back_from_its_record() {
    let hosts = ["", "1.1.1.1", "a\"b\\c", "\u{0}\u{1f}\n\r\t", "h\",\"rtt_ms\":0}", "\u{e9}\\"];
    for host in hosts {
        let mut rec = Recorder::new();
        rec.log_sample(at_ms(77), host, None);
        let contents = rec.take();
        let tail = contents.strip_prefix("{\"ts\":77,\"host\":\"").unwrap();
        let (text, rest) = read_string(tail);
        assert_eq!(text, host);
        assert_eq!(rest, ",\"rtt_ms\":null}\n");
    }
}

#[test]
fn any_rtt_reads_back_from_its_record() {
    for nanos in [0u128, 1, 10, 999_999, 1_000_000, 1_000_001, 12_340_000, 98_765_432_100_000] {
        let mut rec = Recorder::new();
        rec.log_sample(at_ms(0), "h", Some(Duration::from_nanos(nanos)));
        let line = rec.take();
        let text = line.split("\"rtt_ms\":").nth(1).unwrap().trim_end_matches("}\n");
        let (whole, fraction) = match text.split_once('.') {
            Some((w, f)) => (w, f),
            None => (text, ""),
        };
        assert!(fraction.len() <= 6);
        let read: u128 = format!("{whole}{fraction:0<6}").parse().unwrap();
        assert_eq!(read, nanos);
    }
}
