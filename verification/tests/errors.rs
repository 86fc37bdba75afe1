use dnser::cli::{parse_args, CliCommand};
use dnser::{Config, ConfigError, ParseError, ResolveError, WriteError, Message};

fn header_with_one_question() -> Vec<u8> {
    vec![0, 1, 0, 0, 0, 1, 0, 0, 0, 0, 0, 0]
}

#[test]
fn label_over_63_bytes_is_refused_on_read() {
    let mut bytes = header_with_one_question();
    bytes.push(64);
    bytes.extend_from_slice(&[b'a'; 64]);
    bytes.extend_from_slice(&[0, 0, 1, 0, 1]);
    assert_eq!(Message::parse(bytes), Err(ParseError::LabelTooLong));
}

#[test]
fn name_over_253_bytes_is_refused_on_read() {
    let mut bytes = header_with_one_question();
    for _ in 0..5 {
        bytes.push(63);
        bytes.extend_from_slice(&[b'a'; 63]);
    }
    bytes.extend_from_slice(&[0, 0, 1, 0, 1]);
    assert_eq!(Message::parse(bytes), Err(ParseError::NameTooLong));
}

#[test]
fn invalid_utf8_label_is_refused() {
    let mut bytes = header_with_one_question();
    bytes.extend_from_slice(&[2, 0xFF, 0xFE, 0, 0, 1, 0, 1]);
    match Message::parse(bytes) {
        Err(e @ ParseError::InvalidUtf8(_)) => {
            assert!(e.message().starts_with("invalid UTF-8 in label: "));
        }
        other => panic!("expected InvalidUtf8, got {other:?}"),
    }
}

#[test]
fn parse_error_messages() {
    assert_eq!(ParseError::UnexpectedEof.message(), "unexpected end of buffer");
    assert_eq!(ParseError::InvalidPointer.message(), "compression pointer out of bounds");
    assert_eq!(ParseError::PointerLoop.message(), "compression pointer loop detected");
    assert_eq!(ParseError::LabelTooLong.message(), "label exceeds 63 bytes");
    assert_eq!(ParseError::NameTooLong.message(), "name exceeds 253 bytes");
    assert_eq!(ParseError::RdataLengthMismatch.message(), "rdata length mismatch");
    assert_eq!(ParseError::UnknownRecordType(99).message(), "unknown record type: 99");
    assert_eq!(ParseError::UnknownClass(65535).message(), "unknown class: 65535");
    assert_eq!(ParseError::UnknownClass(0).message(), "unknown class: 0");
    assert_eq!(ParseError::ReservedBitSet.message(), "reserved Z bit is set");
}

#[test]
fn write_error_messages() {
    assert_eq!(WriteError::LabelTooLong.message(), "label exceeds 63 bytes");
    assert_eq!(WriteError::EmptyLabel.message(), "domain name contains an empty label");
    assert_eq!(WriteError::TxtChunkTooLong.message(), "TXT chunk exceeds 255 bytes");
}

#[test]
fn resolve_error_messages_and_conversions() {
    let w: ResolveError = WriteError::EmptyLabel.into();
    assert!(matches!(w, ResolveError::Write(WriteError::EmptyLabel)));
    assert_eq!(w.message(), "write: domain name contains an empty label");
    let p: ResolveError = ParseError::PointerLoop.into();
    assert_eq!(p.message(), "parse: compression pointer loop detected");
    let io: ResolveError = std::io::Error::new(std::io::ErrorKind::Other, "boom").into();
    assert_eq!(io.message(), "io: boom");
    assert_eq!(ResolveError::Timeout.message(), "upstream timed out");
    assert_eq!(ResolveError::NoUpstreams.message(), "no upstreams configured");
    assert_eq!(ResolveError::AllFailed.message(), "all upstreams failed");
    assert_eq!(ResolveError::InvalidResponse.message(), "invalid response from upstream");
    assert_eq!(ResolveError::IdSpaceExhausted.message(), "all 65536 query IDs in use");
}

#[test]
fn config_error_messages() {
    assert_eq!(ConfigError::ZeroWorkers.message(), "[server] workers must be >= 1");
    assert_eq!(ConfigError::ZeroCacheCapacity.message(), "[cache] max_entries must be >= 1");
    let io = ConfigError::Io(
        "/x.toml".to_string(),
        std::io::Error::new(std::io::ErrorKind::NotFound, "missing"),
    );
    assert_eq!(io.message(), "cannot read config file /x.toml: missing");
    let mut c = Config::default();
    c.cache.reaper_interval_secs = 0;
    assert_eq!(c.validate().unwrap_err().message(), "[cache] reaper_interval_secs must be >= 1");
}

fn args(list: &[&str]) -> Vec<String> {
    list.iter().map(|s| s.to_string()).collect()
}

#[test]
fn command_line() {
    assert_eq!(parse_args(&args(&[])), CliCommand::Run(None));
    assert_eq!(
        parse_args(&args(&["--config", "/etc/a.toml", "-c", "b.toml"])),
        CliCommand::Run(Some("b.toml".to_string()))
    );
    assert_eq!(parse_args(&args(&["-h"])), CliCommand::Help);
    assert_eq!(parse_args(&args(&["--version", "--bogus"])), CliCommand::Version);
    assert_eq!(parse_args(&args(&["--config"])), CliCommand::MissingConfigPath);
    assert_eq!(
        parse_args(&args(&["--bogus", "--help"])),
        CliCommand::UnknownArgument("--bogus".to_string())
    );
}

#[test]
fn resolve_error_describes_the_parse_failure() {
    assert_eq!(
        ResolveError::Parse(ParseError::UnknownClass(5)).message(),
        "parse: unknown class: 5"
    );
    assert_eq!(
        ResolveError::Parse(ParseError::PointerLoop).message(),
        "parse: compression pointer loop detected"
    );
    let bad = vec![0xFFu8];
    let utf8 = std::str::from_utf8(&bad).unwrap_err();
    let text = ResolveError::Parse(ParseError::InvalidUtf8(utf8)).message();
    assert!(text.starts_with("parse: invalid UTF-8 in label: "));
    assert!(text.len() > "parse: invalid UTF-8 in label: ".len());
}
