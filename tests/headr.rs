use headr::bytes::head_bytes;
use headr::count::parse_positive_int;
use headr::lines::{head_lines, LineTruncator};
use headr::runner::{config_from_args, error_line, Config, Mode, RunState};
use headr::source::{source_of, Source};

#[test]
fn test_parse_positive_int() {
    // 3 is an OK integer
    let res = parse_positive_int("3");
    assert!(res.is_ok());
    assert_eq!(res.unwrap(), 3);

    // Any string is an error
    let res = parse_positive_int("foo");
    assert!(res.is_err());
    assert_eq!(res.unwrap_err().to_string(), "foo".to_string());

    // A zero is an error
    let res = parse_positive_int("0");
    assert!(res.is_err());
    assert_eq!(res.unwrap_err().to_string(), "0".to_string());
}

#[test]
fn parse_round_trips_positive_numbers() {
    for n in [1usize, 7, 10, 42, 1000, 123456789, usize::MAX] {
        assert_eq!(parse_positive_int(&n.to_string()), Ok(n));
    }
}

#[test]
fn parse_accepts_plus_sign() {
    assert_eq!(parse_positive_int("+12"), Ok(12));
    assert_eq!(parse_positive_int("007"), Ok(7));
}

#[test]
fn parse_rejects_non_positive_and_keeps_text() {
    for text in ["-3", "-0", "0", "000", "", "+", "12a", " 5", "1.5", "-"] {
        assert_eq!(parse_positive_int(text), Err(text.to_string()));
    }
}

#[test]
fn parse_rejects_values_too_large() {
    let big = "99999999999999999999999999";
    assert_eq!(parse_positive_int(big), Err(big.to_string()));
    let over = format!("{}0", usize::MAX);
    assert_eq!(parse_positive_int(&over), Err(over.clone()));
}

#[test]
fn lines_keeps_first_n_lines() {
    let data = b"one\ntwo\nthree\nfour\n";
    assert_eq!(head_lines(data, 2), b"one\ntwo\n".to_vec());
    assert_eq!(head_lines(data, 4), data.to_vec());
    assert_eq!(head_lines(data, 10), data.to_vec());
}

#[test]
fn lines_keeps_last_line_without_newline() {
    let data = b"a\nb\nc";
    assert_eq!(head_lines(data, 3), b"a\nb\nc".to_vec());
    assert_eq!(head_lines(data, 2), b"a\nb\n".to_vec());
}

#[test]
fn lines_of_empty_source() {
    assert_eq!(head_lines(b"", 5), Vec::<u8>::new());
    assert_eq!(head_lines(b"\n\n\n", 2), b"\n\n".to_vec());
}

#[test]
fn lines_are_not_decoded() {
    let data = [0xffu8, 0xfe, b'\n', 0xc3, b'\n', b'x'];
    assert_eq!(head_lines(&data, 2), vec![0xff, 0xfe, b'\n', 0xc3, b'\n']);
}

#[test]
fn line_truncator_over_chunks_matches_whole() {
    let data = b"alpha\nbeta\ngamma\ndelta\nepsilon\n";
    for size in 1..data.len() {
        let mut t = LineTruncator::new(3);
        let mut out = Vec::new();
        for chunk in data.chunks(size) {
            if t.is_done() {
                break;
            }
            let k = t.feed(chunk);
            out.extend_from_slice(&chunk[..k]);
        }
        assert_eq!(out, head_lines(data, 3));
        assert!(t.is_done());
    }
}

#[test]
fn line_truncator_counts_owed_lines() {
    let mut t = LineTruncator::new(5);
    assert_eq!(t.feed(b"ab\ncd"), 5);
    assert_eq!(t.remaining, 4);
    assert_eq!(t.feed(b"\n\n\n\nzz\n"), 4);
    assert_eq!(t.remaining, 0);
    assert!(t.is_done());
}

#[test]
fn bytes_keeps_first_n_bytes() {
    assert_eq!(head_bytes(b"hello world", 5), "hello");
    assert_eq!(head_bytes(b"hi", 10), "hi");
    assert_eq!(head_bytes(b"", 3), "");
}

#[test]
fn bytes_of_multibyte_text() {
    let data = "héllo".as_bytes();
    assert_eq!(data.len(), 6);
    assert_eq!(head_bytes(data, 3), "hé");
    assert_eq!(head_bytes(data, 2), "h\u{FFFD}");
    assert_eq!(head_bytes(data, 1), "h");
}

#[test]
fn bytes_decodes_invalid_bytes_lossily() {
    assert_eq!(head_bytes(&[b'a', 0xff, b'b'], 3), "a\u{FFFD}b");
}

#[test]
fn source_names() {
    assert_eq!(source_of("-"), Source::StandardInput);
    assert_eq!(source_of("a.txt"), Source::NamedFile("a.txt".to_string()));
    assert_eq!(source_of("--"), Source::NamedFile("--".to_string()));
}

#[test]
fn single_source_has_no_banner() {
    let mut s = RunState::new(1);
    assert_eq!(s.banner("a.txt"), "");
    s.source_done();
    assert_eq!(s.banner("a.txt"), "");
}

#[test]
fn several_sources_get_banners() {
    let mut s = RunState::new(3);
    assert_eq!(s.banner("a"), "==> a <==\n");
    s.source_done();
    assert_eq!(s.banner("b"), "\n==> b <==\n");
    s.source_done();
    assert_eq!(s.banner("c"), "\n==> c <==\n");
}

#[test]
fn failed_source_reports_one_line() {
    let s = RunState::new(2);
    let line = error_line("missing.txt", "No such file or directory (os error 2)");
    assert_eq!(line, "missing.txt: No such file or directory (os error 2)");
    assert!(!line.contains('\n'));
    // the failed source leaves the state alone: the next banner is the first
    assert_eq!(s.banner("b.txt"), "==> b.txt <==\n");
}

#[test]
fn two_files_in_line_mode() {
    let a: Vec<u8> = (1..=3).flat_map(|i| format!("a{}\n", i).into_bytes()).collect();
    let b: Vec<u8> = (1..=20).flat_map(|i| format!("b{}\n", i).into_bytes()).collect();
    let config = config_from_args(vec!["a.txt".to_string(), "b.txt".to_string()], "10", None).unwrap();
    assert_eq!(config.mode(), Mode::Lines(10));
    let mut state = RunState::new(config.files().len());
    let mut out: Vec<u8> = Vec::new();
    for (name, data) in config.files().iter().zip([&a, &b]) {
        out.extend_from_slice(state.banner(name).as_bytes());
        out.extend_from_slice(&head_lines(data, 10));
        state.source_done();
    }
    let mut expected = String::from("==> a.txt <==\na1\na2\na3\n\n==> b.txt <==\n");
    for i in 1..=10 {
        expected.push_str(&format!("b{}\n", i));
    }
    assert_eq!(String::from_utf8(out).unwrap(), expected);
}

#[test]
fn single_file_in_byte_mode() {
    let config = config_from_args(vec!["h.txt".to_string()], "10", Some("3")).unwrap();
    assert_eq!(config.mode(), Mode::Bytes(3));
    let state = RunState::new(config.files().len());
    let mut out = state.banner("h.txt");
    out.push_str(&head_bytes("héllo".as_bytes(), 3));
    assert_eq!(out, String::from_utf8_lossy(&"héllo".as_bytes()[..3]));
}

#[test]
fn config_defaults_to_stdin() {
    let config: Config = config_from_args(vec![], "10", None).unwrap();
    assert_eq!(config.files, vec!["-".to_string()]);
    assert_eq!(config.mode(), Mode::Lines(10));
}

#[test]
fn config_rejects_bad_counts() {
    assert_eq!(
        config_from_args(vec![], "0", None).unwrap_err(),
        "illegal line count -- 0"
    );
    assert_eq!(
        config_from_args(vec![], "10", Some("foo")).unwrap_err(),
        "illegal byte count -- foo"
    );
    assert_eq!(
        config_from_args(vec![], "-1", None).unwrap_err(),
        "illegal line count -- -1"
    );
}

#[test]
fn config_byte_mode_ignores_line_text() {
    let config = config_from_args(vec!["x".to_string()], "bad", Some("4")).unwrap();
    assert_eq!(config.mode(), Mode::Bytes(4));
}
