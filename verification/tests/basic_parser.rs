use handterm::basic_parser::{Action, Parser};

#[test]
fn parser_prints_ascii() {
    let mut p = Parser::new();
    assert_eq!(p.advance(b'A'), Action::Print(b'A'));
    assert_eq!(p.advance(b'z'), Action::Print(b'z'));
    assert_eq!(p.advance(b' '), Action::Print(b' '));
}

#[test]
fn parser_executes_control() {
    let mut p = Parser::new();
    assert_eq!(p.advance(b'\n'), Action::Execute(b'\n'));
    assert_eq!(p.advance(b'\r'), Action::Execute(b'\r'));
    assert_eq!(p.advance(b'\t'), Action::Execute(b'\t'));
}

#[test]
fn parser_parses_csi_sgr() {
    let mut p = Parser::new();

    assert_eq!(p.advance(0x1b), Action::Nop);
    assert_eq!(p.advance(b'['), Action::Nop);
    assert_eq!(p.advance(b'1'), Action::Nop);
    assert_eq!(p.advance(b';'), Action::Nop);
    assert_eq!(p.advance(b'3'), Action::Nop);
    assert_eq!(p.advance(b'1'), Action::Nop);

    let action = p.advance(b'm');
    assert_eq!(
        action,
        Action::CsiDispatch {
            params_count: 2,
            intermediate: 0,
            final_byte: b'm',
        }
    );
    assert_eq!(p.params(), &[1, 31]);
}

#[test]
fn parser_parses_csi_cursor_move() {
    let mut p = Parser::new();
    for &b in b"\x1b[10;20H" {
        p.advance(b);
    }
    assert_eq!(p.params(), &[10, 20]);
}

#[test]
fn parser_parses_private_mode() {
    let mut p = Parser::new();
    let mut last = Action::Nop;
    for &b in b"\x1b[?1049h" {
        last = p.advance(b);
    }
    assert_eq!(
        last,
        Action::CsiDispatch {
            params_count: 1,
            intermediate: b'?',
            final_byte: b'h',
        }
    );
    assert_eq!(p.params(), &[1049]);
}

#[test]
fn parser_osc_string_terminates_on_bell() {
    let mut p = Parser::new();
    assert_eq!(p.advance(0x1b), Action::Nop);
    assert_eq!(p.advance(b']'), Action::Nop);
    assert_eq!(p.advance(b'0'), Action::Nop);
    assert_eq!(p.advance(b';'), Action::Nop);
    assert_eq!(p.advance(b'x'), Action::Nop);
    assert_eq!(p.advance(0x07), Action::OscDispatch(b"0;x".to_vec()));
    assert_eq!(p.advance(b'A'), Action::Print(b'A'));
}

#[test]
fn parser_escape_dispatch() {
    let mut p = Parser::new();
    assert_eq!(p.advance(0x1b), Action::Nop);
    assert_eq!(
        p.advance(b'M'),
        Action::EscDispatch {
            intermediate: 0,
            final_byte: b'M',
        }
    );
}

fn parse_throughput_mb_per_sec(input: &[u8]) -> f64 {
    let mut p = Parser::new();
    let start = std::time::Instant::now();
    for &b in input {
        std::hint::black_box(p.advance(b));
    }
    let secs = start.elapsed().as_secs_f64().max(1e-9);
    (input.len() as f64 / (1024.0 * 1024.0)) / secs
}

#[test]
fn parser_throughput_exceeds_50_mb_per_sec() {
    let payload = vec![b'A'; 8 * 1024 * 1024];
    let rate = parse_throughput_mb_per_sec(&payload);
    assert!(
        rate > 50.0,
        "parser throughput too low: {rate:.0} MB/s (debug build expected >50)"
    );
}

#[test]
fn osc_ended_by_escape_dispatches_and_reenters_escape() {
    let mut p = Parser::new();
    for &b in b"\x1b]0;t" {
        p.advance(b);
    }
    assert_eq!(p.advance(0x1b), Action::OscDispatch(b"0;t".to_vec()));
    assert_eq!(
        p.advance(b'\\'),
        Action::EscDispatch {
            intermediate: 0,
            final_byte: b'\\',
        }
    );
}

#[test]
fn dcs_is_skipped_until_escape() {
    let mut p = Parser::new();
    for &b in b"\x1bPabc" {
        assert_eq!(p.advance(b), Action::Nop);
    }
    assert_eq!(p.advance(0x1b), Action::Nop);
    assert_eq!(p.advance(b'M'), Action::EscDispatch { intermediate: 0, final_byte: b'M' });
    assert_eq!(p.advance(0x7f), Action::Nop);
    assert_eq!(p.advance(0xe9), Action::Print(0xe9));
}
