use handterm::parser::{Action, Parser};

#[test]
fn prints_ascii() {
    let mut p = Parser::new();
    assert_eq!(p.advance(b'A'), Action::Print(b'A'));
    assert_eq!(p.advance(b'z'), Action::Print(b'z'));
    assert_eq!(p.advance(b' '), Action::Print(b' '));
}

#[test]
fn executes_control() {
    let mut p = Parser::new();
    assert_eq!(p.advance(b'\n'), Action::Execute(b'\n'));
    assert_eq!(p.advance(b'\r'), Action::Execute(b'\r'));
    assert_eq!(p.advance(b'\t'), Action::Execute(b'\t'));
}

#[test]
fn parses_csi_sgr() {
    let mut p = Parser::new();

    assert_eq!(p.advance(0x1b), Action::Nop);
    assert_eq!(p.advance(b'['), Action::Nop);
    assert_eq!(p.advance(b'1'), Action::Nop);
    assert_eq!(p.advance(b';'), Action::Nop);
    assert_eq!(p.advance(b'3'), Action::Nop);
    assert_eq!(p.advance(b'1'), Action::Nop);

    let action = p.advance(b'm');
    assert_eq!(
        action,
        Action::CsiDispatch {
            params_count: 2,
            intermediate: 0,
            final_byte: b'm',
        }
    );
    assert_eq!(p.params(), &[1, 31]);
}

#[test]
fn parses_csi_cursor_move() {
    let mut p = Parser::new();
    for &b in b"\x1b[10;20H" {
        p.advance(b);
    }
    assert_eq!(p.params(), &[10, 20]);
}

#[test]
fn parses_private_mode() {
    let mut p = Parser::new();
    let mut last = Action::Nop;
    for &b in b"\x1b[?1049h" {
        last = p.advance(b);
    }
    assert_eq!(
        last,
        Action::CsiDispatch {
            params_count: 1,
            intermediate: b'?',
            final_byte: b'h',
        }
    );
    assert_eq!(p.params(), &[1049]);
}

#[test]
fn osc_string_terminates_on_bell() {
    let mut p = Parser::new();
    assert_eq!(p.advance(0x1b), Action::Nop);
    assert_eq!(p.advance(b']'), Action::Nop);
    assert_eq!(p.advance(b'0'), Action::Nop);
    assert_eq!(p.advance(b';'), Action::Nop);
    assert_eq!(p.advance(b'x'), Action::Nop);
    assert_eq!(p.advance(0x07), Action::OscDispatch(Box::new(b"0;x".to_vec())));
    assert_eq!(p.advance(b'A'), Action::Print(b'A'));
}

#[test]
fn osc_dispatches_payload_on_st() {
    let mut p = Parser::new();
    assert_eq!(p.advance(0x1b), Action::Nop);
    assert_eq!(p.advance(b']'), Action::Nop);
    assert_eq!(p.advance(b'0'), Action::Nop);
    assert_eq!(p.advance(b';'), Action::Nop);
    assert_eq!(p.advance(b'x'), Action::Nop);
    assert_eq!(p.advance(0x1b), Action::Nop);
    assert_eq!(p.advance(b'\\'), Action::OscDispatch(Box::new(b"0;x".to_vec())));
}

#[test]
fn dcs_dispatches_payload() {
    let mut p = Parser::new();
    assert_eq!(p.advance(0x1b), Action::Nop);
    assert_eq!(p.advance(b'P'), Action::Nop);
    assert_eq!(p.advance(b'+'), Action::Nop);
    assert_eq!(p.advance(b'q'), Action::Nop);
    assert_eq!(p.advance(b'1'), Action::Nop);
    assert_eq!(p.advance(b'2'), Action::Nop);
    assert_eq!(p.advance(0x1b), Action::Nop);
    assert_eq!(p.advance(b'\\'), Action::DcsDispatch(Box::new(b"+q12".to_vec())));
}

#[test]
fn escape_dispatch() {
    let mut p = Parser::new();
    assert_eq!(p.advance(0x1b), Action::Nop);
    assert_eq!(
        p.advance(b'M'),
        Action::EscDispatch {
            intermediate: 0,
            final_byte: b'M',
        }
    );
}

#[test]
fn action_is_register_sized() {
    assert!(
        std::mem::size_of::<Action>() <= 16,
        "Action grew to {} bytes; the hot parser path depends on it fitting in registers",
        std::mem::size_of::<Action>()
    );
}

#[test]
fn csi_params_do_not_leak_between_sequences() {
    let mut p = Parser::new();
    for &b in b"\x1b[11;22;33;44m" {
        p.advance(b);
    }
    assert_eq!(p.params(), &[11, 22, 33, 44]);

    let mut last = Action::Nop;
    for &b in b"\x1b[9m" {
        last = p.advance(b);
    }
    assert_eq!(
        last,
        Action::CsiDispatch {
            params_count: 1,
            intermediate: 0,
            final_byte: b'm',
        }
    );
    assert_eq!(p.params(), &[9]);
    assert_eq!(p.param(0, 0), 9);
    assert_eq!(p.param(1, 7), 7);
}

#[test]
fn boxed_dispatch_payload_roundtrips() {
    let mut p = Parser::new();
    for &b in b"\x1b]2;hello world\x07" {
        let action = p.advance(b);
        if let Action::OscDispatch(data) = action {
            assert_eq!(&data[..], b"2;hello world");
            return;
        }
    }
    panic!("expected an OscDispatch action");
}

#[test]
fn apc_payload_is_dispatched_and_parser_returns_to_ground() {
    let mut p = Parser::new();
    let mut last = Action::Nop;
    for &b in b"\x1b_Ga=T;AAAA\x1b\\" {
        last = p.advance(b);
    }
    assert_eq!(last, Action::ApcDispatch(Box::new(b"Ga=T;AAAA".to_vec())));
    assert!(p.is_ground());
}

#[test]
fn csi_params_saturate_and_are_capped_at_sixteen() {
    let mut p = Parser::new();
    for &b in b"\x1b[99999;1;2;3;4;5;6;7;8;9;10;11;12;13;14;15;16;17m" {
        p.advance(b);
    }
    assert_eq!(p.params().len(), 16);
    assert_eq!(p.param(0, 0), u16::MAX);
    assert_eq!(p.param(15, 0), 15);
}

#[test]
fn osc_payload_is_cut_at_limit() {
    let mut p = Parser::new();
    p.advance(0x1b);
    p.advance(b']');
    for _ in 0..5000 {
        p.advance(b'a');
    }
    match p.advance(0x07) {
        Action::OscDispatch(data) => assert_eq!(data.len(), 4096),
        other => panic!("unexpected {other:?}"),
    }
}
