use handterm::ipc::{host_socket_file_name, host_socket_name, memchr_newline};
use handterm::native_scroll::{
    child_envs, child_window_id, socket_path_for_window,
    socket_env_key, take_line, term_program_env_key, term_program_env_value, window_env_key,
    PaneKind, PaneSnapshot, PaneState,
};
use handterm::backend::Backend;

#[test]
fn pane_hit_testing_uses_cell_rect() {
    let snapshot = PaneSnapshot {
        panes: vec![PaneState {
            kind: PaneKind::Chat,
            x: 2,
            y: 3,
            width: 10,
            height: 4,
            position: 0,
            content_length: 20,
            viewport_length: 4,
        }],
    };
    assert_eq!(snapshot.hovered_pane(2, 3), Some(PaneKind::Chat));
    assert_eq!(snapshot.hovered_pane(11, 6), Some(PaneKind::Chat));
    assert_eq!(snapshot.hovered_pane(12, 6), None);
}

#[test]
fn only_scrollable_panes_are_hovered_and_the_first_wins() {
    let pane = |kind, content_length, viewport_length| PaneState {
        kind,
        x: 0,
        y: 0,
        width: 5,
        height: 5,
        position: 0,
        content_length,
        viewport_length,
    };
    let snapshot = PaneSnapshot {
        panes: vec![
            pane(PaneKind::Chat, 3, 4),
            pane(PaneKind::SidePanel, 9, 4),
            pane(PaneKind::Chat, 9, 4),
        ],
    };
    assert_eq!(snapshot.hovered_pane(1, 1), Some(PaneKind::SidePanel));
    assert!(!pane(PaneKind::Chat, 5, 0).scrollable());
    assert_eq!(PaneSnapshot::default().hovered_pane(0, 0), None);
}

#[test]
fn environment_names() {
    assert_eq!(socket_env_key(), "HANDTERM_NATIVE_SCROLL_SOCKET");
    assert_eq!(window_env_key(), "HANDTERM_WINDOW_ID");
    assert_eq!(term_program_env_key(), "TERM_PROGRAM");
    assert_eq!(term_program_env_value(), "handterm");
}

#[test]
fn lines_are_taken_whole_and_empty_lines_dropped() {
    let mut buf = b"\n\n{\"a\":1}\n{\"b\"".to_vec();
    assert_eq!(take_line(&mut buf), Some(b"{\"a\":1}".to_vec()));
    assert_eq!(buf, b"{\"b\"".to_vec());
    assert_eq!(take_line(&mut buf), None);
    assert_eq!(buf, b"{\"b\"".to_vec());
    let mut blank = b"\n\n".to_vec();
    assert_eq!(take_line(&mut blank), None);
    assert!(blank.is_empty());
}

#[test]
fn socket_names() {
    assert_eq!(memchr_newline(b"ab\ncd\n"), Some(2));
    assert_eq!(memchr_newline(b"abcd"), None);
    assert_eq!(host_socket_name(Backend::Cpu), "handterm-cpu.sock");
    assert_eq!(host_socket_name(Backend::Gpu), "handterm-gpu.sock");
    assert!(host_socket_file_name("handterm-gpu.sock"));
    assert!(host_socket_file_name("handterm-1234.sock"));
    assert!(!host_socket_file_name("handterm.sock"));
    assert!(!host_socket_file_name("other-handterm-1.sock"));
}

#[test]
fn scroll_bridge_socket_and_child_environment() {
    assert_eq!(
        socket_path_for_window("/run/user/1000", 42, 7),
        "/run/user/1000/handterm-scroll-42-7.sock"
    );
    let envs = child_envs("/run/user/1000/handterm-scroll-42-7.sock", 7);
    assert_eq!(
        envs,
        vec![
            ("HANDTERM_NATIVE_SCROLL_SOCKET", "/run/user/1000/handterm-scroll-42-7.sock".to_string()),
            ("HANDTERM_WINDOW_ID", "7".to_string()),
            ("TERM_PROGRAM", "handterm".to_string()),
        ]
    );
    assert_eq!(child_window_id(Some("18446744073709551615")), Some(u64::MAX));
    assert_eq!(child_window_id(Some("x")), None);
    assert_eq!(child_window_id(None), None);
}

#[test]
fn window_id_written_for_a_child_reads_back() {
    for id in [0u64, 7, 1234567890123, u64::MAX] {
        let envs = child_envs("/tmp/s.sock", id);
        assert_eq!(child_window_id(Some(&envs[1].1)), Some(id));
    }
}
