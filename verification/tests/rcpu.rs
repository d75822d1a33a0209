use burning_monitor::monitor::rcpu::{get_thread, is_white_space_char, thread_name_from_comm, trim_owned, ROsThread, SThreadCpuSnapshot};

#[test]
fn test() {
    println!("{:04.1}", 1.4567);
}

#[test]
fn thread_name_is_trimmed() {
    assert_eq!(thread_name_from_comm(b"burner\n"), "burner");
    assert_eq!(thread_name_from_comm(b"  tokio01 \t\n"), "tokio01");
    assert_eq!(thread_name_from_comm(b""), "");
}

#[test]
fn thread_name_replaces_malformed_bytes() {
    assert_eq!(thread_name_from_comm(&[0xff, b'a', b'\n']), "\u{fffd}a");
}

#[test]
fn thread_without_comm_has_no_name() {
    let t = get_thread(42, None);
    assert_eq!(t.tid(), 42);
    assert!(t.name.is_none());
    let t = get_thread(7, Some(b"worker\n".to_vec()));
    assert_eq!(t.tid(), 7);
    assert_eq!(t.name.as_deref(), Some("worker"));
}

#[test]
fn snapshot_getters() {
    let s = SThreadCpuSnapshot::new(ROsThread::new(9, Some("x".to_string())), 9650);
    assert_eq!(s.tid(), 9);
    assert_eq!(s.cpu(), 9650);
}

#[test]
fn trim_agrees_with_std() {
    for s in ["", "   ", " a ", "\u{3000}x\u{2028}", "\u{85}mid dle\t", "no-space", "\u{200b}zw\u{200b}"] {
        assert_eq!(trim_owned(s), s.trim(), "{:?}", s);
    }
}

#[test]
fn white_space_agrees_with_std() {
    for c in ['\u{0}', '\t', '\n', '\u{b}', '\u{c}', '\r', ' ', '\u{1c}', '\u{85}', '\u{a0}', '\u{1680}', '\u{180e}', '\u{2000}', '\u{200a}', '\u{200b}', '\u{2028}', '\u{2029}', '\u{202f}', '\u{205f}', '\u{3000}', '\u{feff}', 'a'] {
        assert_eq!(is_white_space_char(c), c.is_whitespace(), "{:?}", c);
    }
}
