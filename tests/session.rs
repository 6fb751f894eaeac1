use rgdb::session::{
    disassemble_command, gdb_argv, handle_pane_key_event, Key, LineFramer, Session, SessionAction,
};
use rgdb::ui::{MouseSelect, MouseSelectComponent, StartPage};

#[test]
fn keys_become_terminal_bytes() {
    assert_eq!(handle_pane_key_event(Key::Char('a'), false), Some(vec![b'a']));
    assert_eq!(handle_pane_key_event(Key::Char('c'), true), Some(vec![3]));
    assert_eq!(handle_pane_key_event(Key::Char('C'), true), Some(vec![3]));
    assert_eq!(handle_pane_key_event(Key::Char('@'), true), Some(vec![0]));
    assert_eq!(handle_pane_key_event(Key::Char(' '), true), Some(vec![0]));
    assert_eq!(handle_pane_key_event(Key::Char('['), true), Some(vec![27]));
    assert_eq!(handle_pane_key_event(Key::Char('7'), true), Some(vec![31]));
    assert_eq!(handle_pane_key_event(Key::Char('1'), true), Some(vec![b'1']));
    assert_eq!(handle_pane_key_event(Key::Char('é'), false), Some("é".as_bytes().to_vec()));
    assert_eq!(handle_pane_key_event(Key::Char('中'), false), Some("中".as_bytes().to_vec()));
    assert_eq!(handle_pane_key_event(Key::Char('😀'), false), Some("😀".as_bytes().to_vec()));
    assert_eq!(handle_pane_key_event(Key::Enter, false), Some(vec![b'\n']));
    assert_eq!(handle_pane_key_event(Key::Left, false), Some(vec![27, 91, 68]));
    assert_eq!(handle_pane_key_event(Key::PageDown, false), Some(vec![27, 91, 54, 126]));
    assert_eq!(handle_pane_key_event(Key::Other, false), None);
}

#[test]
fn debugger_arguments() {
    let argv = gdb_argv("gdb", "/dev/pts/3", &vec!["--args".to_string(), "./a.out".to_string()]);
    assert_eq!(argv, vec!["gdb", "--nw", "--ex", "new-ui mi3 /dev/pts/3", "--args", "./a.out"]);
    assert_eq!(disassemble_command("0x1234"), "-data-disassemble -a 0x1234 -- 0");
}

#[test]
fn bytes_are_framed_into_lines() {
    let mut f = LineFramer::new();
    assert!(f.feed(b"^done,a=\"").is_empty());
    let lines = f.feed(b"1\"\r\n*running\n(gd");
    assert_eq!(lines, vec![b"^done,a=\"1\"\n".to_vec(), b"*running\n".to_vec()]);
    assert_eq!(f.line, b"(gd".to_vec());
    assert_eq!(f.feed(b"b) \n"), vec![b"(gdb) \n".to_vec()]);
}

#[test]
fn framing_keeps_utf8_and_lone_carriage_returns() {
    let mut f = LineFramer::new();
    let text = "~\"中文\ra\"\r";
    assert!(f.feed(text.as_bytes()).is_empty());
    let lines = f.feed(b"\n");
    assert_eq!(lines.len(), 1);
    assert_eq!(String::from_utf8(lines[0].clone()).unwrap(), "~\"中文\ra\"\n");
}

#[test]
fn child_exit_ends_the_session_once() {
    let mut s = Session::new();
    assert_eq!(s.tick(false), None);
    let first = s.tick(true);
    assert_eq!(first, Some(SessionAction::GdbExit));
    assert_eq!(s.handle(SessionAction::GdbExit), Some(SessionAction::Quit));
    assert_eq!(s.tick(true), None);
    assert_eq!(s.tick(true), None);
    assert_eq!(s.handle(SessionAction::Quit), None);
}

#[test]
fn selection_ends_in_order() {
    let s = MouseSelect { start: (5, 2), end: (1, 2) };
    assert_eq!(s.legalization(), MouseSelect { start: (1, 2), end: (5, 2) });
    let t = MouseSelect { start: (1, 1), end: (1, 2) };
    assert_eq!(t.legalization(), t);
    let c = MouseSelectComponent::new();
    assert!(c.select_range_now.is_none());
    let mut p = StartPage::new();
    assert!(p.is_start());
    p.set_is_start(false);
    assert!(!p.is_start());
}
