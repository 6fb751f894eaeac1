use rgdb::asmfuncdata::AsmFuncData;
use rgdb::breakpoint::BreakPointData;
use rgdb::breakpointmi::{
    BreakPointAction, BreakPointMultipleAction, BreakPointSignalAction, BreakPointSignalActionSrc,
};
use rgdb::code::{Action, Code, EntityState, FileDataReal, FileNeedShow};
use rgdb::disassemble::{DisassembleFunction, DisassembleFunctionLine};
use rgdb::frame::Frame;
use rgdb::srcfiledata::{Color, SrcFileData};
use std::collections::HashMap;

#[test]
fn test_crtl_ascii_00_0f() {
    let line = "\u{0}\u{1}\u{2}\u{3}\u{4}\u{5}\u{6}\u{7}\u{8}\u{b}\u{c}\r\u{e}\u{f}";
    let line = SrcFileData::read_file_filter(line.to_string());
    println!("{:?}", line);
    assert!(line == r##"\{NUL}\{SOH}\{STX}\{ETX}\{EOT}\{ENQ}\{ACK}\{BEL}\{BS}\{VT}\{FF}\{SO}\{SI}"##);
}

#[test]
fn test_crtl_ascii_10_1f() {
    let line = "\u{10}\u{11}\u{12}\u{13}\u{14}\u{15}\u{16}\u{17}\u{18}\u{19}\u{1a}\u{1b}\u{1c}\u{1d}\u{1e}\u{1f}\u{7f}";
    let line = SrcFileData::read_file_filter(line.to_string());
    assert!(
        line == r##"\{DLE}\{DC1}\{DC2}\{DC3}\{DC4}\{NAK}\{SYN}\{ETB}\{CAN}\{EM}\{SUB}\{ESC}\{FS}\{GS}\{RS}\{US}\{DEL}"##
    );
}

#[test]
fn test_crtl_ascii_7f() {
    let line = "\u{7f}";
    let line = SrcFileData::read_file_filter(line.to_string());
    assert!(line == r##"\{DEL}"##);
}

#[test]
fn test_crtl_ascii_tab() {
    let line = "\t";
    let line = SrcFileData::read_file_filter(line.to_string());
    assert!(line == "    ");
}

#[test]
fn sanitizer_keeps_other_text_and_newline() {
    let line = SrcFileData::read_file_filter("a\tb\r\n中\u{1b}[0m".to_string());
    assert_eq!(line, "a    b\\{LF}中\\{ESC}[0m");
}

fn environ_multiple(parent: bool) -> BreakPointAction {
    BreakPointAction::Multiple(BreakPointMultipleAction {
        number: "5".to_string(),
        enabled: parent,
        bps: vec![
            BreakPointSignalAction {
                number: "5.1".to_string(),
                enabled: true,
                src: Some(BreakPointSignalActionSrc {
                    line: 34_u64,
                    fullname: "/home/shizhilvren/tmux/environ.c".to_string(),
                }),
                addr: "0x1234".to_string(),
            },
            BreakPointSignalAction {
                number: "5.2".to_string(),
                enabled: false,
                src: Some(BreakPointSignalActionSrc {
                    line: 34_u64,
                    fullname: "/home/shizhilvren/tmux/environ.c".to_string(),
                }),
                addr: "0x1234".to_string(),
            },
        ],
    })
}

#[test]
fn f_breakpoint_range() {
    let a = BreakPointData::from(&environ_multiple(false));
    let mut code = Code::new();
    code.breakpoint(&environ_multiple(false));
    assert_eq!(code.get_breakpoints(), &vec![a]);
    let ans = SrcFileData::new("/home/shizhilvren/tmux/environ.c".to_string())
        .get_breakpoint_need_show_in_range(code.get_breakpoints(), 22, 39);
    println!("{:?}", ans);
    assert!(ans == HashMap::from([(34_u64, false)]));
}

#[test]
fn f_breakpoint_range_2() {
    let mut code = Code::new();
    code.breakpoint(&environ_multiple(true));
    let ans = SrcFileData::new("/home/shizhilvren/tmux/environ.c".to_string())
        .get_breakpoint_need_show_in_range(code.get_breakpoints(), 22, 39);
    assert!(ans == HashMap::from([(34_u64, true)]));
}

#[test]
fn f_breakpoint_range_3() {
    let a = BreakPointAction::Signal(BreakPointSignalAction {
        number: "2".to_string(),
        enabled: true,
        src: Some(BreakPointSignalActionSrc {
            line: 34_u64,
            fullname: "/home/shizhilvren/tmux/environ.c".to_string(),
        }),
        addr: "0x1234".to_string(),
    });
    let b = BreakPointAction::Signal(BreakPointSignalAction {
        number: "6".to_string(),
        enabled: true,
        src: Some(BreakPointSignalActionSrc {
            line: 37_u64,
            fullname: "/home/shizhilvren/tmux/environ.c".to_string(),
        }),
        addr: "0x1234".to_string(),
    });
    let mut code = Code::new();
    code.breakpoint(&a);
    code.breakpoint(&b);
    let ans = SrcFileData::new("/home/shizhilvren/tmux/environ.c".to_string())
        .get_breakpoint_need_show_in_range(code.get_breakpoints(), 22, 36);
    assert!(ans == HashMap::from([(34_u64, true)]));
}

fn three_insts() -> DisassembleFunction {
    DisassembleFunction {
        func: "main".to_string(),
        insts: vec![
            DisassembleFunctionLine {
                address: "0x0000001".to_string(),
                inst: "mov eax, 0x0".to_string(),
                offset: 1_u64,
            },
            DisassembleFunctionLine {
                address: "0x000001a".to_string(),
                inst: "mov eax, 0x0".to_string(),
                offset: 2_u64,
            },
            DisassembleFunctionLine {
                address: "0x000003b".to_string(),
                inst: "mov eax, 0x0".to_string(),
                offset: 5_u64,
            },
        ],
    }
}

fn asm_multiple(parent: bool) -> BreakPointAction {
    BreakPointAction::Multiple(BreakPointMultipleAction {
        number: "5".to_string(),
        enabled: parent,
        bps: vec![
            BreakPointSignalAction {
                number: "5.1".to_string(),
                enabled: true,
                addr: "0x000001a".to_string(),
                src: None,
            },
            BreakPointSignalAction {
                number: "5.1".to_string(),
                enabled: false,
                addr: "0x000001a".to_string(),
                src: None,
            },
        ],
    })
}

#[test]
fn f_breakpoint_range_4() {
    let mut code = Code::new();
    code.breakpoint(&asm_multiple(false));
    let mut ans = AsmFuncData::new("main".to_string());
    ans.add_lines(&three_insts());
    let ans = ans.get_breakpoint_need_show_in_range(code.get_breakpoints(), 2, 3);
    println!("{:?}", ans);
    assert!(ans == HashMap::from([(3_u64, false)]));
}

#[test]
fn f_breakpoint_range_5() {
    let mut code = Code::new();
    code.breakpoint(&asm_multiple(true));
    let mut ans = AsmFuncData::new("main".to_string());
    ans.add_lines(&three_insts());
    let ans = ans.get_breakpoint_need_show_in_range(code.get_breakpoints(), 2, 3);
    println!("{:?}", ans);
    assert!(ans == HashMap::from([(3_u64, true)]));
}

#[test]
fn f_breakpoint_range_6() {
    let a = BreakPointAction::Signal(BreakPointSignalAction {
        number: "2".to_string(),
        enabled: true,
        addr: "0x000001a".to_string(),
        src: None,
    });
    let b = BreakPointAction::Signal(BreakPointSignalAction {
        number: "10".to_string(),
        enabled: false,
        addr: "0x000003b".to_string(),
        src: None,
    });
    let mut code = Code::new();
    code.breakpoint(&a);
    code.breakpoint(&b);
    let mut ans = AsmFuncData::new("main".to_string());
    ans.add_lines(&three_insts());
    let ans = ans.get_breakpoint_need_show_in_range(code.get_breakpoints(), 2, 4);
    println!("{:?}", ans);
    assert!(ans == HashMap::from([(3_u64, true), (4_u64, false)]));
}

#[test]
fn f_get_line_id() {
    let data = AsmFuncData {
        func_name: "main".to_string(),
        addrs: vec![(0x01a_u64, 2), (0x02b_u64, 3), (0x12b_u64, 5)],
        lines: vec![],
        lines_highlight: vec![],
        read_done: true,
        highlight_done: true,
    };
    let id = data.get_line_id("0x000001a");
    println!("{:?}", &id);
    assert!(id == Some(2));
    assert_eq!(data.get_line_id("0x12b"), Some(5));
    assert_eq!(data.get_line_id("0x000001b"), None);
    assert_eq!(data.get_line_id("1a"), None);
}

#[test]
fn test_file_status() {
    let mut file = SrcFileData::new("/file/path/to/name.cpp".to_string());
    (1..62).for_each(|i| {
        file.add_line(format!("{:?}\n", i));
    });
    assert!(file.get_status() == "/file/path/to/name.cpp");
}

#[test]
fn test_asm_file_status() {
    let mut ans = AsmFuncData::new("main".to_string());
    ans.add_lines(&three_insts());
    let status = ans.get_status();
    println!("{:?}", &status);
    assert!(status == "** Dump of assembler code for function main: (0x1 - 0x3b) **");
}

#[test]
fn asm_listing_lines() {
    let mut ans = AsmFuncData::new("main".to_string());
    let f = DisassembleFunction {
        func: "main".to_string(),
        insts: vec![
            DisassembleFunctionLine { address: "0x10".to_string(), offset: 0, inst: "push".to_string() },
            DisassembleFunctionLine { address: "0x10".to_string(), offset: 4, inst: "dup".to_string() },
            DisassembleFunctionLine { address: "0x8".to_string(), offset: 12, inst: "ret".to_string() },
        ],
    };
    ans.add_lines(&f);
    assert_eq!(
        ans.lines,
        vec![
            "Dump of assembler code for function main:\n".to_string(),
            "    0x10 <+0>:  push\n".to_string(),
            "    0x10 <+4>:  dup\n".to_string(),
            "    0x8 <+12>: ret\n".to_string(),
            "End of assembler dump.".to_string(),
        ]
    );
    assert_eq!(ans.addrs, vec![(0x8, 4), (0x10, 2)]);
    assert_eq!(AsmFuncData::new("f".to_string()).get_status(), "** Dump of assembler code for function f: **");
    let (r, s, e) = ans.get_lines_range(2, 4);
    assert_eq!(r, vec!["    0x10 <+0>:  push\n".to_string(), "    0x10 <+4>:  dup\n".to_string()]);
    assert_eq!((s, e), (2, 4));
    let (r, _, e) = ans.get_lines_range(4, 100);
    assert_eq!(r.len(), 2);
    assert_eq!(e, 6);
    ans.add_highlight_lines(vec![vec![(Color::Rgb(1, 2, 3), "x".to_string())]]);
    assert_eq!(ans.lines_highlight[0][1], (Color::Blue, "main".to_string()));
    assert_eq!(ans.lines_highlight[2], vec![(Color::White, "End of assembler dump.".to_string())]);
}

fn frame(func: Option<&str>) -> Frame {
    Frame {
        addr: "0x40".to_string(),
        func: func.map(|f| f.to_string()),
        fullname: Some("/a.c".to_string()),
        line: Some(3),
    }
}

#[test]
fn requesting_a_file_twice_reads_it_once() {
    let mut code = Code::new();
    let first = code.show_file("/a.c".to_string(), 3, frame(None));
    assert!(matches!(first, Some(Action::ReadFile(ref f, _)) if f == "/a.c"));
    let second = code.show_file("/a.c".to_string(), 5, frame(None));
    assert_eq!(second, None);
    assert_eq!(code.files_set.len(), 1);
    assert!(matches!(&code.file_need_show, FileNeedShow::SrcFile(s) if s.line == 5));
}

#[test]
fn populate_events_move_the_file_along() {
    let mut code = Code::new();
    code.show_file("/a.c".to_string(), 1, frame(None));
    code.file_read_line("/a.c", "int a;\n".to_string());
    code.file_read_line("/other.c", "x".to_string());
    let end = code.file_read_end("/a.c");
    assert_eq!(end, Some(Action::HighlightFile("/a.c".to_string(), vec!["int a;\n".to_string()])));
    assert!(code.files_set[0].get_read_done());
    code.file_highlight_line("/a.c", vec![(Color::White, "int a;\n".to_string())]);
    code.file_highlight_end("/a.c");
    assert!(code.files_set[0].get_highlight_done());
    let (h, _, _) = code.files_set[0].get_highlight_lines_range(1, 2);
    assert_eq!(h, vec![vec![(Color::White, "int a;\n".to_string())]]);
    assert_eq!(code.file_read_end("/missing.c"), None);
    let _ = EntityState::HighlightReady;
}

#[test]
fn unreadable_file_falls_back_to_disassembly() {
    let mut code = Code::new();
    code.show_file("/a.c".to_string(), 1, frame(Some("main")));
    let r = code.file_read_fail("/a.c", frame(Some("main")));
    assert!(matches!(r, Some(Action::ShowAsm(ref f, ref a, _)) if f == "main" && a == "0x40"));
    assert!(code.files_set.is_empty());
    assert_eq!(code.file_need_show, FileNeedShow::Nothing);
    let again = code.show_file("/a.c".to_string(), 1, frame(None));
    assert_eq!(again, None);
    let again = code.show_file("/a.c".to_string(), 1, frame(Some("main")));
    assert!(matches!(again, Some(Action::ShowAsm(..))));
}

#[test]
fn disassembly_is_asked_for_once() {
    let mut code = Code::new();
    assert_eq!(code.show_asm("main".to_string(), "0x1".to_string()), Some(Action::DisassembleAsm("0x1".to_string())));
    assert_eq!(code.show_asm("main".to_string(), "0x2".to_string()), None);
    let r = code.read_asm_func(&three_insts());
    assert!(matches!(r, Some(Action::HighlightAsm(ref n, ref l)) if n == "main" && l.len() == 5));
    assert!(code.asm_func_set[0].get_read_done());
    code.asm_highlight_done("main", vec![]);
    assert!(code.asm_func_set[0].get_highlight_done());
    let other = DisassembleFunction { func: "other".to_string(), insts: vec![] };
    assert_eq!(code.read_asm_func(&other), None);
}

#[test]
fn breakpoints_replace_and_delete_by_number() {
    let mut code = Code::new();
    let on = BreakPointAction::Signal(BreakPointSignalAction {
        number: "11".to_string(),
        enabled: true,
        src: None,
        addr: "0x1".to_string(),
    });
    let off = BreakPointAction::Signal(BreakPointSignalAction {
        number: "11".to_string(),
        enabled: false,
        src: None,
        addr: "0x1".to_string(),
    });
    code.breakpoint(&on);
    code.breakpoint(&off);
    assert_eq!(code.breakpoint_set, vec![BreakPointData::from(&off)]);
    code.breakpoint_deleted(12);
    assert_eq!(code.breakpoint_set.len(), 1);
    code.breakpoint_deleted(11);
    assert!(code.breakpoint_set.is_empty());
    assert_eq!(BreakPointData::from(&on).get_key(), "11");
}

fn status_of<T: rgdb::filedata::FileData>(f: &T) -> (String, String, usize) {
    (f.get_status(), f.get_key(), f.get_lines_len())
}

#[test]
fn entities_through_their_interfaces() {
    let mut src = SrcFileData::new("/x.c".to_string());
    src.add_line("a\n".to_string());
    assert_eq!(status_of(&src), ("/x.c".to_string(), "/x.c".to_string(), 1));
    let mut listing = AsmFuncData::new("main".to_string());
    listing.add_lines(&three_insts());
    let (status, key, n) = status_of(&listing);
    assert_eq!(status, "** Dump of assembler code for function main: (0x1 - 0x3b) **");
    assert_eq!(key, "main");
    assert_eq!(n, 5);
}

#[test]
fn what_the_view_shows() {
    let mut code = Code::new();
    assert_eq!(code.get_file_need_show_return_file(), FileDataReal::Nothing);
    code.show_file("/a.c".to_string(), 7, frame(None));
    assert_eq!(code.get_file_need_show_return_file(), FileDataReal::Nothing);
    code.file_read_end("/a.c");
    assert_eq!(code.get_file_need_show_return_file(), FileDataReal::SrcFile(0, 7));
    code.show_asm("main".to_string(), "0x000001a".to_string());
    assert_eq!(code.get_file_need_show_return_file(), FileDataReal::Nothing);
    code.read_asm_func(&three_insts());
    assert_eq!(code.get_file_need_show_return_file(), FileDataReal::AsmFile(0, 3));
    code.show_asm("main".to_string(), "0x0000099".to_string());
    assert_eq!(code.get_file_need_show_return_file(), FileDataReal::Nothing);
}

#[test]
fn test_file_range_1() {
    let mut file = SrcFileData::new("a".to_string());
    (1..62).for_each(|i| {
        file.add_line(format!("{:?}\n", i));
    });
    file.set_read_done();
    let (src, s, e) = file.get_lines_range(4_usize, 36_usize);
    assert!(s == 4_usize);
    assert!(e == 36_usize);
    println!("file range{:?} {} {}", src, s, e);
    (4..37).zip(src.iter()).for_each(|(i, s)| {
        assert!(format!("{:?}\n", i) == *s);
    });
}

#[test]
fn test_file_range_2() {
    let mut file = SrcFileData::new("a".to_string());
    (1..62).for_each(|i| {
        file.add_line(format!("{:?}\n", i));
    });
    file.set_read_done();
    let (src, s, e) = file.get_lines_range(50_usize, 65_usize);
    println!("file range{:?} {} {}", src, s, e);
    assert!(s == 50_usize);
    assert!(e == 62_usize);
    (50..62).zip(src.iter()).for_each(|(i, s)| {
        assert!(format!("{:?}\n", i) == *s);
    });
}

#[test]
fn cached_file_request_gives_nothing_and_keeps_entry() {
    let mut code = Code::new();
    code.show_file("/a.c".to_string(), 1, frame(None));
    code.file_read_line("/a.c", "x".to_string());
    assert_eq!(code.show_file("/a.c".to_string(), 9, frame(Some("main"))), None);
    assert_eq!(code.files_set.len(), 1);
    assert_eq!(code.files_set[0].get_lines_len(), 1);
    let r = code.file_read_fail("/a.c", frame(Some("main")));
    assert!(matches!(r, Some(Action::ShowAsm(_, _, ref f)) if *f == frame(Some("main"))));
}
