use rgdb::frame::{get_frame, show_asm, show_file, Frame};
use rgdb::parser::parse_out_of_band_record;
use rgdb::session::{gdb_mi_line, MiAction};

#[test]
fn f_show_file() {
    let a = parse_out_of_band_record(r##"*stopped,reason="end-stepping-range",frame={addr="0x00000000004006ff",func="main",args=[],file="a.c",fullname="/home/shizhilvren/c++/a.c",line="27"},thread-id="1",stopped-threads="all",core="6"
"##);
    let b = show_file(&get_frame(&a.as_ref().unwrap()).unwrap());
    println!("{:?} {:?}", &a, &b);
    assert!(b == Some(("/home/shizhilvren/c++/a.c".to_string(), 27_u64)));
}

#[test]
fn f_show_file_2() {
    let a = parse_out_of_band_record("=thread-selected,id=\"1\",frame={level=\"1\",addr=\"0x000000000020198c\",func=\"main\",args=[],file=\"args.c\",fullname=\"/remote/x/x/code/c++/args.c\",line=\"7\",arch=\"i386:x86-64\"}\n");
    let b = show_file(&get_frame(&a.as_ref().unwrap()).unwrap());
    println!("{:?} {:?}", &a, &b);
    assert!(b == Some(("/remote/x/x/code/c++/args.c".to_string(), 7_u64)));
}

#[test]
fn f_show_asm() {
    let a = parse_out_of_band_record("*stopped,reason=\"breakpoint-hit\",disp=\"del\",bkptno=\"1\",frame={addr=\"0x0000555555581c20\",func=\"main\",args=[],arch=\"i386:x86-64\"},thread-id=\"1\",stopped-threads=\"all\",core=\"5\"\n");
    let b = show_asm(&get_frame(&a.as_ref().unwrap()).unwrap());
    println!("{:?} {:?}", &a, &b);
    assert!(b == Some(("main".to_string(), "0x0000555555581c20".to_string())));
}

#[test]
fn stopped_frame_decides_source_display() {
    let events = gdb_mi_line("*stopped,reason=\"end-stepping-range\",frame={addr=\"0x1\",func=\"f\",fullname=\"/home/x/a.c\",line=\"27\"}\n");
    assert_eq!(events.len(), 1);
    match &events[0] {
        MiAction::ShowFile(file, line, frame) => {
            assert_eq!(file, "/home/x/a.c");
            assert_eq!(*line, 27);
            assert_eq!(frame.fullname, Some("/home/x/a.c".to_string()));
            assert_eq!(frame.line, Some(27));
        }
        other => panic!("unexpected {:?}", other),
    }
}

#[test]
fn frame_without_line_goes_to_disassembly() {
    let events = gdb_mi_line("*stopped,frame={addr=\"0x0000555555581c20\",func=\"main\"}\n");
    assert_eq!(
        events,
        vec![MiAction::ShowAsm(
            "main".to_string(),
            "0x0000555555581c20".to_string(),
            Frame {
                addr: "0x0000555555581c20".to_string(),
                func: Some("main".to_string()),
                fullname: None,
                line: None,
            }
        )]
    );
}

#[test]
fn only_stop_and_thread_selection_carry_frames() {
    let a = parse_out_of_band_record("*running,frame={addr=\"0x1\",func=\"f\"}\n").unwrap();
    assert_eq!(get_frame(&a), None);
    let b = parse_out_of_band_record("=stopped,frame={addr=\"0x1\",func=\"f\"}\n").unwrap();
    assert_eq!(get_frame(&b), None);
    assert!(gdb_mi_line("(gdb) \n").is_empty());
}

#[test]
fn breakpoint_events() {
    let e = gdb_mi_line("=breakpoint-deleted,id=\"4\"\n");
    assert_eq!(e, vec![MiAction::BreakpointDeleted(4)]);
    let e = gdb_mi_line("^done,asm_insns=[{address=\"0x1\",func-name=\"main\",offset=\"0\",inst=\"nop\"}]\n");
    assert_eq!(e.len(), 1);
    assert!(matches!(&e[0], MiAction::ReadAsmFunc(d) if d.func == "main"));
}

#[test]
fn empty_frame_tuple_is_a_frame() {
    let a = parse_out_of_band_record("*stopped,frame={}\n").unwrap();
    assert_eq!(
        get_frame(&a),
        Some(Frame { addr: String::new(), func: None, fullname: None, line: None })
    );
    assert!(gdb_mi_line("*stopped,frame={}\n").is_empty());
}
