use rgdb::breakpointmi::{
    show_bkpt, show_breakpoint_deleted, BreakPointAction, BreakPointMultipleAction,
    BreakPointSignalAction, BreakPointSignalActionSrc,
};
use rgdb::parser::parse_out_of_band_record;
use rgdb::token::{
    AsyncClassType, AsyncOutputType, AsyncRecordType, List, NotifyAsyncOutputType,
    OutOfBandRecordType, ResultType, Tuple, ValueType,
};

fn r(variable: &str, value: ValueType) -> ResultType {
    ResultType { variable: variable.to_string(), value }
}

fn c(s: &str) -> ValueType {
    ValueType::Const(s.to_string())
}

#[test]
fn f_breakpoint_created() {
    let a = parse_out_of_band_record("=breakpoint-created,bkpt={number=\"1\",type=\"breakpoint\",disp=\"del\",enabled=\"y\",addr=\"0x0000000000404570\",func=\"main\",file=\"tmux.c\",fullname=\"/home/shizhilvren/tmux/tmux.c\",line=\"355\",thread-groups=[\"i1\"],times=\"0\",original-location=\"main\"}\n");
    println!("{:?}", &a);
    assert!(
        a.unwrap()
            == OutOfBandRecordType::AsyncRecord(AsyncRecordType::NotifyAsyncOutput(
                NotifyAsyncOutputType {
                    async_output: AsyncOutputType {
                        async_class: AsyncClassType::BreakpointCreated,
                        values: vec![],
                        resaults: vec![r(
                            "bkpt",
                            ValueType::Tuple(Tuple::Results(vec![
                                r("number", c("1")),
                                r("type", c("breakpoint")),
                                r("disp", c("del")),
                                r("enabled", c("y")),
                                r("addr", c("0x0000000000404570")),
                                r("func", c("main")),
                                r("file", c("tmux.c")),
                                r("fullname", c("/home/shizhilvren/tmux/tmux.c")),
                                r("line", c("355")),
                                r("thread-groups", ValueType::List(List::Values(vec![c("i1")]))),
                                r("times", c("0")),
                                r("original-location", c("main")),
                            ]))
                        )]
                    }
                }
            ))
    );
}

#[test]
fn f_breakpoint_modified() {
    let a = parse_out_of_band_record("=breakpoint-modified,bkpt={}\n");
    assert!(
        a.unwrap()
            == OutOfBandRecordType::AsyncRecord(AsyncRecordType::NotifyAsyncOutput(
                NotifyAsyncOutputType {
                    async_output: AsyncOutputType {
                        async_class: AsyncClassType::BreakpointModified,
                        values: vec![],
                        resaults: vec![r("bkpt", ValueType::Tuple(Tuple::Empty))]
                    }
                }
            ))
    );
}

#[test]
fn f_breakpoint_deleted() {
    let a = parse_out_of_band_record("=breakpoint-deleted,id=\"1\"\n");
    assert!(
        a.unwrap()
            == OutOfBandRecordType::AsyncRecord(AsyncRecordType::NotifyAsyncOutput(
                NotifyAsyncOutputType {
                    async_output: AsyncOutputType {
                        async_class: AsyncClassType::BreakpointDeleted,
                        values: vec![],
                        resaults: vec![r("id", c("1"))]
                    }
                }
            ))
    );
}

#[test]
fn f_breakpoint_created_2() {
    let a = parse_out_of_band_record("=breakpoint-created,bkpt={number=\"1\",type=\"breakpoint\",disp=\"del\",enabled=\"y\",addr=\"0x0000000000404570\",func=\"main\",file=\"tmux.c\",fullname=\"/home/shizhilvren/tmux/tmux.c\",line=\"355\",thread-groups=[\"i1\"],times=\"0\",original-location=\"main\"}\n");
    let bkpt = show_bkpt(&a.unwrap());
    assert!(
        bkpt == Some(BreakPointAction::Signal(BreakPointSignalAction {
            number: "1".to_string(),
            enabled: true,
            src: Some(BreakPointSignalActionSrc {
                fullname: "/home/shizhilvren/tmux/tmux.c".to_string(),
                line: 355_u64,
            }),
            addr: "0x0000000000404570".to_string(),
        }))
    );
}

#[test]
fn f_breakpoint_modified_2() {
    let a = parse_out_of_band_record("=breakpoint-modified,bkpt={number=\"2\",type=\"breakpoint\",disp=\"keep\",enabled=\"n\",addr=\"0x0000000000404570\",func=\"main\",file=\"tmux.c\",fullname=\"/home/shizhilvren/tmux/tmux.c\",line=\"355\",thread-groups=[\"i1\"],cond=\"1==2\",times=\"0\",original-location=\"main\"}\n");
    let bkpt = show_bkpt(&a.unwrap());
    assert!(
        bkpt == Some(BreakPointAction::Signal(BreakPointSignalAction {
            number: "2".to_string(),
            enabled: false,
            src: Some(BreakPointSignalActionSrc {
                fullname: "/home/shizhilvren/tmux/tmux.c".to_string(),
                line: 355_u64,
            }),
            addr: "0x0000000000404570".to_string(),
        }))
    );
}

#[test]
fn f_breakpoint_deleted_2() {
    let a = parse_out_of_band_record("=breakpoint-deleted,id=\"11\"\n");
    let bkpt = show_breakpoint_deleted(&a.unwrap());
    assert!(bkpt == Some(11_u64));
}

fn environ_children(n1: &str, n2: &str) -> Vec<BreakPointSignalAction> {
    vec![
        BreakPointSignalAction {
            number: n1.to_string(),
            enabled: true,
            src: Some(BreakPointSignalActionSrc {
                line: 34_u64,
                fullname: "/home/shizhilvren/tmux/environ.c".to_string(),
            }),
            addr: "0x0000000000426d70".to_string(),
        },
        BreakPointSignalAction {
            number: n2.to_string(),
            enabled: false,
            src: Some(BreakPointSignalActionSrc {
                line: 34_u64,
                fullname: "/home/shizhilvren/tmux/environ.c".to_string(),
            }),
            addr: "0x0000000000427c61".to_string(),
        },
    ]
}

#[test]
fn f_breakpoint_modified_3() {
    let a = parse_out_of_band_record("=breakpoint-modified,bkpt={number=\"5\",type=\"breakpoint\",disp=\"keep\",enabled=\"n\",addr=\"<MULTIPLE>\",times=\"3\",original-location=\"/home/shizhilvren/tmux/environ.c:1\"},\
{number=\"5.1\",enabled=\"y\",addr=\"0x0000000000426d70\",func=\"environ_RB_INSERT\",file=\"environ.c\",fullname=\"/home/shizhilvren/tmux/environ.c\",line=\"34\",thread-groups=[\"i1\"]},\
{number=\"5.2\",enabled=\"n\",addr=\"0x0000000000427c61\",func=\"environ_RB_MINMAX\",file=\"environ.c\",fullname=\"/home/shizhilvren/tmux/environ.c\",line=\"34\",thread-groups=[\"i1\"]}\n");
    let bkpt = show_bkpt(&a.unwrap());
    println!("{:?}", &bkpt);
    assert!(
        bkpt == Some(BreakPointAction::Multiple(BreakPointMultipleAction {
            number: "5".to_string(),
            enabled: false,
            bps: environ_children("5.1", "5.2"),
        }))
    );
}

#[test]
fn f_breakpoint_modified_4() {
    let a = parse_out_of_band_record("=breakpoint-modified,\
    bkpt={number=\"2\",type=\"breakpoint\",disp=\"keep\",enabled=\"n\",addr=\"<MULTIPLE>\",times=\"2\",original-location=\"environ.c:34\",\
    locations=[\
    {number=\"2.1\",enabled=\"y\",addr=\"0x0000000000426d70\",func=\"environ_RB_INSERT\",file=\"environ.c\",fullname=\"/home/shizhilvren/tmux/environ.c\",line=\"34\",thread-groups=[\"i1\"]},\
    {number=\"2.8\",enabled=\"n\",addr=\"0x0000000000427c61\",func=\"environ_RB_MINMAX\",file=\"environ.c\",fullname=\"/home/shizhilvren/tmux/environ.c\",line=\"34\",thread-groups=[\"i1\"]}]}\n");
    println!("{:?}", &a);
    let bkpt = show_bkpt(&a.unwrap());
    println!("{:?}", &bkpt);
    assert!(
        bkpt == Some(BreakPointAction::Multiple(BreakPointMultipleAction {
            number: "2".to_string(),
            enabled: false,
            bps: environ_children("2.1", "2.8"),
        }))
    );
}

#[test]
fn f_breakpoint() {
    let a = BreakPointAction::Multiple(BreakPointMultipleAction {
        number: "5".to_string(),
        enabled: false,
        bps: vec![
            BreakPointSignalAction {
                number: "5.1".to_string(),
                enabled: true,
                src: Some(BreakPointSignalActionSrc {
                    line: 34_u64,
                    fullname: "/home/shizhilvren/tmux/environ.c".to_string(),
                }),
                addr: "0x1234".to_string(),
            },
            BreakPointSignalAction {
                number: "5.2".to_string(),
                enabled: false,
                src: Some(BreakPointSignalActionSrc {
                    line: 34_u64,
                    fullname: "/home/shizhilvren/tmux/environ.c".to_string(),
                }),
                addr: "0x1234".to_string(),
            },
        ],
    });
    let b = BreakPointAction::Signal(BreakPointSignalAction {
        number: "5".to_string(),
        enabled: true,
        src: Some(BreakPointSignalActionSrc {
            line: 34_u64,
            fullname: "/home/shizhilvren/tmux/environ.c".to_string(),
        }),
        addr: "0x1234".to_string(),
    });
    assert!(a != b);
}

#[test]
fn dialects_give_the_same_multiple_breakpoint() {
    let sibling = parse_out_of_band_record("=breakpoint-modified,bkpt={number=\"5\",enabled=\"y\",addr=\"<MULTIPLE>\"},{number=\"5.1\",enabled=\"y\",addr=\"0x10\"},{number=\"5.2\",enabled=\"n\",addr=\"0x20\",fullname=\"/a.c\",line=\"3\"}\n").unwrap();
    let inline = parse_out_of_band_record("=breakpoint-modified,bkpt={number=\"5\",enabled=\"y\",addr=\"<MULTIPLE>\",locations=[{number=\"5.1\",enabled=\"y\",addr=\"0x10\"},{number=\"5.2\",enabled=\"n\",addr=\"0x20\",fullname=\"/a.c\",line=\"3\"}]}\n").unwrap();
    let a = show_bkpt(&sibling);
    let b = show_bkpt(&inline);
    assert!(a.is_some());
    assert_eq!(a, b);
    match a {
        Some(BreakPointAction::Multiple(m)) => {
            assert_eq!(m.bps.len(), 2);
            assert_eq!(m.bps[0].src, None);
            assert_eq!(m.bps[1].src.as_ref().map(|s| s.line), Some(3));
        }
        _ => panic!("not a multiple breakpoint"),
    }
}

#[test]
fn breakpoint_without_source_keeps_address() {
    let a = parse_out_of_band_record("=breakpoint-created,bkpt={number=\"3\",enabled=\"y\",addr=\"0x0000000000401000\"}\n").unwrap();
    assert_eq!(
        show_bkpt(&a),
        Some(BreakPointAction::Signal(BreakPointSignalAction {
            number: "3".to_string(),
            enabled: true,
            src: None,
            addr: "0x0000000000401000".to_string(),
        }))
    );
}

#[test]
fn pending_breakpoint_is_not_reported() {
    let a = parse_out_of_band_record("=breakpoint-created,bkpt={number=\"4\",enabled=\"y\",addr=\"<PENDING>\"}\n").unwrap();
    assert_eq!(show_bkpt(&a), None);
}

#[test]
fn deleted_id_must_be_a_number() {
    let a = parse_out_of_band_record("=breakpoint-deleted,id=\"x1\"\n").unwrap();
    assert_eq!(show_breakpoint_deleted(&a), None);
    let b = parse_out_of_band_record("=breakpoint-created,id=\"1\"\n").unwrap();
    assert_eq!(show_breakpoint_deleted(&b), None);
}
