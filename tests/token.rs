use rgdb::parser::{
    parse_c_string, parse_ident, parse_list, parse_out_of_band_record, parse_output_oneline,
    parse_result, parse_tok, parse_tuple, parse_value,
};
use rgdb::token::{
    AsyncClassType, AsyncOutputType, AsyncRecordType, ExecAsyncOutputType, List,
    NotifyAsyncOutputType, OutOfBandRecordType, OutputOneline, ResultClassType, ResultType, Tok,
    Tuple, ValueType,
};

fn r(variable: &str, value: ValueType) -> ResultType {
    ResultType { variable: variable.to_string(), value }
}

fn c(s: &str) -> ValueType {
    ValueType::Const(s.to_string())
}

#[test]
fn token_f_string_char_1() {
    let s = r#"c"#;
    let a = parse_ident(s);
    println!("s:{:?} {} {:?}", &s, s.len(), &a);
    assert!(a.unwrap() == *"c");
}

#[test]
fn token_f_string_char_2() {
    let s = r#"3"#;
    let a = parse_ident(s);
    println!("s:{:?} {} {:?}", &s, s.len(), &a);
    assert!(a.unwrap() == *"3");
}

#[test]
fn token_f_id() {
    let s = r#"3asdfwerasdf"#;
    let a = parse_ident(s);
    println!("s:{:?} {} {:?}", &s, s.len(), &a);
    assert!(a.unwrap() == *s);
}

#[test]
fn token_f_double_quotes() {
    let s = r##"""##;
    let a = parse_tok(s);
    println!("s:{:?} {} {:?}", &s, s.len(), &a);
    assert!(a.unwrap() == Tok::DoubleQuotes);
}

#[test]
fn token_f_c_string() {
    let s = r##""3asdfwerasdf""##;
    let a = parse_c_string(s);
    println!("s:{:?} {} {:?}", &s, s.len(), &a);
    assert!(a.unwrap() == *"3asdfwerasdf");
}

#[test]
fn f_c_string_1() {
    let s = r###""\"3asdfwerasdf""###;
    let a = parse_c_string(s);
    println!("s:{:?} {} {:?}", &s, s.len(), &a);
    assert!(a.unwrap() == *"\\\"3asdfwerasdf");
}

#[test]
fn f_c_string_2() {
    let s: &str = r###""3asdfwe\\rasdf""###;
    let a = parse_c_string(s);
    println!("s:{:?} {} {:?}", &s, s.len(), &a);
    assert!(a.unwrap() == *"3asdfwe\\\\rasdf");
}

#[test]
fn f_c_string_3() {
    let s = r###""[]]""###;
    let a = parse_c_string(s);
    println!("s:{:?} {} {:?}", &s, s.len(), &a);
    assert!(a.unwrap() == *"[]]");
}

#[test]
fn f_c_string_4() {
    let s = r###""{""###;
    let a = parse_c_string(s);
    println!("s:{:?} {} {:?}", &s, s.len(), &a);
    assert!(a.unwrap() == *"{");
}

#[test]
fn f_c_string_5() {
    let s = r###""aaaa,""###;
    let a = parse_c_string(s);
    println!("s:{:?} {} {:?}", &s, s.len(), &a);
    assert!(a.unwrap() == *"aaaa,");
}

#[test]
fn f_c_string_6() {
    let s = r###""aaa=a""###;
    let a = parse_c_string(s);
    println!("s:{:?} {} {:?}", &s, s.len(), &a);
    assert!(a.unwrap() == *"aaa=a");
}

#[test]
fn f_c_string_7() {
    let s = r###""~`!@#$%^&*()_-+=<,.>/?:;'|{[}]""###;
    let a = parse_c_string(s);
    println!("s:{:?} {} {:?}", &s, s.len(), &a);
    assert!(a.unwrap() == *r###"~`!@#$%^&*()_-+=<,.>/?:;'|{[}]"###);
}

#[test]
fn f_c_string_8() {
    let s = r###""中文""###;
    let a = parse_c_string(s);
    if let Some(ref b) = a {
        println!("{:?}", &b.bytes());
    }
    println!("s:{:?} bytes {:?} {} parse {:?}", &s, &s.bytes(), s.len(), &a);
    assert!(a.unwrap() == *r###"中文"###);
}

#[test]
fn f_c_string_9() {
    let s = r###""日本語""###;
    let a = parse_c_string(s);
    if let Some(ref b) = a {
        println!("{:?}", &b.bytes());
    }
    println!("s:{:?} bytes {:?} {} parse {:?}", &s, &s.bytes(), s.len(), &a);
    assert!(a.unwrap() == *r###"日本語"###);
}

#[test]
fn f_c_string_10() {
    let s = r###""ελληνικά""###;
    let a = parse_c_string(s);
    if let Some(ref b) = a {
        println!("{:?}", &b.bytes());
    }
    println!("s:{:?} bytes {:?} {} parse {:?}", &s, &s.bytes(), s.len(), &a);
    assert!(a.unwrap() == *r###"ελληνικά"###);
}

#[test]
fn f_c_string_11() {
    let languages = [
        r##""英语 - English""##,
        r##""印地语 - हिन्दी""##,
        r##""西班牙语 - Español""##,
        r##""阿拉伯语 - العربية""##,
        r##""孟加拉语 - বাংলা""##,
        r##""法语 - Français""##,
        r##""俄语 - Русский""##,
        r##""葡萄牙语 - Português""##,
        r##""乌尔都语 - اردو""##,
        r##""印尼语 - Bahasa Indonesia""##,
        r##""德语 - Deutsch""##,
        r##""日语 - 日本語""##,
        r##""斯瓦希里语 - Kiswahili""##,
        r##""泰卢固语 - తెలుగు""##,
        r##""马拉地语 - मराठी""##,
        r##""泰米尔语 - தமிழ்""##,
        r##""土耳其语 - Türkçe""##,
        r##""越南语 - Tiếng Việt""##,
        r##""韩语 - 한국어""##,
        r##""意大利语 - Italiano""##,
        r##""泰语 - ภาษาไทย""##,
        r##""古吉拉特语 - ગુજરાતી""##,
        r##""波斯语 - فارسی""##,
        r##""波兰语 - Polski""##,
        r##""旁遮普语 - ਪੰਜਾਬੀ""##,
        r##""乌克兰语 - Українська""##,
        r##""马来语 - Bahasa Melayu""##,
        r##""荷兰语 - Nederlands""##,
        r##""菲律宾语 - Filipino""##,
        r##""缅甸语 - မြန်မာဘာသာ""##,
        r##""僧伽罗语 - සිංහල""##,
        r##""高棉语 - ភាសាខ្មែរ""##,
        r##""普什图语 - پښتو""##,
        r##""豪萨语 - Hausa""##,
        r##""约鲁巴语 - Yorùbá""##,
        r##""伊博语 - Igbo""##,
    ];
    languages.iter().for_each(|s| {
        let a = parse_c_string(s);
        if let Some(ref b) = a {
            println!("{:?}", &b.bytes());
        }
        println!("s:{:?} bytes {:?} {} parse {:?}", &s, &s.bytes(), s.len(), &a);
        assert!(a.unwrap() == s[1..s.len() - 1]);
    })
}

#[test]
fn f_c_string_12() {
    let s = r###""this is a 中文 in 文章""###;
    let a = parse_c_string(s);
    assert!(a.unwrap() == *r###"this is a 中文 in 文章"###);
}

#[test]
fn f_c_string_13() {
    let s = "\"\t\r\n\"";
    let a = parse_c_string(s);
    assert!(a.unwrap() == *"\t\r\n");
}

#[test]
fn f_c_string_14() {
    let s = "\"¡¢£¤¥¦§¨©ª«¬®¯°±²³´µ¶·¸¹º»¼½¾¿ÀÁÂÃÄÅÆÇÈÉÊËÌÍÎÏÐÑÒÓÔÕÖ×ØÙÚÛÜÝÞßàáâãäåæçèéêëìíîïðñòóôõö÷øùúûüýþÿ\"";
    let a = parse_c_string(s);
    assert!(a.unwrap() == s[1..s.len() - 1]);
}

#[test]
fn token_f_tok_value_const() {
    let a = parse_value("\"/lib64/libexpat.so.1\"");
    assert!(a.unwrap() == ValueType::Const("/lib64/libexpat.so.1".to_string()));
}

#[test]
fn token_f_tok_list_empty() {
    let a = parse_list("[]");
    assert!(a.unwrap() == List::Empty);
}

#[test]
fn token_f_tuple_type_empty() {
    let a = parse_tuple("{}");
    assert!(a.unwrap() == Tuple::Empty);
}

#[test]
fn token_f_tok_result_1() {
    let a = parse_result(r##"result={}"##);
    assert!(a.unwrap() == r("result", ValueType::Tuple(Tuple::Empty)));
}

#[test]
fn token_f_tok_result_2() {
    let a = parse_result(r##"res-ult=[]"##);
    assert!(a.unwrap() == r("res-ult", ValueType::List(List::Empty)));
}

#[test]
fn token_f_tok_mul_tuple() {
    let a = parse_tuple(r##"{number="1",type="breakpoint",disp="del"}"##);
    assert!(
        a.unwrap()
            == Tuple::Results(vec![
                r("number", c("1")),
                r("type", c("breakpoint")),
                r("disp", c("del")),
            ])
    );
}

#[test]
fn token_f_tok_list_resault() {
    let a = parse_list(r##"[number="1",type="breakpoint",disp="del"]"##);
    assert!(
        a.unwrap()
            == List::Results(vec![
                r("number", c("1")),
                r("type", c("breakpoint")),
                r("disp", c("del")),
            ])
    );
}

#[test]
fn token_f_tok_list_value() {
    let a = parse_list(r##"[{from="0x00007ffff5106ff0",to="0x00007ffff5107cd2"},[a="cccc"]]"##);
    assert!(
        a.unwrap()
            == List::Values(vec![
                ValueType::Tuple(Tuple::Results(vec![
                    r("from", c("0x00007ffff5106ff0")),
                    r("to", c("0x00007ffff5107cd2")),
                ])),
                ValueType::List(List::Results(vec![r("a", c("cccc"))])),
            ])
    );
}

fn notify(class: AsyncClassType, resaults: Vec<ResultType>) -> OutOfBandRecordType {
    OutOfBandRecordType::AsyncRecord(AsyncRecordType::NotifyAsyncOutput(NotifyAsyncOutputType {
        async_output: AsyncOutputType { async_class: class, resaults, values: vec![] },
    }))
}

#[test]
fn f_to_k_async_output_type() {
    let a = parse_out_of_band_record(r##"=stopped,reason="end-stepping-range",frame={addr="0x00000000004006ff",func="main",args=[],file="a.c",fullname="/home/shizhilvren/c++/a.c",line="27"},thread-id="1",stopped-threads="all",core="6"
"##);
    println!("{:?}", &a);
    assert!(
        a.unwrap()
            == notify(
                AsyncClassType::Stopped,
                vec![
                    r("reason", c("end-stepping-range")),
                    r(
                        "frame",
                        ValueType::Tuple(Tuple::Results(vec![
                            r("addr", c("0x00000000004006ff")),
                            r("func", c("main")),
                            r("args", ValueType::List(List::Empty)),
                            r("file", c("a.c")),
                            r("fullname", c("/home/shizhilvren/c++/a.c")),
                            r("line", c("27")),
                        ]))
                    ),
                    r("thread-id", c("1")),
                    r("stopped-threads", c("all")),
                    r("core", c("6")),
                ]
            )
    );
}

#[test]
fn f_to_k_async_output_type_1() {
    let a = parse_out_of_band_record("=stopped,arch=\"i386:x86-64\"\n");
    println!("{:?}", &a);
    assert!(a.unwrap() == notify(AsyncClassType::Stopped, vec![r("arch", c("i386:x86-64"))]));
}

#[test]
fn f_to_k_async_output_type_2() {
    let a = parse_out_of_band_record("=thread-selected,id=\"1\",frame={level=\"1\",addr=\"0x000000000020198c\",func=\"main\",args=[],file=\"args.c\",fullname=\"/remote/x/x/code/c++/args.c\",line=\"7\",arch=\"i386:x86-64\"}\n");
    println!("{:?}", &a);
    assert!(
        a.unwrap()
            == notify(
                AsyncClassType::ThreadSelected,
                vec![
                    r("id", c("1")),
                    r(
                        "frame",
                        ValueType::Tuple(Tuple::Results(vec![
                            r("level", c("1")),
                            r("addr", c("0x000000000020198c")),
                            r("func", c("main")),
                            r("args", ValueType::List(List::Empty)),
                            r("file", c("args.c")),
                            r("fullname", c("/remote/x/x/code/c++/args.c")),
                            r("line", c("7")),
                            r("arch", c("i386:x86-64")),
                        ]))
                    ),
                ]
            )
    );
}

#[test]
fn f_tok_exec_async_output_type() {
    let a = parse_out_of_band_record("*running,thread-id=\"1\"\r\n");
    println!("{:?}", &a);
    assert!(
        a.unwrap()
            == OutOfBandRecordType::AsyncRecord(AsyncRecordType::ExecAsyncOutput(
                ExecAsyncOutputType {
                    async_output: AsyncOutputType {
                        async_class: AsyncClassType::Running,
                        resaults: vec![r("thread-id", c("1"))],
                        values: vec![],
                    }
                }
            ))
    );
}

#[test]
fn token_f0() {}

#[test]
fn unknown_class_does_not_stop_parsing() {
    let a = parse_out_of_band_record("=library-loaded,id=\"/lib64/libc.so.6\",ranges=[{from=\"0x1\",to=\"0x2\"}]\n").unwrap();
    assert_eq!(
        a,
        notify(
            AsyncClassType::Unknown,
            vec![
                r("id", c("/lib64/libc.so.6")),
                r(
                    "ranges",
                    ValueType::List(List::Values(vec![ValueType::Tuple(Tuple::Results(vec![
                        r("from", c("0x1")),
                        r("to", c("0x2")),
                    ]))]))
                ),
            ]
        )
    );
}

#[test]
fn malformed_lines_are_errors() {
    assert!(parse_output_oneline("(gdb) \n").is_err());
    assert!(parse_output_oneline("~\"text\"\n").is_err());
    assert!(parse_output_oneline("=stopped,reason=\"x\"").is_err());
    assert!(parse_output_oneline("=stopped,reason=\"x\n").is_err());
    assert!(parse_output_oneline("=stopped,reason={a=\"1\"\n").is_err());
    assert!(parse_output_oneline("").is_err());
    assert!(parse_c_string("\"ab").is_none());
    assert!(parse_ident("a b").is_none());
    assert!(parse_tok("==").is_none());
}

#[test]
fn result_record_classes() {
    match parse_output_oneline("^done,value=\"1\"\n").unwrap() {
        OutputOneline::ResultRecord(rec) => {
            assert_eq!(rec.result_class, ResultClassType::Done);
            assert_eq!(rec.results, vec![r("value", c("1"))]);
        }
        _ => panic!("not a result record"),
    }
    match parse_output_oneline("^error,msg=\"No symbol\"\n").unwrap() {
        OutputOneline::ResultRecord(rec) => assert_eq!(rec.result_class, ResultClassType::Other),
        _ => panic!("not a result record"),
    }
}

#[test]
fn escapes_are_kept_literally() {
    assert_eq!(parse_c_string("\"a\\nb\"").unwrap(), "a\\nb");
    assert_eq!(parse_c_string("\"\\\\\"").unwrap(), "\\\\");
}

#[test]
fn tokens() {
    assert_eq!(parse_tok("="), Some(Tok::Eq));
    assert_eq!(parse_tok(","), Some(Tok::Comma));
}
