use rgdb::disassemble::{
    get_disassemble_function, get_disassemble_function_line, DisassembleFunction,
    DisassembleFunctionLine,
};
use rgdb::parser::parse_output_oneline;
use rgdb::token::{OutputOneline, ResultType, Tuple, ValueType};

#[test]
fn f_get_disassemble_function_line() {
    let tuple = ValueType::Tuple(Tuple::Results(vec![
        ResultType {
            variable: "address".to_string(),
            value: ValueType::Const("0x0000000000400b10".to_string()),
        },
        ResultType {
            variable: "func-name".to_string(),
            value: ValueType::Const("main".to_string()),
        },
        ResultType {
            variable: "inst".to_string(),
            value: ValueType::Const("mov eax, 0x0".to_string()),
        },
        ResultType {
            variable: "offset".to_string(),
            value: ValueType::Const("0".to_string()),
        },
    ]));
    let (func, dfl) = get_disassemble_function_line(&tuple).unwrap();
    assert_eq!(func, "main");
    assert_eq!(dfl.address, "0x0000000000400b10");
    assert_eq!(dfl.offset, 0);
    assert_eq!(dfl.inst, "mov eax, 0x0");
}

#[test]
fn f_get_disassemble_function() {
    let a = parse_output_oneline("^done,asm_insns=[{address=\"0x00005555555865f0\",func-name=\"main\",offset=\"0\",inst=\"endbr64\"},{address=\"0x00005555555865f4\",func-name=\"main\",offset=\"4\",inst=\"push   %rbp\"},{address=\"0x000055555558834c\",func-name=\"main\",offset=\"7516\",inst=\"mov    %r15,%rcx\"},{address=\"0x000055555558834f\",func-name=\"main\",offset=\"7519\",inst=\"jmp    0x555555587c99 <main+5801>\"}]\n");
    println!("{:?}", &a);
    let a = a.unwrap();
    match a {
        OutputOneline::ResultRecord(r) => {
            let df = get_disassemble_function(r).unwrap();
            println!("df is {:?}", &df);
            assert!(
                df == DisassembleFunction {
                    func: "main".to_string(),
                    insts: vec![
                        DisassembleFunctionLine {
                            address: "0x00005555555865f0".to_string(),
                            offset: 0,
                            inst: "endbr64".to_string()
                        },
                        DisassembleFunctionLine {
                            address: "0x00005555555865f4".to_string(),
                            offset: 4,
                            inst: "push   %rbp".to_string()
                        },
                        DisassembleFunctionLine {
                            address: "0x000055555558834c".to_string(),
                            offset: 7516,
                            inst: "mov    %r15,%rcx".to_string()
                        },
                        DisassembleFunctionLine {
                            address: "0x000055555558834f".to_string(),
                            offset: 7519,
                            inst: "jmp    0x555555587c99 <main+5801>".to_string()
                        }
                    ]
                }
            );
        }
        _ => panic!(),
    }
}

#[test]
fn mixed_functions_give_nothing() {
    let a = parse_output_oneline("^done,asm_insns=[{address=\"0x1\",func-name=\"main\",offset=\"0\",inst=\"nop\"},{address=\"0x2\",func-name=\"other\",offset=\"1\",inst=\"nop\"}]\n").unwrap();
    match a {
        OutputOneline::ResultRecord(r) => assert_eq!(get_disassemble_function(r), None),
        _ => panic!(),
    }
}

#[test]
fn error_reply_gives_nothing() {
    let a = parse_output_oneline("^error,asm_insns=[{address=\"0x1\",func-name=\"main\",offset=\"0\",inst=\"nop\"}]\n").unwrap();
    match a {
        OutputOneline::ResultRecord(r) => assert_eq!(get_disassemble_function(r), None),
        _ => panic!(),
    }
}

#[test]
fn incomplete_instruction_is_skipped() {
    let a = parse_output_oneline("^done,asm_insns=[{address=\"0x1\",func-name=\"main\",inst=\"nop\"},{address=\"0x2\",func-name=\"main\",offset=\"+1\",inst=\"ret\"}]\n").unwrap();
    match a {
        OutputOneline::ResultRecord(r) => {
            let df = get_disassemble_function(r).unwrap();
            assert_eq!(df.insts.len(), 1);
            assert_eq!(df.insts[0].offset, 1);
        }
        _ => panic!(),
    }
}
