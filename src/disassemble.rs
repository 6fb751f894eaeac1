use vstd::prelude::*;
use crate::fields::{find_last_const, last_const, opt_view, str_eq};
use crate::number::{number_of, parse_u64};
use crate::token::{List, ResultClassType, ResultRecordType, ResultType, Tuple, ValueType};

verus! {

/// One instruction of a disassembled function.
#[derive(Debug, Clone, PartialEq, Eq)]
pub struct DisassembleFunctionLine {
    pub address: String,
    pub offset: u64,
    pub inst: String,
}

/// A disassembled function: its name and its instructions in order.
#[derive(Debug, Clone, PartialEq, Eq)]
pub struct DisassembleFunction {
    pub func: String,
    pub insts: Vec<DisassembleFunctionLine>,
}

pub struct LineView {
    pub address: Seq<char>,
    pub offset: nat,
    pub inst: Seq<char>,
}

impl View for DisassembleFunctionLine {
    type V = LineView;

    open spec fn view(&self) -> LineView {
        LineView { address: self.address@, offset: self.offset as nat, inst: self.inst@ }
    }
}

/// `offset` is read from the last constant named `offset`.
pub open spec fn offset_of(rs: Seq<ResultType>) -> Option<nat> {
    match last_const(rs, "offset"@) {
        Some(t) => number_of(t, 10),
        None => None,
    }
}

/// An instruction tuple `{address=..,func-name=..,offset=..,inst=..}`: the
/// function it belongs to and the instruction; `None` when a field is missing.
pub open spec fn line_of_value(v: ValueType) -> Option<(Seq<char>, LineView)> {
    match v {
        ValueType::Tuple(Tuple::Results(rs)) => match (
            last_const(rs@, "address"@),
            last_const(rs@, "func-name"@),
            offset_of(rs@),
            last_const(rs@, "inst"@),
        ) {
            (Some(address), Some(func), Some(offset), Some(inst)) => Some(
                (func, LineView { address, offset, inst }),
            ),
            _ => None,
        },
        _ => None,
    }
}

/// The instructions that the values `vs` describe, in order; others are skipped.
pub open spec fn lines_of(vs: Seq<ValueType>) -> Seq<(Seq<char>, LineView)>
    decreases vs.len(),
{
    if vs.len() == 0 {
        Seq::empty()
    } else {
        let pre = lines_of(vs.subrange(0, vs.len() - 1));
        match line_of_value(vs[vs.len() - 1]) {
            Some(l) => pre.push(l),
            None => pre,
        }
    }
}

/// The instruction list of a `^done,asm_insns=[...]` reply, when its first result is one.
pub open spec fn asm_values(r: ResultRecordType) -> Option<Seq<ValueType>> {
    let rs = r.results@;
    if r.result_class == ResultClassType::Done && rs.len() > 0 && rs[0].variable@
        == "asm_insns"@ && rs[0].value is List && rs[0].value->List_0 is Values {
        Some(rs[0].value->List_0->Values_0@)
    } else {
        None
    }
}

/// The function of a reply: there is one when at least one instruction is
/// read and all of them name the same function.
pub open spec fn disassemble_spec(r: ResultRecordType) -> Option<(Seq<char>, Seq<LineView>)> {
    match asm_values(r) {
        Some(vs) => {
            let ls = lines_of(vs);
            if ls.len() > 0 && (forall|i: int| 0 <= i < ls.len() ==> (#[trigger] ls[i]).0 == ls[0].0) {
                Some((ls[0].0, ls.map_values(|l: (Seq<char>, LineView)| l.1)))
            } else {
                None
            }
        },
        None => None,
    }
}

pub open spec fn line_view(o: Option<(String, DisassembleFunctionLine)>) -> Option<(Seq<char>, LineView)> {
    match o {
        Some((f, l)) => Some((f@, l@)),
        None => None,
    }
}

pub open spec fn function_view(o: Option<DisassembleFunction>) -> Option<(Seq<char>, Seq<LineView>)> {
    match o {
        Some(d) => Some((d.func@, d.insts@.map_values(|l: DisassembleFunctionLine| l@))),
        None => None,
    }
}

/// Reads one instruction tuple.
pub fn get_disassemble_function_line(tuple: &ValueType) -> (r: Option<(String, DisassembleFunctionLine)>)
    ensures
        line_view(r) == line_of_value(*tuple),
{
    match tuple {
        ValueType::Tuple(Tuple::Results(rs)) => {
            let address = find_last_const(rs, "address");
            let func = find_last_const(rs, "func-name");
            let offset = match find_last_const(rs, "offset") {
                Some(t) => parse_u64(t.as_str()),
                None => None,
            };
            let inst = find_last_const(rs, "inst");
            match (address, func, offset, inst) {
                (Some(address), Some(func), Some(offset), Some(inst)) => Some(
                    (func, DisassembleFunctionLine { address, offset, inst }),
                ),
                _ => None,
            }
        },
        _ => None,
    }
}

/// Reads the function of a `^done,asm_insns=[...]` reply; `None` when no
/// instruction is read or when they do not all belong to one function.
pub fn get_disassemble_function(r: ResultRecordType) -> (d: Option<DisassembleFunction>)
    ensures
        function_view(d) == disassemble_spec(r),
{
    if r.result_class != ResultClassType::Done || r.results.len() == 0 {
        return None;
    }
    let first = &r.results[0];
    if !str_eq(first.variable.as_str(), "asm_insns") {
        return None;
    }
    let vs = match &first.value {
        ValueType::List(List::Values(vs)) => vs,
        _ => {
            return None;
        },
    };
    assert(asm_values(r) == Some(vs@));
    let mut insts: Vec<DisassembleFunctionLine> = Vec::new();
    let mut func: Option<String> = None;
    let mut same = true;
    let mut i: usize = 0;
    let ghost mut fs: Seq<Seq<char>> = Seq::empty();
    assert(vs@.subrange(0, 0) =~= Seq::<ValueType>::empty());
    while i < vs.len()
        invariant
            0 <= i <= vs@.len(),
            lines_of(vs@.subrange(0, i as int)).map_values(|l: (Seq<char>, LineView)| l.1)
                == insts@.map_values(|l: DisassembleFunctionLine| l@),
            lines_of(vs@.subrange(0, i as int)).map_values(|l: (Seq<char>, LineView)| l.0)
                == fs,
            fs.len() == 0 <==> func is None,
            func matches Some(f) ==> f@ == fs[0],
            same <==> (forall|k: int| 0 <= k < fs.len() ==> #[trigger] fs[k] == fs[0]),
        decreases vs.len() - i,
    {
        let ghost pre = vs@.subrange(0, i + 1);
        assert(pre.subrange(0, pre.len() - 1) =~= vs@.subrange(0, i as int));
        let ghost old_insts = insts@;
        let ghost old_fs = fs;
        let ghost old_same = same;
        match get_disassemble_function_line(&vs[i]) {
            Some((f, l)) => {
                proof {
                    fs = fs.push(f@);
                }
                let is_same = match &func {
                    Some(g) => str_eq(g.as_str(), f.as_str()),
                    None => true,
                };
                same = same && is_same;
                if func.is_none() {
                    func = Some(f);
                }
                insts.push(l);
                assert(insts@.map_values(|l: DisassembleFunctionLine| l@) =~= old_insts.map_values(
                    |l: DisassembleFunctionLine| l@,
                ).push(l@));
                assert(lines_of(pre).map_values(|l: (Seq<char>, LineView)| l.0) =~= old_fs.push(
                    f@,
                ));
                assert(lines_of(pre).map_values(|l: (Seq<char>, LineView)| l.1) =~= old_insts.map_values(
                    |l: DisassembleFunctionLine| l@,
                ).push(l@));
                assert(same <==> (forall|k: int| 0 <= k < fs.len() ==> #[trigger] fs[k] == fs[0]))
                    by {
                    assert forall|k: int| 0 <= k < old_fs.len() implies #[trigger] fs[k]
                        == old_fs[k] by {}
                    assert(fs[fs.len() - 1] == f@);
                    if old_fs.len() > 0 {
                        assert(fs[0] == old_fs[0]);
                        assert(is_same <==> f@ == old_fs[0]);
                        if same {
                            assert forall|k: int| 0 <= k < fs.len() implies #[trigger] fs[k]
                                == fs[0] by {
                                if k < old_fs.len() {
                                    assert(old_fs[k] == old_fs[0]);
                                }
                            }
                        }
                        if !same {
                            if !old_same {
                                let k = choose|k: int|
                                    0 <= k < old_fs.len() && #[trigger] old_fs[k] != old_fs[0];
                                assert(fs[k] != fs[0]);
                            } else {
                                assert(fs[fs.len() - 1] != fs[0]);
                            }
                        }
                    } else {
                        assert(fs.len() == 1);
                    }
                }
            },
            None => {},
        }
        i = i + 1;
    }
    assert(vs@.subrange(0, i as int) =~= vs@);
    match func {
        Some(func) => {
            if same {
                let ghost ls = lines_of(vs@);
                assert forall|k: int| 0 <= k < ls.len() implies (#[trigger] ls[k]).0 == ls[0].0 by {
                    assert(fs[k] == ls[k].0);
                }
                Some(DisassembleFunction { func, insts })
            } else {
                proof {
                    let ls = lines_of(vs@);
                    let k = choose|k: int| 0 <= k < fs.len() && #[trigger] fs[k] != fs[0];
                    assert(fs[k] == ls[k].0);
                }
                None
            }
        },
        None => None,
    }
}

} // verus!
