use vstd::prelude::*;

pub mod runtime;
pub mod tokenizer;
pub mod parser;
pub mod dump;
pub mod laws;

verus! {

use crate::runtime::{Data, DataView, Engine, HostInstruction, Instruction, InstructionHandle,
    InstructionMap, InstructionName, Runtime, data_view, jump_dest};
use crate::parser::{Parser, ParserError, parse_gives, parse_fails, prog_view};

/// Where the built-in goto dispatcher parks the counter, given its first
/// argument: a string or bare word is a label name (unknown names are a
/// no-op), a non-negative integer in counter range is an absolute index, any
/// other integer jumps far past every program, and any other shape is a
/// no-op.
pub open spec fn goto_dest(d: DataView, labels: Map<Seq<char>, usize>, pc: usize) -> usize {
    match d {
        DataView::HString(s) => if labels.contains_key(s) {
            jump_dest(labels[s])
        } else {
            pc
        },
        DataView::Text(s) => if labels.contains_key(s) {
            jump_dest(labels[s])
        } else {
            pc
        },
        DataView::Integer(i) => if 0 <= i && i <= usize::MAX as int {
            jump_dest(i as usize)
        } else {
            jump_dest(usize::MAX)
        },
        _ => pc,
    }
}

/// The built-in control-transfer instruction: dispatches on the tag of its
/// first argument and always produces the absent value.
pub fn goto(args: &Vec<Data>, engine: &mut Engine) -> (r: Data)
    ensures
        r@ == DataView::Nil,
        final(engine).vars == old(engine).vars,
        final(engine).labels == old(engine).labels,
        final(engine).pc == if args@.len() == 0 {
            old(engine).pc
        } else {
            goto_dest(data_view(args@[0]), old(engine).labels.map_view(), old(engine).pc)
        },
{
    if args.len() == 0 {
        return Data::Nil;
    }
    let arg = &args[0];
    match arg {
        Data::HString(s) => {
            let _ = engine.goto_label(s.as_str());
        },
        Data::Text(t) => {
            let _ = engine.goto_label(t.as_str());
        },
        Data::Integer(i) => {
            let i = *i;
            if i >= 0 && (i as u64) <= (usize::MAX as u64) {
                engine.goto(i as usize);
            } else {
                engine.goto(usize::MAX);
            }
        },
        _ => {},
    }
    Data::Nil
}

/// The type whose host-instruction behavior is the built-in `goto`.
pub struct GotoInstruction;

impl HostInstruction for GotoInstruction {
    fn call(&self, args: &Vec<Data>, engine: &mut Engine) -> Data {
        goto(args, engine)
    }
}

/// Relies on `Arc::new`: builds the shared trait-object handle around
/// `GotoInstruction`, whose behavior is the verified `goto` above.
#[verifier::external_body]
fn goto_handle() -> InstructionHandle {
    InstructionHandle::new(std::sync::Arc::new(GotoInstruction))
}

fn goto_text() -> (r: String)
    ensures
        r@ == "goto"@,
{
    let s: &str = "goto";
    s.to_owned()
}

/// The outcome of building an engine after the built-in goto was installed
/// under the name `goto` with the interned name `n` and the handle `h`.
pub open spec fn built_with_goto(
    code: Seq<char>,
    table0: Map<Seq<char>, (InstructionName, Instruction)>,
    n: InstructionName,
    h: InstructionHandle,
    r: Result<Runtime, ParserError>,
) -> bool {
    let table = table0.insert("goto"@, (n, Instruction::RustInstruction(h)));
    &&& n@ == "goto"@
    &&& match r {
        Ok(rt) => {
            &&& parse_gives(code, table, prog_view(rt.program@), rt.engine.labels.map_view())
            &&& rt.engine.pc == 0
            &&& rt.engine.vars.map_view() == Map::<Seq<char>, DataView>::empty()
        },
        Err(e) => parse_fails(code, table, e),
    }
}

/// Builds a ready-to-run engine: injects the built-in goto under the name
/// `goto` unless the table already binds that name, parses the text, and
/// installs the resulting program and label table into a fresh engine.
pub fn create_runtime(code: &str, instructions: InstructionMap) -> (r: Result<Runtime, ParserError>)
    ensures
        instructions.map_view().contains_key("goto"@) ==> (match r {
            Ok(rt) => {
                &&& parse_gives(
                    code@,
                    instructions.map_view(),
                    prog_view(rt.program@),
                    rt.engine.labels.map_view(),
                )
                &&& rt.engine.pc == 0
                &&& rt.engine.vars.map_view() == Map::<Seq<char>, DataView>::empty()
            },
            Err(e) => parse_fails(code@, instructions.map_view(), e),
        }),
        !instructions.map_view().contains_key("goto"@) ==> exists|
            n: InstructionName,
            h: InstructionHandle,
        | built_with_goto(code@, instructions.map_view(), n, h, r),
{
    let ghost m0 = instructions.map_view();
    let mut parser = Parser::new();
    let mut instructions = instructions;

    let ghost mut gname_g: InstructionName = arbitrary();
    let ghost mut ghandle_g: InstructionHandle = arbitrary();
    let had_goto = instructions.contains_key("goto");
    if !had_goto {
        let gname = InstructionName::new(goto_text());
        let ghandle = goto_handle();
        proof {
            gname_g = gname;
            ghandle_g = ghandle;
        }
        instructions.insert(gname, Instruction::RustInstruction(ghandle));
        proof {
            assert(instructions.map_view() =~= m0.insert(
                "goto"@,
                (gname_g, Instruction::RustInstruction(ghandle_g)),
            ));
        }
    }

    parser.set_instructions(instructions);

    let mut runtime = Runtime::new();

    let result = match parser.parse(code) {
        Ok(out) => {
            runtime.set_program(out.0);
            runtime.set_labels(out.1);
            Ok(runtime)
        },
        Err(e) => Err(e),
    };
    proof {
        if !m0.contains_key("goto"@) {
            assert(built_with_goto(code@, m0, gname_g, ghandle_g, result));
        }
    }
    result
}

} // verus!
