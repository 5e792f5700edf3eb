//! Putting a call to the trace routine in front of an instruction.

use crate::ir::{
    BlockView, Function, FunctionView, Global, GlobalView, Instruction, InstructionView, Module,
    ModuleView, Opcode, Operand, ValueType,
};
use crate::search::{first_index, is_first, lemma_first_index_found, lemma_first_index_none};
use vstd::prelude::*;
use vstd::string::*;
use vstd::utf8::encode_utf8;

verus! {

/// A place in a function: before the instruction `index` of the block
/// `block`, or at the end of that block where `index` is its length.
#[derive(Clone, Copy, Debug, PartialEq, Eq, Structural)]
pub struct InsertionPoint {
    pub block: usize,
    pub index: usize,
}

/// The name of the trace routine.
pub open spec fn trace_name() -> Seq<char> {
    seq!['p', 'r', 'i', 'n', 't', 'f']
}

/// The trace routine as the pass declares it: it returns a 32-bit integer,
/// takes one pointer, and accepts any number of further arguments.
pub open spec fn trace_declaration() -> FunctionView {
    FunctionView {
        name: trace_name(),
        result: ValueType::Int32,
        parameters: seq![ValueType::Pointer],
        variadic: true,
        blocks: Seq::empty(),
    }
}

/// The first function of that name, if there is one.
pub open spec fn find_function(functions: Seq<FunctionView>, name: Seq<char>) -> Option<int> {
    first_index(functions, |f: FunctionView| f.name == name)
}

/// The functions of a module once the trace routine is declared: as they
/// were where a function of that name exists, else with the declaration at
/// the end.
pub open spec fn with_trace_routine(functions: Seq<FunctionView>) -> Seq<FunctionView> {
    match find_function(functions, trace_name()) {
        Some(_) => functions,
        None => functions.push(trace_declaration()),
    }
}

/// Where the trace routine stands among the functions of
/// `with_trace_routine`.
pub open spec fn trace_routine_index(functions: Seq<FunctionView>) -> int {
    match find_function(functions, trace_name()) {
        Some(i) => i,
        None => functions.len() as int,
    }
}

/// A text as the bytes of a constant string: UTF-8, closed by a zero byte.
pub open spec fn terminated(text: Seq<char>) -> Seq<u8> {
    encode_utf8(text).push(0u8)
}

/// The constant that holds a trace line, closed by a line feed.
pub open spec fn format_global(message: Seq<char>) -> GlobalView {
    GlobalView { bytes: terminated(message.push('\n')), constant: true }
}

/// The constant that holds the name of a function.
pub open spec fn name_global(name: Seq<char>) -> GlobalView {
    GlobalView { bytes: terminated(name), constant: true }
}

/// The call that traces a block of the function `function` of `module`:
/// the trace routine is handed the trace line, the name of the function and
/// the number of its parameters. The two texts are the next two globals of
/// the module.
pub open spec fn trace_call(module: ModuleView, function: int) -> InstructionView {
    InstructionView {
        opcode: Opcode::Call,
        operands: seq![
            Operand::Global(module.globals.len() as usize),
            Operand::Global((module.globals.len() + 1) as usize),
            Operand::Int32(module.functions[function].param_count()),
            Operand::Function(trace_routine_index(module.functions) as usize),
        ],
        location: None,
    }
}

/// `point` names a place in the function `function` of `module`.
pub open spec fn point_in(module: ModuleView, function: int, point: InsertionPoint) -> bool {
    &&& 0 <= function < module.functions.len()
    &&& point.block < module.functions[function].blocks.len()
    &&& point.index <= module.functions[function].blocks[point.block as int].instructions.len()
}

/// The module after a trace call with the line `message` was put into the
/// block `block` of the function `function`, before its instruction
/// `index`: the trace routine is declared, the two texts are new globals,
/// and the call stands before the instruction that was at `index`. Nothing
/// else differs.
pub open spec fn inject(
    module: ModuleView,
    function: int,
    block: int,
    index: int,
    message: Seq<char>,
) -> ModuleView {
    let owner = module.functions[function];
    let target = owner.blocks[block];
    let traced = BlockView {
        instructions: target.instructions.insert(index, trace_call(module, function)),
        ..target
    };
    ModuleView {
        functions: with_trace_routine(module.functions).update(
            function,
            FunctionView { blocks: owner.blocks.update(block, traced), ..owner },
        ),
        globals: module.globals.push(format_global(message)).push(name_global(owner.name)),
    }
}

/// Finds the trace routine among the functions of `module` and declares it
/// at the end where it is missing. The answer is its index.
pub fn declare_trace_routine(module: &mut Module) -> (index: usize)
    ensures
        index == trace_routine_index(old(module)@.functions),
        final(module)@.functions == with_trace_routine(old(module)@.functions),
        final(module).functions@.len() >= old(module).functions@.len(),
        forall|i: int|
            0 <= i < old(module).functions@.len() ==> final(module).functions@[i] == old(
                module,
            ).functions@[i],
        final(module).globals == old(module).globals,
{
    proof {
        reveal_strlit("printf");
    }
    let name = String::from_str("printf");
    assert(name@ =~= trace_name());
    let ghost wanted = |f: FunctionView| f.name == trace_name();
    let mut i: usize = 0;
    while i < module.functions.len()
        invariant
            i <= module.functions@.len(),
            *module == *old(module),
            name@ == trace_name(),
            wanted == (|f: FunctionView| f.name == trace_name()),
            forall|j: int| 0 <= j < i ==> !wanted(#[trigger] module@.functions[j]),
        decreases module.functions@.len() - i,
    {
        if module.functions[i].name == name {
            proof {
                assert(is_first(module@.functions, wanted, i as int));
                lemma_first_index_found(module@.functions, wanted, i as int);
            }
            return i;
        }
        i = i + 1;
    }
    proof {
        lemma_first_index_none(module@.functions, wanted);
    }
    let mut parameters = Vec::new();
    parameters.push(ValueType::Pointer);
    let declaration = Function {
        name,
        result: ValueType::Int32,
        parameters,
        variadic: true,
        blocks: Vec::new(),
    };
    proof {
        assert(declaration@.parameters =~= trace_declaration().parameters);
        assert(declaration@.blocks =~= trace_declaration().blocks);
        assert(declaration@ == trace_declaration());
    }
    module.functions.push(declaration);
    proof {
        assert(module@.functions =~= old(module)@.functions.push(trace_declaration()));
    }
    i
}

/// The bytes of a constant string that holds `text`.
pub fn terminated_bytes(text: &str) -> (bytes: Vec<u8>)
    ensures
        bytes@ == terminated(text@),
{
    let mut bytes = text.as_bytes_vec();
    bytes.push(0u8);
    bytes
}

/// Inserts a call to the trace routine at `point` of the function
/// `function`, in front of the instruction that stands there. The routine
/// is declared first where the module has none of its name. The call hands
/// it a new constant with `message` and a line feed, a new constant with the
/// name of the function, and the number of the function's parameters.
pub fn insert_printf_at_builder(
    module: &mut Module,
    function: usize,
    point: InsertionPoint,
    message: String,
)
    requires
        point_in(old(module)@, function as int, point),
    ensures
        final(module)@ == inject(
            old(module)@,
            function as int,
            point.block as int,
            point.index as int,
            message@,
        ),
{
    let callee = declare_trace_routine(module);
    proof {
        reveal_strlit("\n");
    }
    let mut line = message;
    line.append("\n");
    assert(line@ =~= message@.push('\n'));
    let format_index = module.globals.len();
    module.globals.push(Global { bytes: terminated_bytes(line.as_str()), constant: true });
    let name_index = module.globals.len();
    let name_bytes = terminated_bytes(module.functions[function].name.as_str());
    module.globals.push(Global { bytes: name_bytes, constant: true });
    let count = module.functions[function].count_params();
    let mut operands = Vec::new();
    operands.push(Operand::Global(format_index));
    operands.push(Operand::Global(name_index));
    operands.push(Operand::Int32(count));
    operands.push(Operand::Function(callee));
    let call = Instruction { opcode: Opcode::Call, operands, location: None };
    proof {
        assert(call@.operands =~= trace_call(old(module)@, function as int).operands);
        assert(call@ == trace_call(old(module)@, function as int));
    }
    let ghost declared = *module;
    module.functions[function].blocks[point.block].instructions.insert(point.index, call);
    proof {
        let before = old(module)@;
        let after = inject(
            before,
            function as int,
            point.block as int,
            point.index as int,
            message@,
        );
        let owner = before.functions[function as int];
        assert(declared.functions@[function as int] == old(module).functions@[function as int]);
        assert(module@.globals =~= after.globals);
        assert(module@.functions[function as int].blocks[point.block as int].instructions
            =~= after.functions[function as int].blocks[point.block as int].instructions);
        assert(module@.functions[function as int].blocks
            =~= after.functions[function as int].blocks);
        assert(module@.functions[function as int] == after.functions[function as int]);
        assert(module@.functions =~= after.functions);
    }
}

} // verus!
