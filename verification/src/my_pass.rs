//! The pass itself: the walk over a module and what it does to each block
//! that a conditional branch leads to.

use crate::diagnostics::Diagnostic;
use crate::ids::{get_block_id, BlockIds};
use crate::inject::{insert_printf_at_builder, InsertionPoint};
use crate::ir::{Block, BlockView, Function, Instruction, InstructionView, Module, Opcode, Operand};
use crate::location::get_instruction_line_and_file;
use crate::message::format_message;
use crate::model::{
    attempt, block_targets, branch_targets, find_block, follow, lemma_follow_layout,
    lemma_layout_transitive, lemma_visit_block_layout, lemma_visit_function_layout, plan, run,
    same_layout, state_of, visit_block, visit_blocks, visit_function, visit_functions,
};
use crate::search::{is_first, lemma_first_index, lemma_first_index_found, lemma_first_index_none};
use vstd::prelude::*;

verus! {

/// What a pass tells the pipeline that ran it about the analyses made
/// before: all of them still hold, or none does.
#[derive(Clone, Copy, Debug, PartialEq, Eq, Structural)]
pub enum PreservedAnalyses {
    All,
    Nothing,
}

/// The pass that puts a trace call in front of every block that a
/// conditional branch leads to.
pub struct MyPass;

/// The two targets of `instruction` if it is a conditional branch, the one
/// taken on false first.
pub fn conditional_targets(instruction: &Instruction) -> (targets: Option<(u64, u64)>)
    ensures
        targets == branch_targets(instruction@),
{
    match instruction.opcode {
        Opcode::Branch => {
            if instruction.operands.len() == 3 {
                match (instruction.operands[1], instruction.operands[2]) {
                    (Operand::Block(on_false), Operand::Block(on_true)) => Some(
                        (on_false, on_true),
                    ),
                    _ => None,
                }
            } else {
                None
            }
        },
        _ => None,
    }
}

/// The targets of the first conditional branch of `block`.
pub fn first_conditional(block: &Block) -> (targets: Option<(u64, u64)>)
    ensures
        targets == block_targets(block@),
{
    let ghost conditional = |instruction: InstructionView| branch_targets(instruction) is Some;
    let mut i: usize = 0;
    while i < block.instructions.len()
        invariant
            i <= block.instructions@.len(),
            conditional == (|instruction: InstructionView| branch_targets(instruction) is Some),
            forall|j: int| 0 <= j < i ==> !conditional(#[trigger] block@.instructions[j]),
        decreases block.instructions@.len() - i,
    {
        let targets = conditional_targets(&block.instructions[i]);
        if targets.is_some() {
            proof {
                assert(is_first(block@.instructions, conditional, i as int));
                lemma_first_index_found(block@.instructions, conditional, i as int);
            }
            return targets;
        }
        i = i + 1;
    }
    proof {
        lemma_first_index_none(block@.instructions, conditional);
    }
    None
}

/// The index of the first block of `function` at `address`.
pub fn find_block_index(function: &Function, address: u64) -> (found: Option<usize>)
    ensures
        match found {
            Some(block) => find_block(function@.blocks, address) == Some(block as int),
            None => find_block(function@.blocks, address) is None,
        },
{
    let ghost at_address = |block: BlockView| block.address == address;
    let mut i: usize = 0;
    while i < function.blocks.len()
        invariant
            i <= function.blocks@.len(),
            at_address == (|block: BlockView| block.address == address),
            forall|j: int| 0 <= j < i ==> !at_address(#[trigger] function@.blocks[j]),
        decreases function.blocks@.len() - i,
    {
        if function.blocks[i].address == address {
            proof {
                assert(is_first(function@.blocks, at_address, i as int));
                lemma_first_index_found(function@.blocks, at_address, i as int);
            }
            return Some(i);
        }
        i = i + 1;
    }
    proof {
        lemma_first_index_none(function@.blocks, at_address);
    }
    None
}

/// Decides whether the block `block` of `function`, newly discovered under
/// `block_id`, can be traced. Where it can, the answer is the place in front
/// of its first instruction and the trace line. Where it cannot, or only
/// with less than the full line, the reason is appended to `log`.
pub fn prep_block_builder_and_printf_string(
    function: &Function,
    block: usize,
    block_id: u64,
    log: &mut Vec<Diagnostic>,
) -> (prepared: Option<(InsertionPoint, String)>)
    requires
        block < function@.blocks.len(),
    ensures
        final(log)@ == old(log)@ + plan(function@.blocks[block as int], block_id).1,
        match prepared {
            Some((point, message)) => {
                &&& plan(function@.blocks[block as int], block_id).0 == Some(message@)
                &&& point == (InsertionPoint { block, index: 0 })
            },
            None => plan(function@.blocks[block as int], block_id).0 is None,
        },
{
    let target = &function.blocks[block];
    let count = target.instructions.len();
    let point = InsertionPoint { block, index: 0 };
    if count == 0 {
        log.push(Diagnostic::EmptyBlock { id: block_id });
        assert(log@ =~= old(log)@ + seq![Diagnostic::EmptyBlock { id: block_id }]);
        return None;
    }
    assert(target@.instructions.first() == target.instructions@[0]@);
    assert(target@.instructions.last() == target.instructions@[count - 1]@);
    match get_instruction_line_and_file(&target.instructions[0]) {
        None => {
            log.push(Diagnostic::NoStartLocation { id: block_id });
            assert(log@ =~= old(log)@ + seq![Diagnostic::NoStartLocation { id: block_id }]);
            None
        },
        Some((start, file)) => {
            match get_instruction_line_and_file(&target.instructions[count - 1]) {
                None => {
                    log.push(Diagnostic::NoEndLocation { id: block_id });
                    assert(log@ =~= old(log)@ + seq![Diagnostic::NoEndLocation { id: block_id }]);
                    Some((point, format_message(file.as_str(), start, None, block_id)))
                },
                Some((end, last_file)) => {
                    if file == last_file {
                        assert(log@ =~= old(log)@ + Seq::<Diagnostic>::empty());
                    } else {
                        log.push(Diagnostic::FileMismatch { id: block_id });
                        assert(log@ =~= old(log)@ + seq![
                            Diagnostic::FileMismatch { id: block_id },
                        ]);
                    }
                    Some((point, format_message(file.as_str(), start, Some(end), block_id)))
                },
            }
        },
    }
}

/// Handles a branch of the function `function` that leads to its block
/// `block`. A block that was handled before is reported and left as it is.
/// A new one gets its identifier and, where it can be traced, a call to the
/// trace routine in front of its first instruction.
pub fn attempt_to_insert_branch_printf(
    module: &mut Module,
    function: usize,
    block: usize,
    ids: &mut BlockIds,
    log: &mut Vec<Diagnostic>,
)
    requires
        function < old(module)@.functions.len(),
        block < old(module)@.functions[function as int].blocks.len(),
        old(ids).wf(),
    ensures
        final(ids).wf(),
        state_of(*final(module), *final(ids), *final(log)) == attempt(
            state_of(*old(module), *old(ids), *old(log)),
            function as int,
            block as int,
        ),
{
    let address = module.functions[function].blocks[block].address;
    let (id, known) = get_block_id(&module.functions[function].blocks[block], ids);
    if known {
        log.push(Diagnostic::Revisited { id, address });
        return ;
    }
    log.push(Diagnostic::Discovered { id, address });
    match prep_block_builder_and_printf_string(&module.functions[function], block, id, log) {
        Some((point, message)) => {
            insert_printf_at_builder(module, function, point, message);
            log.push(Diagnostic::Injected { id, function, block });
        },
        None => {},
    }
}

/// Handles a branch of the function `function` that leads to `address`.
/// Where the function has no block there, that is reported and nothing is
/// done.
pub fn follow_branch(
    module: &mut Module,
    function: usize,
    address: u64,
    ids: &mut BlockIds,
    log: &mut Vec<Diagnostic>,
)
    requires
        function < old(module)@.functions.len(),
        old(ids).wf(),
    ensures
        final(ids).wf(),
        state_of(*final(module), *final(ids), *final(log)) == follow(
            state_of(*old(module), *old(ids), *old(log)),
            function as int,
            address,
        ),
{
    match find_block_index(&module.functions[function], address) {
        Some(block) => {
            proof {
                lemma_first_index(
                    module@.functions[function as int].blocks,
                    |block: BlockView| block.address == address,
                );
            }
            attempt_to_insert_branch_printf(module, function, block, ids, log)
        },
        None => {
            log.push(Diagnostic::MissingBlock { address });
        },
    }
}

/// Looks at the block `block` of the function `function`: where it holds a
/// conditional branch, the two targets of the first one are handled, the
/// one taken on false before the one taken on true.
pub fn insert_printf(
    module: &mut Module,
    function: usize,
    block: usize,
    ids: &mut BlockIds,
    log: &mut Vec<Diagnostic>,
)
    requires
        function < old(module)@.functions.len(),
        block < old(module)@.functions[function as int].blocks.len(),
        old(ids).wf(),
    ensures
        final(ids).wf(),
        state_of(*final(module), *final(ids), *final(log)) == visit_block(
            state_of(*old(module), *old(ids), *old(log)),
            function as int,
            block as int,
        ),
{
    match first_conditional(&module.functions[function].blocks[block]) {
        Some((on_false, on_true)) => {
            follow_branch(module, function, on_false, ids, log);
            proof {
                lemma_follow_layout(
                    state_of(*old(module), *old(ids), *old(log)),
                    function as int,
                    on_false,
                );
            }
            follow_branch(module, function, on_true, ids, log);
        },
        None => {},
    }
}

/// Looks at every block of the function `function`, in order. A function
/// without blocks is reported and left out.
pub fn instrument_function(
    module: &mut Module,
    function: usize,
    ids: &mut BlockIds,
    log: &mut Vec<Diagnostic>,
)
    requires
        function < old(module)@.functions.len(),
        old(ids).wf(),
    ensures
        final(ids).wf(),
        state_of(*final(module), *final(ids), *final(log)) == visit_function(
            state_of(*old(module), *old(ids), *old(log)),
            function as int,
        ),
{
    let count = module.functions[function].blocks.len();
    if count == 0 {
        log.push(Diagnostic::UndefinedFunction { function });
        return ;
    }
    let ghost start = state_of(*module, *ids, *log);
    let mut block: usize = 0;
    while block < count
        invariant
            block <= count,
            function < start.module.functions.len(),
            count == start.module.functions[function as int].blocks.len(),
            ids.wf(),
            same_layout(start.module, module@),
            state_of(*module, *ids, *log) == visit_blocks(start, function as int, block as nat),
        decreases count - block,
    {
        proof {
            let now = state_of(*module, *ids, *log);
            lemma_visit_block_layout(now, function as int, block as int);
            lemma_layout_transitive(
                start.module,
                now.module,
                visit_block(now, function as int, block as int).module,
            );
        }
        insert_printf(module, function, block, ids, log);
        block = block + 1;
    }
}

impl MyPass {
    /// Runs the pass over `module`: every function is looked at in order,
    /// every block of it in order, and each block that a conditional branch
    /// leads to gets one trace call in front of its first instruction. What
    /// the pass decides on the way is appended to `log`. The module was
    /// rewritten, so no analysis made before holds any longer.
    pub fn run_pass(&self, module: &mut Module, log: &mut Vec<Diagnostic>) -> (preserved:
        PreservedAnalyses)
        ensures
            preserved == PreservedAnalyses::Nothing,
            final(module)@ == run(old(module)@, old(log)@).module,
            final(log)@ == run(old(module)@, old(log)@).log,
    {
        let mut ids = BlockIds::new();
        let count = module.functions.len();
        let ghost start = state_of(*module, ids, *log);
        let mut function: usize = 0;
        while function < count
            invariant
                function <= count,
                count == start.module.functions.len(),
                ids.wf(),
                same_layout(start.module, module@),
                state_of(*module, ids, *log) == visit_functions(start, function as nat),
            decreases count - function,
        {
            proof {
                let now = state_of(*module, ids, *log);
                lemma_visit_function_layout(now, function as int);
                lemma_layout_transitive(
                    start.module,
                    now.module,
                    visit_function(now, function as int).module,
                );
            }
            instrument_function(module, function, &mut ids, log);
            function = function + 1;
        }
        if module.functions.len() > count {
            log.push(Diagnostic::UndefinedFunction { function: count });
        }
        PreservedAnalyses::Nothing
    }
}

} // verus!
