//! The pass as a walk over states.
//!
//! A state is the module as it stands, the addresses of the blocks
//! discovered so far in the order of their discovery, and the reports made
//! so far. Every step of the pass is a function from one state to the next;
//! the executable pass is proved to compute exactly these functions.

use crate::diagnostics::Diagnostic;
use crate::ids::{resolve, BlockIds};
use crate::inject::inject;
use crate::ir::{BlockView, InstructionView, Module, ModuleView, Opcode, Operand};
use crate::location::source_position;
use crate::message::message_text;
use crate::search::{first_index, lemma_first_index};
use vstd::prelude::*;

verus! {

pub struct PassState {
    pub module: ModuleView,
    pub order: Seq<u64>,
    pub log: Seq<Diagnostic>,
}

/// The state that the three parts of a running pass stand for.
pub open spec fn state_of(module: Module, ids: BlockIds, log: Vec<Diagnostic>) -> PassState {
    PassState { module: module@, order: ids@, log: log@ }
}

/// The two blocks that a conditional branch leads to, the one taken when
/// the condition is false first. An instruction is such a branch when it is
/// a branch with exactly three operands of which the second and the third
/// are blocks.
pub open spec fn branch_targets(instruction: InstructionView) -> Option<(u64, u64)> {
    if instruction.opcode == Opcode::Branch && instruction.operands.len() == 3 {
        match (instruction.operands[1], instruction.operands[2]) {
            (Operand::Block(on_false), Operand::Block(on_true)) => Some((on_false, on_true)),
            _ => None,
        }
    } else {
        None
    }
}

/// The targets of the first conditional branch of a block.
pub open spec fn block_targets(block: BlockView) -> Option<(u64, u64)> {
    match first_index(
        block.instructions,
        |instruction: InstructionView| branch_targets(instruction) is Some,
    ) {
        Some(at) => branch_targets(block.instructions[at]),
        None => None,
    }
}

/// The first block at `address`, if there is one.
pub open spec fn find_block(blocks: Seq<BlockView>, address: u64) -> Option<int> {
    first_index(blocks, |block: BlockView| block.address == address)
}

/// What is to be done with a newly discovered block: the trace line to put
/// in front of it, if it can be traced, and what is reported on the way.
///
/// A block without instructions is not traced, nor one whose first
/// instruction has no source position. The line names the file of the
/// first instruction, its line, and the line of the last instruction where
/// that is known.
pub open spec fn plan(block: BlockView, id: u64) -> (Option<Seq<char>>, Seq<Diagnostic>) {
    if block.instructions.len() == 0 {
        (None, seq![Diagnostic::EmptyBlock { id }])
    } else {
        match source_position(block.instructions.first()) {
            None => (None, seq![Diagnostic::NoStartLocation { id }]),
            Some((start, file)) => match source_position(block.instructions.last()) {
                None => (
                    Some(message_text(file, start, None, id)),
                    seq![Diagnostic::NoEndLocation { id }],
                ),
                Some((end, last_file)) => (
                    Some(message_text(file, start, Some(end), id)),
                    if last_file == file {
                        Seq::empty()
                    } else {
                        seq![Diagnostic::FileMismatch { id }]
                    },
                ),
            },
        }
    }
}

/// The state after a branch of the function `function` was found to lead
/// to its block `block`.
///
/// A block that was discovered before is left alone. A new one takes the
/// next identifier, whatever comes of it, and gets a trace call in front of
/// its first instruction where `plan` has a line for it.
pub open spec fn attempt(state: PassState, function: int, block: int) -> PassState {
    let target = state.module.functions[function].blocks[block];
    let (id, known, order) = resolve(state.order, target.address);
    if known {
        PassState {
            log: state.log.push(Diagnostic::Revisited { id, address: target.address }),
            ..state
        }
    } else {
        let (line, notes) = plan(target, id);
        let log = state.log.push(Diagnostic::Discovered { id, address: target.address }) + notes;
        match line {
            None => PassState { module: state.module, order, log },
            Some(message) => PassState {
                module: inject(state.module, function, block, 0, message),
                order,
                log: log.push(
                    Diagnostic::Injected {
                        id,
                        function: function as usize,
                        block: block as usize,
                    },
                ),
            },
        }
    }
}

/// The state after a branch of the function `function` was found to lead
/// to `address`.
pub open spec fn follow(state: PassState, function: int, address: u64) -> PassState {
    match find_block(state.module.functions[function].blocks, address) {
        Some(block) => attempt(state, function, block),
        None => PassState { log: state.log.push(Diagnostic::MissingBlock { address }), ..state },
    }
}

/// The state after the block `block` of the function `function` was
/// looked at: the two targets of its first conditional branch are followed,
/// the one taken on false first.
pub open spec fn visit_block(state: PassState, function: int, block: int) -> PassState {
    match block_targets(state.module.functions[function].blocks[block]) {
        Some((on_false, on_true)) => follow(follow(state, function, on_false), function, on_true),
        None => state,
    }
}

/// The state after the first `count` blocks of a function were looked at.
pub open spec fn visit_blocks(state: PassState, function: int, count: nat) -> PassState
    decreases count,
{
    if count == 0 {
        state
    } else {
        visit_block(visit_blocks(state, function, (count - 1) as nat), function, count - 1)
    }
}

/// The state after a function was looked at. One without blocks is
/// reported and left out.
pub open spec fn visit_function(state: PassState, function: int) -> PassState {
    let count = state.module.functions[function].blocks.len();
    if count == 0 {
        PassState {
            log: state.log.push(Diagnostic::UndefinedFunction { function: function as usize }),
            ..state
        }
    } else {
        visit_blocks(state, function, count)
    }
}

/// The state after the first `count` functions of the module were looked
/// at.
pub open spec fn visit_functions(state: PassState, count: nat) -> PassState
    decreases count,
{
    if count == 0 {
        state
    } else {
        visit_function(visit_functions(state, (count - 1) as nat), count - 1)
    }
}

/// The state at the end of a pass over a module that had `count` functions
/// when the pass began. The walk goes on over what the pass appended: the
/// declaration of the trace routine, which has no blocks and is reported
/// like any other function without blocks.
pub open spec fn finish(state: PassState, count: nat) -> PassState {
    if state.module.functions.len() > count {
        PassState {
            log: state.log.push(Diagnostic::UndefinedFunction { function: count as usize }),
            ..state
        }
    } else {
        state
    }
}

/// The state at the end of a pass over `module`, which starts with no block
/// discovered.
pub open spec fn run(module: ModuleView, log: Seq<Diagnostic>) -> PassState {
    let count = module.functions.len();
    finish(visit_functions(PassState { module, order: Seq::empty(), log }, count), count)
}

/// Two modules are laid out alike: the second has the functions of the
/// first, in place and perhaps more after them, and each of those has its
/// blocks at the same addresses.
pub open spec fn same_layout(before: ModuleView, after: ModuleView) -> bool {
    &&& before.functions.len() <= after.functions.len()
    &&& forall|f: int|
        0 <= f < before.functions.len() ==> (#[trigger] after.functions[f]).blocks.len()
            == before.functions[f].blocks.len()
    &&& forall|f: int, b: int|
        0 <= f < before.functions.len() && 0 <= b < before.functions[f].blocks.len() ==> (
        #[trigger] after.functions[f].blocks[b]).address == before.functions[f].blocks[b].address
}

/// Injecting a trace call keeps the layout.
pub proof fn lemma_inject_layout(
    module: ModuleView,
    function: int,
    block: int,
    index: int,
    message: Seq<char>,
)
    requires
        0 <= function < module.functions.len(),
        0 <= block < module.functions[function].blocks.len(),
    ensures
        same_layout(module, inject(module, function, block, index, message)),
{
}

/// Finding a branch target keeps the layout.
pub proof fn lemma_attempt_layout(state: PassState, function: int, block: int)
    requires
        0 <= function < state.module.functions.len(),
        0 <= block < state.module.functions[function].blocks.len(),
    ensures
        same_layout(state.module, attempt(state, function, block).module),
{
    let target = state.module.functions[function].blocks[block];
    let (id, known, order) = resolve(state.order, target.address);
    if !known {
        if let Some(message) = plan(target, id).0 {
            lemma_inject_layout(state.module, function, block, 0, message);
        }
    }
}

/// Following a branch keeps the layout.
pub proof fn lemma_follow_layout(state: PassState, function: int, address: u64)
    requires
        0 <= function < state.module.functions.len(),
    ensures
        same_layout(state.module, follow(state, function, address).module),
{
    let blocks = state.module.functions[function].blocks;
    lemma_first_index(blocks, |block: BlockView| block.address == address);
    if let Some(block) = find_block(blocks, address) {
        lemma_attempt_layout(state, function, block);
    }
}

/// Laid out alike is transitive.
pub proof fn lemma_layout_transitive(first: ModuleView, second: ModuleView, third: ModuleView)
    requires
        same_layout(first, second),
        same_layout(second, third),
    ensures
        same_layout(first, third),
{
    assert forall|f: int| 0 <= f < first.functions.len() implies (
    #[trigger] third.functions[f]).blocks.len() == first.functions[f].blocks.len() by {
        assert(second.functions[f].blocks.len() == first.functions[f].blocks.len());
    }
    assert forall|f: int, b: int|
        0 <= f < first.functions.len() && 0 <= b < first.functions[f].blocks.len() implies (
    #[trigger] third.functions[f].blocks[b]).address == first.functions[f].blocks[b].address by {
        assert(second.functions[f].blocks.len() == first.functions[f].blocks.len());
        assert(second.functions[f].blocks[b].address == first.functions[f].blocks[b].address);
    }
}

/// Looking at a block keeps the layout.
pub proof fn lemma_visit_block_layout(state: PassState, function: int, block: int)
    requires
        0 <= function < state.module.functions.len(),
    ensures
        same_layout(state.module, visit_block(state, function, block).module),
{
    let targets = block_targets(state.module.functions[function].blocks[block]);
    if let Some((on_false, on_true)) = targets {
        let middle = follow(state, function, on_false);
        lemma_follow_layout(state, function, on_false);
        lemma_follow_layout(middle, function, on_true);
        lemma_layout_transitive(
            state.module,
            middle.module,
            follow(middle, function, on_true).module,
        );
    }
}

/// Looking at the first blocks of a function keeps the layout.
pub proof fn lemma_visit_blocks_layout(state: PassState, function: int, count: nat)
    requires
        0 <= function < state.module.functions.len(),
    ensures
        same_layout(state.module, visit_blocks(state, function, count).module),
    decreases count,
{
    if count > 0 {
        let before = visit_blocks(state, function, (count - 1) as nat);
        lemma_visit_blocks_layout(state, function, (count - 1) as nat);
        lemma_visit_block_layout(before, function, count - 1);
        lemma_layout_transitive(
            state.module,
            before.module,
            visit_block(before, function, count - 1).module,
        );
    }
}

/// Looking at a function keeps the layout.
pub proof fn lemma_visit_function_layout(state: PassState, function: int)
    requires
        0 <= function < state.module.functions.len(),
    ensures
        same_layout(state.module, visit_function(state, function).module),
{
    lemma_visit_blocks_layout(
        state,
        function,
        state.module.functions[function].blocks.len(),
    );
}

/// Looking at the first functions of a module keeps the layout.
pub proof fn lemma_visit_functions_layout(state: PassState, count: nat)
    requires
        count <= state.module.functions.len(),
    ensures
        same_layout(state.module, visit_functions(state, count).module),
    decreases count,
{
    if count > 0 {
        let before = visit_functions(state, (count - 1) as nat);
        lemma_visit_functions_layout(state, (count - 1) as nat);
        lemma_visit_function_layout(before, count - 1);
        lemma_layout_transitive(
            state.module,
            before.module,
            visit_function(before, count - 1).module,
        );
    }
}

} // verus!
