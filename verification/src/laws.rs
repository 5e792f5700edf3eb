//! What holds of every pass, proved from the model of the pass.

use crate::diagnostics::Diagnostic;
use crate::ids::{position_of, resolve};
use crate::inject::{
    find_function, format_global, inject, name_global, trace_call, trace_declaration, trace_name,
    trace_routine_index,
};
use crate::ir::{BlockView, FunctionView, InstructionView, ModuleView, Opcode, Operand};
use crate::location::source_position;
use crate::message::decimal;
use crate::model::{
    attempt, block_targets, branch_targets, find_block, follow, lemma_visit_functions_layout, plan,
    run, same_layout, visit_block, visit_blocks, visit_function, visit_functions, PassState,
};
use crate::search::{
    first_index, is_first, lemma_first_index, lemma_first_index_found, lemma_first_index_none,
    lemma_first_index_shifted,
};
use vstd::prelude::*;

verus! {

/// The module has a block `block` in a function `function`.
pub open spec fn has_block(module: ModuleView, function: int, block: int) -> bool {
    0 <= function < module.functions.len() && 0 <= block
        < module.functions[function].blocks.len()
}

/// The address of a block of the module.
pub open spec fn address_at(module: ModuleView, function: int, block: int) -> u64 {
    module.functions[function].blocks[block].address
}

/// The first conditional branch of a block of the module leads to
/// `address`.
pub open spec fn branch_to(module: ModuleView, function: int, block: int, address: u64) -> bool {
    match block_targets(module.functions[function].blocks[block]) {
        Some((on_false, on_true)) => on_false == address || on_true == address,
        None => false,
    }
}

/// Some conditional branch of the module leads to `address`.
pub open spec fn targeted(module: ModuleView, address: u64) -> bool {
    exists|g: int, c: int| #[trigger]
        has_block(module, g, c) && branch_to(module, g, c, address)
}

/// No two blocks of the module share an address.
pub open spec fn distinct_addresses(module: ModuleView) -> bool {
    forall|f: int, b: int, g: int, c: int|
        has_block(module, f, b) && has_block(module, g, c) && #[trigger] address_at(module, f, b)
            == #[trigger] address_at(module, g, c) ==> f == g && b == c
}

/// The function `function` has a block at `address`.
pub open spec fn resolves(module: ModuleView, function: int, address: u64) -> bool {
    exists|b: int| #[trigger]
        has_block(module, function, b) && address_at(module, function, b) == address
}

/// Every conditional branch leads to blocks of its own function.
pub open spec fn targets_resolve(module: ModuleView) -> bool {
    forall|f: int, c: int, address: u64|
        has_block(module, f, c) && #[trigger] branch_to(module, f, c, address) ==> resolves(
            module,
            f,
            address,
        )
}

/// The module is one that a compiler hands out: blocks are told apart by
/// their addresses, and branches stay inside their function.
pub open spec fn well_formed(module: ModuleView) -> bool {
    distinct_addresses(module) && targets_resolve(module)
}

/// The block can be traced: it has a first instruction, and that one has a
/// source position.
pub open spec fn traceable(block: BlockView) -> bool {
    block.instructions.len() > 0 && source_position(block.instructions.first()) is Some
}

/// `call` is a call of the trace routine of `module` on behalf of its
/// function `function`.
pub open spec fn is_trace_call(module: ModuleView, function: int, call: InstructionView) -> bool {
    &&& call.opcode == Opcode::Call
    &&& call.location is None
    &&& call.operands.len() == 4
    &&& call.operands[2] == Operand::Int32(module.functions[function].param_count())
    &&& call.operands[3] == Operand::Function(trace_routine_index(module.functions) as usize)
}

/// `call` hands the trace routine what tells the block `before` of
/// `function`: the global `at` of the module, which holds the trace line of
/// the block under the identifier that the block has in `state`, and the
/// global after it, which holds the name of the function.
pub open spec fn tells(
    origin: ModuleView,
    state: PassState,
    function: int,
    before: BlockView,
    call: InstructionView,
    at: int,
) -> bool {
    let id = position_of(state.order, before.address) as u64;
    &&& 0 <= at
    &&& at + 1 < state.module.globals.len()
    &&& call.operands[0] == Operand::Global(at as usize)
    &&& call.operands[1] == Operand::Global((at + 1) as usize)
    &&& match plan(before, id).0 {
        Some(line) => state.module.globals[at] == format_global(line),
        None => false,
    }
    &&& state.module.globals[at + 1] == name_global(origin.functions[function].name)
}

/// `after` is `before` with exactly one instruction in front of the others:
/// a call of the trace routine that tells the block.
pub open spec fn is_traced(
    origin: ModuleView,
    state: PassState,
    function: int,
    before: BlockView,
    after: BlockView,
) -> bool {
    &&& after.address == before.address
    &&& after.instructions.len() == before.instructions.len() + 1
    &&& after.instructions.subrange(1, after.instructions.len() as int) =~= before.instructions
    &&& is_trace_call(origin, function, after.instructions[0])
    &&& exists|at: int| #[trigger] tells(origin, state, function, before, after.instructions[0], at)
}

/// The functions of `before` stand in `after` under their names and with
/// their parameters, and `after` has at most one function more: the
/// declaration of the trace routine, where `before` had no function of that
/// name.
pub open spec fn declared_at_most_once(before: ModuleView, after: ModuleView) -> bool {
    let count = before.functions.len() as int;
    &&& forall|f: int|
        0 <= f < count ==> (#[trigger] after.functions[f]).name == before.functions[f].name
            && after.functions[f].parameters == before.functions[f].parameters
    &&& {
        ||| after.functions.len() == count
        ||| {
            &&& after.functions.len() == count + 1
            &&& find_function(before.functions, trace_name()) is None
            &&& after.functions[count] == trace_declaration()
        }
    }
}

/// The block `block` of `function` is in `state` what the pass makes of it:
/// traced once it was discovered, if it can be traced, and else as it was
/// in `origin`.
pub open spec fn block_settled(
    origin: ModuleView,
    state: PassState,
    function: int,
    block: int,
) -> bool {
    let before = origin.functions[function].blocks[block];
    let after = state.module.functions[function].blocks[block];
    if state.order.contains(before.address) && traceable(before) {
        is_traced(origin, state, function, before, after)
    } else {
        after == before
    }
}

/// `state` is one that a pass over `origin` can be in.
pub open spec fn settled(origin: ModuleView, state: PassState) -> bool {
    &&& state.order.no_duplicates()
    &&& same_layout(origin, state.module)
    &&& declared_at_most_once(origin, state.module)
    &&& forall|f: int, b: int| #[trigger]
        has_block(origin, f, b) ==> block_settled(origin, state, f, b)
}

/// A block has a trace line exactly when it can be traced.
pub proof fn lemma_plan_traceable(block: BlockView, id: u64)
    ensures
        plan(block, id).0 is Some <==> traceable(block),
{
}

/// The trace routine stands at the same index throughout a pass.
pub proof fn lemma_trace_index_stable(before: ModuleView, after: ModuleView)
    requires
        declared_at_most_once(before, after),
    ensures
        trace_routine_index(after.functions) == trace_routine_index(before.functions),
        find_function(after.functions, trace_name()) is None ==> after.functions.len()
            == before.functions.len(),
{
    let named = |f: FunctionView| f.name == trace_name();
    let count = before.functions.len() as int;
    lemma_first_index(before.functions, named);
    match find_function(before.functions, trace_name()) {
        Some(at) => {
            assert(after.functions[at].name == before.functions[at].name);
            assert forall|j: int| 0 <= j < at implies !named(#[trigger] after.functions[j]) by {
                assert(after.functions[j].name == before.functions[j].name);
                assert(!named(before.functions[j]));
            }
            assert(is_first(after.functions, named, at));
            lemma_first_index_found(after.functions, named, at);
        },
        None => {
            assert forall|j: int| 0 <= j < count implies !named(#[trigger] after.functions[j]) by {
                assert(after.functions[j].name == before.functions[j].name);
                assert(!named(before.functions[j]));
            }
            if after.functions.len() == count {
                lemma_first_index_none(after.functions, named);
            } else {
                assert(named(after.functions[count]));
                assert(is_first(after.functions, named, count));
                lemma_first_index_found(after.functions, named, count);
            }
        },
    }
}

/// The globals that `before` holds stand in `after` at their places.
pub open spec fn globals_kept(before: ModuleView, after: ModuleView) -> bool {
    &&& before.globals.len() <= after.globals.len()
    &&& forall|k: int|
        0 <= k < before.globals.len() ==> #[trigger] after.globals[k] == before.globals[k]
}

/// A block that is what the pass makes of it stays so while the pass goes
/// on elsewhere: while the block itself is not touched, its address is not
/// newly discovered, and globals and discoveries are only added.
pub proof fn lemma_block_carries(
    origin: ModuleView,
    state: PassState,
    end: PassState,
    function: int,
    block: int,
)
    requires
        block_settled(origin, state, function, block),
        end.module.functions[function].blocks[block]
            == state.module.functions[function].blocks[block],
        state.order.is_prefix_of(end.order),
        end.order.no_duplicates(),
        end.order.contains(address_at(origin, function, block)) ==> state.order.contains(
            address_at(origin, function, block),
        ),
        globals_kept(state.module, end.module),
    ensures
        block_settled(origin, end, function, block),
{
    let before = origin.functions[function].blocks[block];
    let after = end.module.functions[function].blocks[block];
    lemma_prefix_keeps_positions(state.order, end.order);
    if state.order.contains(before.address) && traceable(before) {
        let call = after.instructions[0];
        let at = choose|at: int| #[trigger] tells(origin, state, function, before, call, at);
        assert(end.module.globals[at] == state.module.globals[at]);
        assert(end.module.globals[at + 1] == state.module.globals[at + 1]);
        assert(tells(origin, end, function, before, call, at));
    }
}

/// Handling a branch target leads from one state of a pass to another, and
/// makes the address of the target a discovered one.
pub proof fn lemma_attempt_settled(
    origin: ModuleView,
    state: PassState,
    function: int,
    block: int,
)
    requires
        distinct_addresses(origin),
        settled(origin, state),
        has_block(origin, function, block),
    ensures
        settled(origin, attempt(state, function, block)),
        forall|a: u64|
            attempt(state, function, block).order.contains(a) <==> state.order.contains(a) || a
                == address_at(origin, function, block),
{
    let end = attempt(state, function, block);
    let now = state.module.functions[function].blocks[block];
    let before = origin.functions[function].blocks[block];
    let address = before.address;
    assert(now.address == address);
    assert(block_settled(origin, state, function, block));
    lemma_ids_follow_discovery(state, function, block);
    let (id, known, order) = resolve(state.order, address);
    if known {
        assert forall|f: int, b: int| #[trigger] has_block(origin, f, b) implies block_settled(
            origin,
            end,
            f,
            b,
        ) by {
            assert(block_settled(origin, state, f, b));
            lemma_block_carries(origin, state, end, f, b);
        }
    } else {
        assert(now == before);
        lemma_plan_traceable(now, id);
        assert(order =~= state.order.push(address));
        assert forall|a: u64| end.order.contains(a) <==> state.order.contains(a) || a
            == address by {
            if state.order.contains(a) {
                let at = choose|i: int| 0 <= i < state.order.len() && state.order[i] == a;
                assert(end.order[at] == a);
            }
            assert(end.order[state.order.len() as int] == address);
        }
        lemma_trace_index_stable(origin, state.module);
        match plan(now, id).0 {
            None => {
                assert forall|f: int, b: int| #[trigger]
                    has_block(origin, f, b) implies block_settled(origin, end, f, b) by {
                    assert(block_settled(origin, state, f, b));
                    if f != function || b != block {
                        assert(address_at(origin, f, b) != address_at(origin, function, block));
                        lemma_block_carries(origin, state, end, f, b);
                    }
                }
            },
            Some(message) => {
                crate::model::lemma_inject_layout(state.module, function, block, 0, message);
                crate::model::lemma_layout_transitive(origin, state.module, end.module);
                let call = trace_call(state.module, function);
                assert(is_trace_call(origin, function, call));
                assert(globals_kept(state.module, end.module));
                assert forall|f: int, b: int| #[trigger]
                    has_block(origin, f, b) implies block_settled(origin, end, f, b) by {
                    assert(block_settled(origin, state, f, b));
                    if f != function || b != block {
                        assert(address_at(origin, f, b) != address_at(origin, function, block));
                        assert(end.module.functions[f].blocks[b]
                            == state.module.functions[f].blocks[b]);
                        lemma_block_carries(origin, state, end, f, b);
                    } else {
                        let after = end.module.functions[f].blocks[b];
                        let at = state.module.globals.len() as int;
                        assert(after.instructions =~= now.instructions.insert(0, call));
                        assert(after.instructions[0] == call);
                        assert(after.instructions.subrange(1, after.instructions.len() as int)
                            =~= before.instructions);
                        assert(position_of(end.order, address) == state.order.len());
                        assert(end.module.globals[at] == format_global(message));
                        assert(end.module.globals[at + 1] == name_global(
                            origin.functions[function].name,
                        ));
                        assert(tells(origin, end, function, before, call, at));
                    }
                }
                assert(declared_at_most_once(origin, end.module));
            },
        }
    }
}

/// Following a branch to a block of its function leads from one state of
/// a pass to another, and makes the address a discovered one.
pub proof fn lemma_follow_settled(
    origin: ModuleView,
    state: PassState,
    function: int,
    address: u64,
)
    requires
        distinct_addresses(origin),
        settled(origin, state),
        0 <= function < origin.functions.len(),
        resolves(origin, function, address),
    ensures
        settled(origin, follow(state, function, address)),
        forall|a: u64|
            follow(state, function, address).order.contains(a) <==> state.order.contains(a) || a
                == address,
{
    let blocks = state.module.functions[function].blocks;
    let at_address = |block: BlockView| block.address == address;
    let witness = choose|b: int| #[trigger]
        has_block(origin, function, b) && address_at(origin, function, b) == address;
    assert(blocks.len() == origin.functions[function].blocks.len());
    assert(blocks[witness].address == address);
    assert(at_address(blocks[witness]));
    lemma_first_index(blocks, at_address);
    let found = find_block(blocks, address)->0;
    assert(is_first(blocks, at_address, found));
    assert(has_block(origin, function, found));
    assert(blocks[found].address == origin.functions[function].blocks[found].address);
    lemma_attempt_settled(origin, state, function, found);
}

/// The trace call in front of a block does not change where its first
/// conditional branch leads.
pub proof fn lemma_targets_unchanged(
    origin: ModuleView,
    state: PassState,
    function: int,
    block: int,
)
    requires
        settled(origin, state),
        has_block(origin, function, block),
    ensures
        block_targets(state.module.functions[function].blocks[block]) == block_targets(
            origin.functions[function].blocks[block],
        ),
{
    let before = origin.functions[function].blocks[block];
    let after = state.module.functions[function].blocks[block];
    let conditional = |instruction: InstructionView| branch_targets(instruction) is Some;
    assert(block_settled(origin, state, function, block));
    if after != before {
        lemma_first_index_shifted(before.instructions, after.instructions, conditional);
        lemma_first_index(before.instructions, conditional);
        if let Some(at) = first_index(before.instructions, conditional) {
            assert(after.instructions.subrange(1, after.instructions.len() as int)[at]
                == after.instructions[at + 1]);
        }
    }
}

/// Looking at a block leads from one state of a pass to another, and
/// discovers what its first conditional branch leads to.
pub proof fn lemma_visit_block_settled(
    origin: ModuleView,
    state: PassState,
    function: int,
    block: int,
)
    requires
        well_formed(origin),
        settled(origin, state),
        has_block(origin, function, block),
    ensures
        settled(origin, visit_block(state, function, block)),
        forall|a: u64|
            visit_block(state, function, block).order.contains(a) <==> state.order.contains(a)
                || branch_to(origin, function, block, a),
{
    lemma_targets_unchanged(origin, state, function, block);
    if let Some((on_false, on_true)) = block_targets(origin.functions[function].blocks[block]) {
        assert(branch_to(origin, function, block, on_false));
        assert(branch_to(origin, function, block, on_true));
        lemma_follow_settled(origin, state, function, on_false);
        lemma_follow_settled(origin, follow(state, function, on_false), function, on_true);
    }
}

/// Looking at the first blocks of a function leads from one state of a
/// pass to another, and discovers what their branches lead to.
pub proof fn lemma_visit_blocks_settled(
    origin: ModuleView,
    state: PassState,
    function: int,
    count: nat,
)
    requires
        well_formed(origin),
        settled(origin, state),
        0 <= function < origin.functions.len(),
        count <= origin.functions[function].blocks.len(),
    ensures
        settled(origin, visit_blocks(state, function, count)),
        forall|a: u64|
            visit_blocks(state, function, count).order.contains(a) <==> state.order.contains(a)
                || exists|c: int| 0 <= c < count && #[trigger] branch_to(origin, function, c, a),
    decreases count,
{
    if count > 0 {
        let middle = visit_blocks(state, function, (count - 1) as nat);
        let end = visit_blocks(state, function, count);
        lemma_visit_blocks_settled(origin, state, function, (count - 1) as nat);
        assert(has_block(origin, function, count - 1));
        lemma_visit_block_settled(origin, middle, function, count - 1);
        assert forall|a: u64|
            end.order.contains(a) <==> state.order.contains(a) || exists|c: int|
                0 <= c < count && #[trigger] branch_to(origin, function, c, a) by {
            if end.order.contains(a) && !state.order.contains(a) {
                if middle.order.contains(a) {
                    let c = choose|c: int|
                        0 <= c < count - 1 && #[trigger] branch_to(origin, function, c, a);
                    assert(0 <= c < count && branch_to(origin, function, c, a));
                } else {
                    assert(branch_to(origin, function, count - 1, a));
                }
            }
            if exists|c: int| 0 <= c < count && #[trigger] branch_to(origin, function, c, a) {
                let c = choose|c: int|
                    0 <= c < count && #[trigger] branch_to(origin, function, c, a);
                if c < count - 1 {
                    assert(middle.order.contains(a));
                }
            }
        }
    }
}

/// Looking at a function leads from one state of a pass to another, and
/// discovers what the branches of its blocks lead to.
pub proof fn lemma_visit_function_settled(origin: ModuleView, state: PassState, function: int)
    requires
        well_formed(origin),
        settled(origin, state),
        0 <= function < origin.functions.len(),
    ensures
        settled(origin, visit_function(state, function)),
        forall|a: u64|
            visit_function(state, function).order.contains(a) <==> state.order.contains(a)
                || exists|c: int| #[trigger]
                has_block(origin, function, c) && branch_to(origin, function, c, a),
{
    let count = origin.functions[function].blocks.len();
    assert(state.module.functions[function].blocks.len() == count);
    let end = visit_function(state, function);
    if count == 0 {
        assert(state.order.subrange(0, state.order.len() as int) =~= state.order);
        assert forall|f: int, b: int| #[trigger] has_block(origin, f, b) implies block_settled(
            origin,
            end,
            f,
            b,
        ) by {
            assert(block_settled(origin, state, f, b));
            lemma_block_carries(origin, state, end, f, b);
        }
    } else {
        lemma_visit_blocks_settled(origin, state, function, count);
        assert forall|a: u64|
            end.order.contains(a) <==> state.order.contains(a) || exists|c: int| #[trigger]
                has_block(origin, function, c) && branch_to(origin, function, c, a) by {
            if end.order.contains(a) && !state.order.contains(a) {
                let c = choose|c: int|
                    0 <= c < count && #[trigger] branch_to(origin, function, c, a);
                assert(has_block(origin, function, c) && branch_to(origin, function, c, a));
            }
            if exists|c: int| #[trigger]
                has_block(origin, function, c) && branch_to(origin, function, c, a) {
                let c = choose|c: int| #[trigger]
                    has_block(origin, function, c) && branch_to(origin, function, c, a);
                assert(0 <= c < count && branch_to(origin, function, c, a));
            }
        }
    }
}

/// Looking at the first functions of a module leads from one state of a
/// pass to another, and discovers what the branches of their blocks lead to.
pub proof fn lemma_visit_functions_settled(origin: ModuleView, state: PassState, count: nat)
    requires
        well_formed(origin),
        settled(origin, state),
        count <= origin.functions.len(),
    ensures
        settled(origin, visit_functions(state, count)),
        forall|a: u64|
            visit_functions(state, count).order.contains(a) <==> state.order.contains(a)
                || exists|g: int, c: int|
                g < count && #[trigger] has_block(origin, g, c) && branch_to(origin, g, c, a),
    decreases count,
{
    if count > 0 {
        let middle = visit_functions(state, (count - 1) as nat);
        let end = visit_functions(state, count);
        lemma_visit_functions_settled(origin, state, (count - 1) as nat);
        lemma_visit_function_settled(origin, middle, count - 1);
        assert forall|a: u64|
            end.order.contains(a) <==> state.order.contains(a) || exists|g: int, c: int|
                g < count && #[trigger] has_block(origin, g, c) && branch_to(origin, g, c, a) by {
            if end.order.contains(a) && !state.order.contains(a) {
                if middle.order.contains(a) {
                    let (g, c) = choose|g: int, c: int|
                        g < count - 1 && #[trigger] has_block(origin, g, c) && branch_to(
                            origin,
                            g,
                            c,
                            a,
                        );
                    assert(g < count && has_block(origin, g, c) && branch_to(origin, g, c, a));
                } else {
                    let c = choose|c: int| #[trigger]
                        has_block(origin, count - 1, c) && branch_to(origin, count - 1, c, a);
                    assert(has_block(origin, count - 1, c) && branch_to(origin, count - 1, c, a));
                }
            }
            if exists|g: int, c: int|
                g < count && #[trigger] has_block(origin, g, c) && branch_to(origin, g, c, a) {
                let (g, c) = choose|g: int, c: int|
                    g < count && #[trigger] has_block(origin, g, c) && branch_to(origin, g, c, a);
                if g < count - 1 {
                    assert(middle.order.contains(a));
                } else {
                    assert(has_block(origin, count - 1, c) && branch_to(origin, count - 1, c, a));
                }
            }
        }
    }
}

/// One trace call for every block that branches lead to.
///
/// After a pass over a well-formed module, a block that some conditional
/// branch leads to, and that can be traced, holds exactly one instruction
/// more than before: a call of the trace routine, in front of all the
/// others. The call hands the routine the trace line of the block, under
/// the identifier that the block got when it was discovered, then the name
/// of the function and the number of its parameters. Every other block is
/// as it was. This holds however many branches lead to the block.
pub proof fn lemma_one_call_per_target(
    module: ModuleView,
    log: Seq<Diagnostic>,
    function: int,
    block: int,
)
    requires
        well_formed(module),
        has_block(module, function, block),
    ensures
        ({
            let end = run(module, log);
            let before = module.functions[function].blocks[block];
            let after = end.module.functions[function].blocks[block];
            &&& end.order.no_duplicates()
            &&& end.order.contains(before.address) <==> targeted(module, before.address)
            &&& if targeted(module, before.address) && traceable(before) {
                is_traced(module, end, function, before, after)
            } else {
                after == before
            }
        }),
{
    let start = PassState { module, order: Seq::empty(), log };
    let count = module.functions.len();
    assert forall|f: int, b: int| #[trigger] has_block(module, f, b) implies block_settled(
        module,
        start,
        f,
        b,
    ) by {}
    lemma_visit_functions_settled(module, start, count);
    let middle = visit_functions(start, count);
    let end = run(module, log);
    assert(block_settled(module, middle, function, block));
    assert(middle.order.subrange(0, middle.order.len() as int) =~= middle.order);
    lemma_block_carries(module, middle, end, function, block);
    let address = module.functions[function].blocks[block].address;
    if targeted(module, address) {
        let (g, c) = choose|g: int, c: int| #[trigger]
            has_block(module, g, c) && branch_to(module, g, c, address);
        assert(g < count && has_block(module, g, c) && branch_to(module, g, c, address));
        assert(end.order.contains(address));
    }
    if end.order.contains(address) {
        let (g, c) = choose|g: int, c: int|
            g < count && #[trigger] has_block(module, g, c) && branch_to(module, g, c, address);
        assert(has_block(module, g, c) && branch_to(module, g, c, address));
    }
}

/// A pass keeps the layout of the module: every function stays at its
/// index, with as many blocks as it had, each at its address. Functions are
/// only added after the others.
pub proof fn lemma_pass_keeps_layout(module: ModuleView, log: Seq<Diagnostic>)
    ensures
        same_layout(module, run(module, log).module),
{
    lemma_visit_functions_layout(
        PassState { module, order: Seq::empty(), log },
        module.functions.len(),
    );
}

/// After a pass over a well-formed module the trace routine is declared at
/// most once: the functions that were there stand in place under their
/// names, and at most the declaration was added, only where no function had
/// the name of the routine.
pub proof fn lemma_pass_declares_once(module: ModuleView, log: Seq<Diagnostic>)
    requires
        well_formed(module),
    ensures
        declared_at_most_once(module, run(module, log).module),
{
    let start = PassState { module, order: Seq::empty(), log };
    assert forall|f: int, b: int| #[trigger] has_block(module, f, b) implies block_settled(
        module,
        start,
        f,
        b,
    ) by {}
    lemma_visit_functions_settled(module, start, module.functions.len());
}

/// A second trace call reuses the declaration that the first one made: it
/// adds no function, and both calls name the same callee.
pub proof fn lemma_declaration_reused(
    module: ModuleView,
    function: int,
    block: int,
    index: int,
    message: Seq<char>,
    next_function: int,
    next_block: int,
    next_index: int,
    next_message: Seq<char>,
)
    requires
        0 <= function < module.functions.len(),
        0 <= next_function < module.functions.len(),
    ensures
        ({
            let first = inject(module, function, block, index, message);
            let second = inject(first, next_function, next_block, next_index, next_message);
            &&& find_function(first.functions, trace_name()) is Some
            &&& second.functions.len() == first.functions.len()
            &&& trace_routine_index(first.functions) == trace_routine_index(module.functions)
            &&& trace_routine_index(second.functions) == trace_routine_index(module.functions)
            &&& trace_call(first, next_function).operands[3] == trace_call(
                module,
                function,
            ).operands[3]
        }),
{
    let first = inject(module, function, block, index, message);
    let second = inject(first, next_function, next_block, next_index, next_message);
    let named = |f: FunctionView| f.name == trace_name();
    assert(declared_at_most_once(module, first));
    lemma_trace_index_stable(module, first);
    lemma_first_index(module.functions, named);
    lemma_first_index(first.functions, named);
    if find_function(first.functions, trace_name()) is None {
        if find_function(module.functions, trace_name()) is None {
            assert(named(first.functions[module.functions.len() as int]));
        } else {
            let at = find_function(module.functions, trace_name())->0;
            assert(named(first.functions[at]));
        }
    }
    assert(declared_at_most_once(first, second));
    lemma_trace_index_stable(first, second);
}

/// In a sequence without duplicates, what stands in a prefix stands at the
/// same position in the whole.
pub proof fn lemma_prefix_keeps_positions(before: Seq<u64>, after: Seq<u64>)
    requires
        before.is_prefix_of(after),
        after.no_duplicates(),
    ensures
        before.no_duplicates(),
        forall|a: u64| #[trigger]
            before.contains(a) ==> after.contains(a) && position_of(after, a) == position_of(
                before,
                a,
            ),
{
    assert forall|i: int| 0 <= i < before.len() implies before[i] == after[i] by {
        assert(after.subrange(0, before.len() as int)[i] == after[i]);
    }
    assert forall|a: u64| #[trigger] before.contains(a) implies after.contains(a) && position_of(
        after,
        a,
    ) == position_of(before, a) by {
        let at = position_of(before, a);
        assert(after[at] == a);
    }
}

/// Identifiers follow the order of discovery.
///
/// A block that is discovered takes the number of blocks discovered before
/// it as its identifier: the first one 0, the next one 1. A block that is
/// met again keeps its identifier, and so does every other block.
pub proof fn lemma_ids_follow_discovery(state: PassState, function: int, block: int)
    requires
        state.order.no_duplicates(),
    ensures
        ({
            let address = state.module.functions[function].blocks[block].address;
            let end = attempt(state, function, block);
            &&& end.order.no_duplicates()
            &&& state.order.is_prefix_of(end.order)
            &&& end.order.contains(address)
            &&& state.order.contains(address) ==> end.order == state.order
            &&& !state.order.contains(address) ==> end.order == state.order.push(address)
                && position_of(end.order, address) == state.order.len()
            &&& forall|a: u64| #[trigger]
                state.order.contains(a) ==> position_of(end.order, a) == position_of(
                    state.order,
                    a,
                )
        }),
{
    let address = state.module.functions[function].blocks[block].address;
    let end = attempt(state, function, block);
    if !state.order.contains(address) {
        assert(end.order =~= state.order.push(address));
        assert(end.order[state.order.len() as int] == address);
        assert(end.order.subrange(0, state.order.len() as int) =~= state.order);
    } else {
        assert(end.order.subrange(0, state.order.len() as int) =~= state.order);
    }
    lemma_prefix_keeps_positions(state.order, end.order);
}

/// The order of discovery only grows when a branch is followed.
pub proof fn lemma_follow_extends(state: PassState, function: int, address: u64)
    requires
        state.order.no_duplicates(),
    ensures
        follow(state, function, address).order.no_duplicates(),
        state.order.is_prefix_of(follow(state, function, address).order),
{
    match find_block(state.module.functions[function].blocks, address) {
        Some(block) => lemma_ids_follow_discovery(state, function, block),
        None => {
            assert(state.order.subrange(0, state.order.len() as int) =~= state.order);
        },
    }
}

/// A prefix of a prefix is a prefix.
pub proof fn lemma_prefix_transitive(first: Seq<u64>, second: Seq<u64>, third: Seq<u64>)
    requires
        first.is_prefix_of(second),
        second.is_prefix_of(third),
    ensures
        first.is_prefix_of(third),
{
    assert forall|i: int| 0 <= i < first.len() implies first[i] == third[i] by {
        assert(second.subrange(0, first.len() as int)[i] == second[i]);
        assert(third.subrange(0, second.len() as int)[i] == third[i]);
    }
    assert(first =~= third.subrange(0, first.len() as int));
}

/// The order of discovery only grows when a block is looked at.
pub proof fn lemma_visit_block_extends(state: PassState, function: int, block: int)
    requires
        state.order.no_duplicates(),
    ensures
        visit_block(state, function, block).order.no_duplicates(),
        state.order.is_prefix_of(visit_block(state, function, block).order),
{
    match block_targets(state.module.functions[function].blocks[block]) {
        Some((on_false, on_true)) => {
            let middle = follow(state, function, on_false);
            lemma_follow_extends(state, function, on_false);
            lemma_follow_extends(middle, function, on_true);
            lemma_prefix_transitive(
                state.order,
                middle.order,
                follow(middle, function, on_true).order,
            );
        },
        None => {
            assert(state.order.subrange(0, state.order.len() as int) =~= state.order);
        },
    }
}

/// The order of discovery only grows while the blocks of a function are
/// looked at.
pub proof fn lemma_visit_blocks_extends(state: PassState, function: int, count: nat)
    requires
        state.order.no_duplicates(),
    ensures
        visit_blocks(state, function, count).order.no_duplicates(),
        state.order.is_prefix_of(visit_blocks(state, function, count).order),
    decreases count,
{
    if count == 0 {
        assert(state.order.subrange(0, state.order.len() as int) =~= state.order);
    } else {
        let middle = visit_blocks(state, function, (count - 1) as nat);
        lemma_visit_blocks_extends(state, function, (count - 1) as nat);
        lemma_visit_block_extends(middle, function, count - 1);
        lemma_prefix_transitive(
            state.order,
            middle.order,
            visit_block(middle, function, count - 1).order,
        );
    }
}

/// Identifiers never change.
///
/// Throughout a pass the order of discovery only grows at its end and holds
/// no address twice: a block that has an identifier keeps it, and no
/// identifier is given out again.
pub proof fn lemma_ids_never_change(state: PassState, count: nat)
    requires
        state.order.no_duplicates(),
    ensures
        visit_functions(state, count).order.no_duplicates(),
        state.order.is_prefix_of(visit_functions(state, count).order),
        forall|a: u64| #[trigger]
            state.order.contains(a) ==> visit_functions(state, count).order.contains(a)
                && position_of(visit_functions(state, count).order, a) == position_of(
                state.order,
                a,
            ),
    decreases count,
{
    if count == 0 {
        assert(state.order.subrange(0, state.order.len() as int) =~= state.order);
    } else {
        let middle = visit_functions(state, (count - 1) as nat);
        lemma_ids_never_change(state, (count - 1) as nat);
        lemma_visit_blocks_extends(
            middle,
            count - 1,
            middle.module.functions[count - 1].blocks.len(),
        );
        assert(middle.order.subrange(0, middle.order.len() as int) =~= middle.order);
        lemma_prefix_transitive(
            state.order,
            middle.order,
            visit_function(middle, count - 1).order,
        );
    }
    lemma_prefix_keeps_positions(state.order, visit_functions(state, count).order);
}

/// The trace line of a block whose first and last instruction come from
/// the same file names the file, both lines and the identifier, and nothing
/// is reported.
pub proof fn lemma_line_with_both_ends(
    block: BlockView,
    id: u64,
    file: Seq<char>,
    start: u32,
    end: u32,
)
    requires
        block.instructions.len() > 0,
        source_position(block.instructions.first()) == Some((start, file)),
        source_position(block.instructions.last()) == Some((end, file)),
    ensures
        plan(block, id).0 == Some(
            file + seq![' ', '{'] + decimal(start as nat) + seq![',', ' '] + decimal(end as nat)
                + seq!['}', ':', ' ', 'b', 'r', '_'] + decimal(id as nat),
        ),
        plan(block, id).1 == Seq::<Diagnostic>::empty(),
{
}

/// The trace line of a block whose last instruction has no source position
/// names the file, the first line and the identifier, with an underscore in
/// place of the last line.
pub proof fn lemma_line_with_open_end(block: BlockView, id: u64, file: Seq<char>, start: u32)
    requires
        block.instructions.len() > 0,
        source_position(block.instructions.first()) == Some((start, file)),
        source_position(block.instructions.last()) is None,
    ensures
        plan(block, id).0 == Some(
            file + seq![' ', '{'] + decimal(start as nat) + seq![
                ',',
                ' ',
                '_',
                '}',
                ':',
                ' ',
                'b',
                'r',
                '_',
            ] + decimal(id as nat),
        ),
{
    let head = file + seq![' ', '{'] + decimal(start as nat);
    assert(head + seq![',', ' '] + seq!['_'] + seq!['}', ':', ' ', 'b', 'r', '_'] =~= head + seq![
        ',',
        ' ',
        '_',
        '}',
        ':',
        ' ',
        'b',
        'r',
        '_',
    ]);
}

/// A block without instructions is inert.
///
/// Finding it as a branch target changes nothing in the module. It takes an
/// identifier all the same, and when it is found again it is known under
/// that identifier and the module stays as it is.
pub proof fn lemma_empty_block_inert(state: PassState, function: int, block: int)
    requires
        state.order.no_duplicates(),
        state.module.functions[function].blocks[block].instructions.len() == 0,
    ensures
        ({
            let address = state.module.functions[function].blocks[block].address;
            let once = attempt(state, function, block);
            let twice = attempt(once, function, block);
            let id = resolve(state.order, address).0;
            &&& once.module == state.module
            &&& twice.module == state.module
            &&& twice.order == once.order
            &&& resolve(once.order, address) == (id, true, once.order)
            &&& twice.log == once.log.push(Diagnostic::Revisited { id, address })
        }),
{
    let address = state.module.functions[function].blocks[block].address;
    let once = attempt(state, function, block);
    lemma_ids_follow_discovery(state, function, block);
    if state.order.contains(address) {
        assert(once.order == state.order);
    } else {
        assert(state.order.len() == position_of(once.order, address));
    }
}

/// A function without blocks adds nothing to a pass.
///
/// It is reported and left out: the module stays as it is, no block is
/// discovered, and the identifiers that later functions get are the ones
/// they would get without it.
pub proof fn lemma_function_without_blocks(state: PassState, function: int)
    requires
        state.module.functions[function].blocks.len() == 0,
    ensures
        visit_function(state, function).module == state.module,
        visit_function(state, function).order == state.order,
        visit_function(state, function).log == state.log.push(
            Diagnostic::UndefinedFunction { function: function as usize },
        ),
{
}

} // verus!
