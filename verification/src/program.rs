//! A program: its own unit with its calls made direct, and the units of the namespaces that it
//! requires, in one object module.
use crate::codegen::CodegenError;
use crate::compiler;
use crate::compiler::Compiler;
use crate::emission;
use crate::ir;
use crate::ir::{Block, BlockId, Inst, InstView, IrFunction, Terminator, VarId};
use crate::passes;
use crate::passes::{optimize_direct_calls, ArityView, DefnView};
use crate::unit;
use crate::unit::compile_program;
use vstd::prelude::*;

verus! {

proof fn rewritten_inst_is_ok(a: Inst, b: Inst, targets: Seq<(VarId, Seq<ArityView>)>)
    requires
        b@ == passes::rewritten(targets, a@),
        emission::inst_ok(a),
    ensures
        emission::inst_ok(b),
{
    match b {
        Inst::CallKnown(d, kf, args) => {
            assert(b@ is CallKnown);
            assert(a@ == b@);
            assert(a is CallKnown);
        },
        Inst::AllocClosure(d, t, vs) => {
            assert(b@ is AllocClosure);
            assert(a@ == b@);
            assert(a is AllocClosure);
            assert(a->AllocClosure_1@ == t@);
            assert(a->AllocClosure_1@.arity_fn_names.len() == t@.arity_fn_names.len());
        },
        _ => {},
    }
}

proof fn block_is_there(a: Seq<Block>, b: Seq<Block>, id: BlockId)
    requires
        a.len() == b.len(),
        forall|k: int| 0 <= k < a.len() ==> (#[trigger] a[k]).id == b[k].id,
        emission::has_block(a, id),
    ensures
        emission::has_block(b, id),
{
    let k = choose|k: int| 0 <= k < a.len() && (#[trigger] a[k]).id == id;
    assert(b[k].id == id);
}

proof fn rewritten_function_is_ok(f: IrFunction, g: IrFunction, targets: Seq<(VarId, Seq<ArityView>)>)
    requires
        emission::function_ok(f),
        ir::blocks_view(g.blocks@) == passes::rewritten_blocks(targets, ir::blocks_view(f.blocks@)),
    ensures
        emission::function_ok(g),
{
    let a = f.blocks@;
    let b = g.blocks@;
    assert(ir::blocks_view(b).len() == ir::blocks_view(a).len());
    assert forall|k: int| 0 <= k < a.len() implies (#[trigger] a[k]).id == b[k].id && a[k].terminator@ == b[k].terminator@ && a[k].insts@.len() == b[k].insts@.len() by {
        assert(ir::blocks_view(b)[k] == passes::rewritten_block(targets, ir::blocks_view(a)[k]));
        assert(ir::insts_view(b[k].insts@).len() == ir::insts_view(a[k].insts@).len());
    }
    assert forall|j: int| 0 <= j < b.len() implies emission::names_blocks(b, (#[trigger] b[j]).terminator) by {
        assert(emission::names_blocks(a, a[j].terminator));
        assert(a[j].terminator@ == b[j].terminator@);
        match b[j].terminator {
            Terminator::Jump(t) => block_is_there(a, b, t),
            Terminator::Branch { cond, then_block, else_block } => {
                block_is_there(a, b, then_block);
                block_is_there(a, b, else_block);
            },
            Terminator::RecurJump { target, args } => block_is_there(a, b, target),
            _ => {},
        }
    }
    assert forall|j: int, i: int| 0 <= j < b.len() && 0 <= i < b[j].insts@.len() implies emission::inst_ok(#[trigger] b[j].insts@[i]) by {
        assert(a[j].insts@.len() == b[j].insts@.len());
        assert(emission::inst_ok(a[j].insts@[i]));
        assert(ir::blocks_view(b)[j] == passes::rewritten_block(targets, ir::blocks_view(a)[j]));
        assert(ir::insts_view(b[j].insts@) == ir::insts_view(a[j].insts@).map_values(|x: InstView| passes::rewritten(targets, x)));
        assert(ir::insts_view(b[j].insts@)[i] == b[j].insts@[i]@);
        assert(ir::insts_view(a[j].insts@)[i] == a[j].insts@[i]@);
        rewritten_inst_is_ok(a[j].insts@[i], b[j].insts@[i], targets);
    }
}

proof fn inner_functions_are_ok(fs: Seq<IrFunction>, gs: Seq<IrFunction>, defns: Seq<DefnView>, n: int)
    requires
        ir::functions_view(gs) == passes::optimized_list(ir::functions_view(fs), defns),
        0 <= n <= fs.len(),
        unit::all_ok(unit::inner_first(fs, n)),
    ensures
        gs.len() == fs.len(),
        unit::all_ok(unit::inner_first(gs, n)),
    decreases fs, n,
{
    ir::functions_view_at(fs);
    ir::functions_view_at(gs);
    passes::optimized_list_at(ir::functions_view(fs), defns);
    if n > 0 {
        let f = fs[n - 1];
        let g = gs[n - 1];
        let all = defns + passes::defns_of(ir::function_view(f).blocks);
        assert(ir::functions_view(gs)[n - 1] == ir::function_view(g));
        assert(ir::functions_view(fs)[n - 1] == ir::function_view(f));
        assert(ir::function_view(g) == passes::optimized_with(ir::function_view(f), defns));
        let m = f.subfunctions@.len() as int;
        let before = unit::inner_first(fs, n - 1);
        let inner = unit::inner_first(f.subfunctions@, m);
        let whole = unit::inner_first(fs, n);
        assert(whole == (before + inner).push(f));
        assert forall|i: int| 0 <= i < before.len() implies emission::function_ok(#[trigger] before[i]) && unit::is_countable(before[i]) by {
            assert(whole[i] == before[i]);
        }
        assert forall|i: int| 0 <= i < inner.len() implies emission::function_ok(#[trigger] inner[i]) && unit::is_countable(inner[i]) by {
            assert(whole[before.len() + i] == inner[i]);
        }
        assert(whole[whole.len() - 1] == f);
        inner_functions_are_ok(fs, gs, defns, n - 1);
        inner_functions_are_ok(f.subfunctions@, g.subfunctions@, all, m);
        rewritten_function_is_ok(f, g, passes::loads(all, ir::function_view(f).blocks, ir::function_view(f).blocks.len() as int));
        assert(ir::params_view(g.params@).len() == ir::params_view(f.params@).len());
    }
}

/// Making calls direct takes nothing from a unit that it needs to be translated.
pub proof fn direct_calls_can_be_translated(f: IrFunction, g: IrFunction)
    requires
        unit::unit_ok(f),
        ir::function_view(g) == passes::optimized(ir::function_view(f)),
    ensures
        unit::unit_ok(g),
{
    let all = passes::defns_within(ir::function_view(f));
    inner_functions_are_ok(f.subfunctions@, g.subfunctions@, all, f.subfunctions@.len() as int);
    rewritten_function_is_ok(f, g, passes::loads(all, ir::function_view(f).blocks, ir::function_view(f).blocks.len() as int));
}

/// What compiling a program with the compiler that was set up comes to, if one was: a compiler that has
/// compiled its units, or the error of one of them.
pub open spec fn comes_to(r: Result<Compiler, CodegenError>, made: Result<Compiler, CodegenError>, main: IrFunction, deps: Seq<(String, IrFunction)>) -> bool {
    match made {
        Ok(a) => match r {
            Ok(c) => {
                &&& c.wf()
                &&& unit::continues(a, c)
                &&& a.is_whole() && compiler::names_are_unique(a.functions()) ==> c.is_whole()
                &&& c.user_names() == unit::program_names(a.user_names(), main, deps, deps.len() as int)
                &&& unit::program_is_built(c, a.user_names(), main, deps, deps.len() as int)
            },
            Err(e) => unit::is_program_error(e@, a, main, deps),
        },
        Err(e) => r is Err && r->Err_0@ == e@,
    }
}

/// Compiles a program with the compiler that was set up, if one was: its own unit behind its inner
/// functions, with the units that set up the namespaces that it requires behind it.
pub fn compile_with(made: Result<Compiler, CodegenError>, main: &IrFunction, deps: &Vec<(String, IrFunction)>) -> (r: Result<Compiler, CodegenError>)
    requires
        made is Ok ==> made->Ok_0.wf(),
        unit::unit_ok(*main),
        forall|i: int| 0 <= i < deps@.len() ==> unit::unit_ok((#[trigger] deps@[i]).1),
    ensures
        comes_to(r, made, *main, deps@),
{
    let mut c = match made {
        Ok(c) => c,
        Err(e) => return Err(e),
    };
    proof {
        reveal(unit::program_compiles);
    }
    match compile_program(&mut c, main, deps) {
        Ok(_) => Ok(c),
        Err(e) => Err(e),
    }
}

/// Compiles a program for this host: the calls of the functions that its own unit defines are made
/// direct, and the unit is compiled behind its inner functions, with the units that set up the
/// namespaces that it requires behind it.  Whether there is a compiler for the host is the host's to
/// say.
pub fn compile_file(main: &mut IrFunction, deps: &Vec<(String, IrFunction)>) -> (r: Result<Compiler, CodegenError>)
    requires
        unit::unit_ok(*old(main)),
        forall|i: int| 0 <= i < deps@.len() ==> unit::unit_ok((#[trigger] deps@[i]).1),
    ensures
        ir::function_view(*final(main)) == passes::optimized(ir::function_view(*old(main))),
        exists|made: Result<Compiler, CodegenError>| compiler::is_made(made) && #[trigger] comes_to(r, made, *final(main), deps@),
        r matches Ok(c) ==> {
            &&& c.wf()
            &&& c.is_whole()
            &&& compiler::is_for_host(c.origin())
            &&& c.user_names() == unit::program_names(Seq::empty(), *final(main), deps@, deps@.len() as int)
            &&& unit::program_is_built(c, Seq::empty(), *final(main), deps@, deps@.len() as int)
        },
{
    optimize_direct_calls(main);
    proof {
        direct_calls_can_be_translated(*old(main), *main);
    }
    let made = Compiler::new();
    let ghost first = made;
    let r = compile_with(made, main, deps);
    proof {
        assert(compiler::is_made(first) && comes_to(r, first, *main, deps@));
        if first is Ok {
            assert(first->Ok_0.user_names() =~= Seq::empty());
        }
    }
    r
}

} // verus!
