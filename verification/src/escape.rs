//! What a function may not do where its scratch memory goes away when it returns.
//!
//! A function that keeps its intermediate results in a region of its own must not return one of
//! them, must not store one in a container that outlives it, must not let an unrealized lazy
//! sequence that it has used get out, and must not store a closure.
use crate::ir;
use crate::ir::{Block, Inst, IrFunction, KnownFn, Terminator, VarId};
use crate::emission;
use crate::text::render_decimal;
use std::collections::HashSet;
use vstd::prelude::*;
use vstd::string::*;

verus! {

broadcast use vstd::std_specs::hash::group_hash_axioms;

/// A function would leave a dangling pointer behind.
#[derive(Debug)]
pub enum BlacklistViolation {
    /// It returns something that it allocated.
    InteriorPointerReturn { function: Option<String>, var: VarId },
    /// It stores something that it allocated where it outlives the function.
    RegionToStaticStore { function: Option<String>, var: VarId },
    /// It returns a lazy sequence that it has used elsewhere.
    LazySeqEscape { function: Option<String>, var: VarId },
    /// It stores a closure where it outlives the function.
    EscapingClosure { function: Option<String>, var: VarId },
}

/// A function would leave a dangling pointer behind.
pub enum ViolationView {
    InteriorPointerReturn(Option<Seq<char>>, VarId),
    RegionToStaticStore(Option<Seq<char>>, VarId),
    LazySeqEscape(Option<Seq<char>>, VarId),
    EscapingClosure(Option<Seq<char>>, VarId),
}

impl View for BlacklistViolation {
    type V = ViolationView;

    open spec fn view(&self) -> ViolationView {
        match *self {
            BlacklistViolation::InteriorPointerReturn { function, var } => ViolationView::InteriorPointerReturn(ir::text_opt(function), var),
            BlacklistViolation::RegionToStaticStore { function, var } => ViolationView::RegionToStaticStore(ir::text_opt(function), var),
            BlacklistViolation::LazySeqEscape { function, var } => ViolationView::LazySeqEscape(ir::text_opt(function), var),
            BlacklistViolation::EscapingClosure { function, var } => ViolationView::EscapingClosure(ir::text_opt(function), var),
        }
    }
}

pub open spec fn violations_view(vs: Seq<BlacklistViolation>) -> Seq<ViolationView> {
    vs.map_values(|v: BlacklistViolation| v@)
}

/// How a function is named in a message.
pub open spec fn display_name(name: Option<Seq<char>>) -> Seq<char> {
    match name {
        Some(n) => "`"@ + n + "`"@,
        None => "<anonymous>"@,
    }
}

/// A violation in words.
pub open spec fn violation_text(v: ViolationView) -> Seq<char> {
    match v {
        ViolationView::InteriorPointerReturn(f, x) => "no-gc: function "@ + display_name(f) + " returns "@ + emission::var_text(x)
            + " which was allocated in its own scratch region \u{2014} the return expression must produce a fresh value via a function call (e.g. use `(assoc ...)` rather than returning a let-bound map)"@,
        ViolationView::RegionToStaticStore(f, x) => "no-gc: function "@ + display_name(f) + " stores scratch-region allocation "@ + emission::var_text(x)
            + " in a static container (def / set!) \u{2014} compute the value inside the sink so it is allocated in the static context"@,
        ViolationView::LazySeqEscape(f, x) => "no-gc: function "@ + display_name(f) + " lets unrealized lazy sequence "@ + emission::var_text(x)
            + " escape its scratch region via a non-tail binding \u{2014} wrap with `doall` / `vec` / `into` before returning, or make the lazy producer the direct return expression"@,
        ViolationView::EscapingClosure(f, x) => "no-gc: function "@ + display_name(f) + " stores closure "@ + emission::var_text(x)
            + " (which captures region-local values) in a static container \u{2014} ensure all captured values are computed in the static context before the closure is stored"@,
    }
}

fn named(name: &Option<String>) -> (r: String)
    ensures
        r@ == display_name(ir::text_opt(*name)),
{
    match name {
        Some(n) => "`".to_owned().concat(n.as_str()).concat("`"),
        None => "<anonymous>".to_owned(),
    }
}

fn sentence(name: &Option<String>, middle: &str, var: VarId, end: &str) -> (r: String)
    ensures
        r@ == "no-gc: function "@ + display_name(ir::text_opt(*name)) + middle@ + emission::var_text(var) + end@,
{
    let digits = render_decimal(var.0 as u64);
    "no-gc: function ".to_owned().concat(named(name).as_str()).concat(middle).concat("v".to_owned().concat(digits.as_str()).as_str()).concat(end)
}

impl BlacklistViolation {
    /// The violation in words.
    pub fn message(&self) -> (r: String)
        ensures
            r@ == violation_text(self@),
    {
        match self {
            BlacklistViolation::InteriorPointerReturn { function, var } => sentence(function, " returns ", *var, " which was allocated in its own scratch region \u{2014} the return expression must produce a fresh value via a function call (e.g. use `(assoc ...)` rather than returning a let-bound map)"),
            BlacklistViolation::RegionToStaticStore { function, var } => sentence(function, " stores scratch-region allocation ", *var, " in a static container (def / set!) \u{2014} compute the value inside the sink so it is allocated in the static context"),
            BlacklistViolation::LazySeqEscape { function, var } => sentence(function, " lets unrealized lazy sequence ", *var, " escape its scratch region via a non-tail binding \u{2014} wrap with `doall` / `vec` / `into` before returning, or make the lazy producer the direct return expression"),
            BlacklistViolation::EscapingClosure { function, var } => sentence(function, " stores closure ", *var, " (which captures region-local values) in a static container \u{2014} ensure all captured values are computed in the static context before the closure is stored"),
        }
    }
}

/// The value that an instruction allocates.
pub open spec fn alloc_of(inst: Inst) -> Seq<VarId> {
    match inst {
        Inst::AllocVector(d, _) => seq![d],
        Inst::AllocMap(d, _) => seq![d],
        Inst::AllocSet(d, _) => seq![d],
        Inst::AllocList(d, _) => seq![d],
        Inst::AllocCons(d, _, _) => seq![d],
        Inst::AllocClosure(d, _, _) => seq![d],
        Inst::RegionAlloc(d, _, _, _) => seq![d],
        _ => Seq::empty(),
    }
}

/// The closure that an instruction allocates.
pub open spec fn closure_of(inst: Inst) -> Seq<VarId> {
    match inst {
        Inst::AllocClosure(d, _, _) => seq![d],
        _ => Seq::empty(),
    }
}

/// The known function yields a lazy sequence.
pub open spec fn is_lazy(kf: KnownFn) -> bool {
    match kf {
        KnownFn::LazySeq => true,
        KnownFn::MapSeq => true,
        KnownFn::Filter => true,
        KnownFn::Cons => true,
        KnownFn::Rest => true,
        KnownFn::Next => true,
        KnownFn::Concat => true,
        KnownFn::Range1 => true,
        KnownFn::Range2 => true,
        KnownFn::Range3 => true,
        KnownFn::Take => true,
        KnownFn::Drop => true,
        KnownFn::Keep => true,
        KnownFn::Remove => true,
        _ => false,
    }
}

/// The lazy sequence that an instruction yields.
pub open spec fn lazy_of(inst: Inst) -> Seq<VarId> {
    match inst {
        Inst::CallKnown(d, kf, _) => if is_lazy(kf) { seq![d] } else { Seq::empty() },
        _ => Seq::empty(),
    }
}

/// What an instruction stores in a variable of the program.
pub open spec fn static_sink_of(inst: Inst) -> Seq<VarId> {
    match inst {
        Inst::DefVar(_, _, _, v) => seq![v],
        Inst::SetBang(_, v) => seq![v],
        _ => Seq::empty(),
    }
}

/// What an instruction stores in an atom.
pub open spec fn atom_sink_of(inst: Inst) -> Seq<VarId> {
    match inst {
        Inst::CallKnown(_, kf, args) => if kf == KnownFn::AtomReset && args@.len() >= 2 {
            seq![args@[1]]
        } else if kf == KnownFn::AtomSwap && args@.len() >= 3 {
            args@.subrange(2, args@.len() as int)
        } else {
            Seq::empty()
        },
        _ => Seq::empty(),
    }
}

/// The inputs of a phi, each with the phi.
pub open spec fn edges_of(inst: Inst) -> Seq<(VarId, VarId)> {
    match inst {
        Inst::Phi(d, es) => Seq::new(es@.len(), |i: int| (d, es@[i].1)),
        _ => Seq::empty(),
    }
}

/// What is allocated.
pub open spec fn allocs_in(insts: Seq<Inst>, n: int) -> Seq<VarId>
    decreases n,
{
    if n <= 0 { Seq::empty() } else { allocs_in(insts, n - 1) + alloc_of(insts[n - 1]) }
}

/// What is allocated, in the first `n` blocks.
pub open spec fn allocs(blocks: Seq<Block>, n: int) -> Seq<VarId>
    decreases n,
{
    if n <= 0 {
        Seq::empty()
    } else {
        let b = blocks[n - 1];
        allocs(blocks, n - 1) + allocs_in(b.phis@, b.phis@.len() as int) + allocs_in(b.insts@, b.insts@.len() as int)
    }
}

fn collect_alloc_vars_of(inst: &Inst, out: &mut Vec<VarId>)
    ensures
        final(out)@ == old(out)@ + alloc_of(*inst),
{
    match inst {
        Inst::AllocVector(d, _) | Inst::AllocMap(d, _) | Inst::AllocSet(d, _) | Inst::AllocList(d, _) | Inst::AllocCons(d, _, _)
        | Inst::AllocClosure(d, _, _) | Inst::RegionAlloc(d, _, _, _) => {
            out.push(*d);
            assert(out@ =~= old(out)@ + seq![*d]);
        },
        _ => {
            assert(out@ =~= old(out)@ + Seq::<VarId>::empty());
        },
    }
}

fn collect_alloc_vars_in(insts: &Vec<Inst>, out: &mut Vec<VarId>)
    ensures
        final(out)@ == old(out)@ + allocs_in(insts@, insts@.len() as int),
{
    let mut i: usize = 0;
    assert(old(out)@ + allocs_in(insts@, 0) =~= old(out)@);
    while i < insts.len()
        invariant
            i <= insts@.len(),
            out@ == old(out)@ + allocs_in(insts@, i as int),
        decreases insts@.len() - i,
    {
        collect_alloc_vars_of(&insts[i], out);
        assert(out@ =~= old(out)@ + (allocs_in(insts@, i as int) + alloc_of(insts@[i as int])));
        i += 1;
    }
}

/// What is allocated.
fn collect_alloc_vars(func: &IrFunction) -> (r: Vec<VarId>)
    ensures
        r@ == allocs(func.blocks@, func.blocks@.len() as int),
{
    let mut out: Vec<VarId> = Vec::new();
    let mut b: usize = 0;
    while b < func.blocks.len()
        invariant
            b <= func.blocks@.len(),
            out@ == allocs(func.blocks@, b as int),
        decreases func.blocks@.len() - b,
    {
        let block = &func.blocks[b];
        let ghost before = out@;
        collect_alloc_vars_in(&block.phis, &mut out);
        collect_alloc_vars_in(&block.insts, &mut out);
        assert(out@ =~= before + allocs_in(block.phis@, block.phis@.len() as int) + allocs_in(block.insts@, block.insts@.len() as int));
        b += 1;
    }
    out
}

/// The closures that are allocated.
pub open spec fn closures_in(insts: Seq<Inst>, n: int) -> Seq<VarId>
    decreases n,
{
    if n <= 0 { Seq::empty() } else { closures_in(insts, n - 1) + closure_of(insts[n - 1]) }
}

/// The closures that are allocated, in the first `n` blocks.
pub open spec fn closures(blocks: Seq<Block>, n: int) -> Seq<VarId>
    decreases n,
{
    if n <= 0 {
        Seq::empty()
    } else {
        let b = blocks[n - 1];
        closures(blocks, n - 1) + closures_in(b.phis@, b.phis@.len() as int) + closures_in(b.insts@, b.insts@.len() as int)
    }
}

fn collect_closure_vars_of(inst: &Inst, out: &mut Vec<VarId>)
    ensures
        final(out)@ == old(out)@ + closure_of(*inst),
{
    match inst {
        Inst::AllocClosure(d, _, _) => {
            out.push(*d);
            assert(out@ =~= old(out)@ + seq![*d]);
        },
        _ => {
            assert(out@ =~= old(out)@ + Seq::<VarId>::empty());
        },
    }
}

fn collect_closure_vars_in(insts: &Vec<Inst>, out: &mut Vec<VarId>)
    ensures
        final(out)@ == old(out)@ + closures_in(insts@, insts@.len() as int),
{
    let mut i: usize = 0;
    assert(old(out)@ + closures_in(insts@, 0) =~= old(out)@);
    while i < insts.len()
        invariant
            i <= insts@.len(),
            out@ == old(out)@ + closures_in(insts@, i as int),
        decreases insts@.len() - i,
    {
        collect_closure_vars_of(&insts[i], out);
        assert(out@ =~= old(out)@ + (closures_in(insts@, i as int) + closure_of(insts@[i as int])));
        i += 1;
    }
}

/// The closures that are allocated.
fn collect_closure_vars(func: &IrFunction) -> (r: Vec<VarId>)
    ensures
        r@ == closures(func.blocks@, func.blocks@.len() as int),
{
    let mut out: Vec<VarId> = Vec::new();
    let mut b: usize = 0;
    while b < func.blocks.len()
        invariant
            b <= func.blocks@.len(),
            out@ == closures(func.blocks@, b as int),
        decreases func.blocks@.len() - b,
    {
        let block = &func.blocks[b];
        let ghost before = out@;
        collect_closure_vars_in(&block.phis, &mut out);
        collect_closure_vars_in(&block.insts, &mut out);
        assert(out@ =~= before + closures_in(block.phis@, block.phis@.len() as int) + closures_in(block.insts@, block.insts@.len() as int));
        b += 1;
    }
    out
}

/// The lazy sequences that known functions yield.
pub open spec fn lazies_in(insts: Seq<Inst>, n: int) -> Seq<VarId>
    decreases n,
{
    if n <= 0 { Seq::empty() } else { lazies_in(insts, n - 1) + lazy_of(insts[n - 1]) }
}

/// The lazy sequences that known functions yield, in the first `n` blocks.
pub open spec fn lazies(blocks: Seq<Block>, n: int) -> Seq<VarId>
    decreases n,
{
    if n <= 0 {
        Seq::empty()
    } else {
        let b = blocks[n - 1];
        lazies(blocks, n - 1) + lazies_in(b.insts@, b.insts@.len() as int)
    }
}

fn collect_lazy_vars_of(inst: &Inst, out: &mut Vec<VarId>)
    ensures
        final(out)@ == old(out)@ + lazy_of(*inst),
{
    match inst {
        Inst::CallKnown(d, kf, _) => {
            if is_lazy_producing(*kf) {
                out.push(*d);
                assert(out@ =~= old(out)@ + seq![*d]);
            } else {
                assert(out@ =~= old(out)@ + Seq::<VarId>::empty());
            }
        },
        _ => {
            assert(out@ =~= old(out)@ + Seq::<VarId>::empty());
        },
    }
}

fn collect_lazy_vars_in(insts: &Vec<Inst>, out: &mut Vec<VarId>)
    ensures
        final(out)@ == old(out)@ + lazies_in(insts@, insts@.len() as int),
{
    let mut i: usize = 0;
    assert(old(out)@ + lazies_in(insts@, 0) =~= old(out)@);
    while i < insts.len()
        invariant
            i <= insts@.len(),
            out@ == old(out)@ + lazies_in(insts@, i as int),
        decreases insts@.len() - i,
    {
        collect_lazy_vars_of(&insts[i], out);
        assert(out@ =~= old(out)@ + (lazies_in(insts@, i as int) + lazy_of(insts@[i as int])));
        i += 1;
    }
}

/// The lazy sequences that known functions yield.
fn collect_lazy_vars(func: &IrFunction) -> (r: Vec<VarId>)
    ensures
        r@ == lazies(func.blocks@, func.blocks@.len() as int),
{
    let mut out: Vec<VarId> = Vec::new();
    let mut b: usize = 0;
    while b < func.blocks.len()
        invariant
            b <= func.blocks@.len(),
            out@ == lazies(func.blocks@, b as int),
        decreases func.blocks@.len() - b,
    {
        let block = &func.blocks[b];
        let ghost before = out@;
        collect_lazy_vars_in(&block.insts, &mut out);
        assert(out@ =~= before + lazies_in(block.insts@, block.insts@.len() as int));
        b += 1;
    }
    out
}

/// What is stored in variables of the program.
pub open spec fn static_sinks_in(insts: Seq<Inst>, n: int) -> Seq<VarId>
    decreases n,
{
    if n <= 0 { Seq::empty() } else { static_sinks_in(insts, n - 1) + static_sink_of(insts[n - 1]) }
}

/// What is stored in variables of the program, in the first `n` blocks.
pub open spec fn static_sinks(blocks: Seq<Block>, n: int) -> Seq<VarId>
    decreases n,
{
    if n <= 0 {
        Seq::empty()
    } else {
        let b = blocks[n - 1];
        static_sinks(blocks, n - 1) + static_sinks_in(b.insts@, b.insts@.len() as int)
    }
}

fn collect_static_sink_vals_of(inst: &Inst, out: &mut Vec<VarId>)
    ensures
        final(out)@ == old(out)@ + static_sink_of(*inst),
{
    match inst {
        Inst::DefVar(_, _, _, v) => {
            out.push(*v);
            assert(out@ =~= old(out)@ + seq![*v]);
        },
        Inst::SetBang(_, v) => {
            out.push(*v);
            assert(out@ =~= old(out)@ + seq![*v]);
        },
        _ => {
            assert(out@ =~= old(out)@ + Seq::<VarId>::empty());
        },
    }
}

fn collect_static_sink_vals_in(insts: &Vec<Inst>, out: &mut Vec<VarId>)
    ensures
        final(out)@ == old(out)@ + static_sinks_in(insts@, insts@.len() as int),
{
    let mut i: usize = 0;
    assert(old(out)@ + static_sinks_in(insts@, 0) =~= old(out)@);
    while i < insts.len()
        invariant
            i <= insts@.len(),
            out@ == old(out)@ + static_sinks_in(insts@, i as int),
        decreases insts@.len() - i,
    {
        collect_static_sink_vals_of(&insts[i], out);
        assert(out@ =~= old(out)@ + (static_sinks_in(insts@, i as int) + static_sink_of(insts@[i as int])));
        i += 1;
    }
}

/// What is stored in variables of the program.
fn collect_static_sink_vals(func: &IrFunction) -> (r: Vec<VarId>)
    ensures
        r@ == static_sinks(func.blocks@, func.blocks@.len() as int),
{
    let mut out: Vec<VarId> = Vec::new();
    let mut b: usize = 0;
    while b < func.blocks.len()
        invariant
            b <= func.blocks@.len(),
            out@ == static_sinks(func.blocks@, b as int),
        decreases func.blocks@.len() - b,
    {
        let block = &func.blocks[b];
        let ghost before = out@;
        collect_static_sink_vals_in(&block.insts, &mut out);
        assert(out@ =~= before + static_sinks_in(block.insts@, block.insts@.len() as int));
        b += 1;
    }
    out
}

/// What is stored in atoms.
pub open spec fn atom_sinks_in(insts: Seq<Inst>, n: int) -> Seq<VarId>
    decreases n,
{
    if n <= 0 { Seq::empty() } else { atom_sinks_in(insts, n - 1) + atom_sink_of(insts[n - 1]) }
}

/// What is stored in atoms, in the first `n` blocks.
pub open spec fn atom_sinks(blocks: Seq<Block>, n: int) -> Seq<VarId>
    decreases n,
{
    if n <= 0 {
        Seq::empty()
    } else {
        let b = blocks[n - 1];
        atom_sinks(blocks, n - 1) + atom_sinks_in(b.insts@, b.insts@.len() as int)
    }
}

fn collect_atom_sink_vals_of(inst: &Inst, out: &mut Vec<VarId>)
    ensures
        final(out)@ == old(out)@ + atom_sink_of(*inst),
{
    match inst {
        Inst::CallKnown(_, kf, args) => {
            if *kf == KnownFn::AtomReset && args.len() >= 2 {
                out.push(args[1]);
                assert(out@ =~= old(out)@ + seq![args@[1]]);
            } else if *kf == KnownFn::AtomSwap && args.len() >= 3 {
                let mut i: usize = 2;
                assert(old(out)@ + args@.subrange(2, 2) =~= old(out)@);
                while i < args.len()
                    invariant
                        2 <= i <= args@.len(),
                        out@ == old(out)@ + args@.subrange(2, i as int),
                    decreases args@.len() - i,
                {
                    out.push(args[i]);
                    assert(out@ =~= old(out)@ + args@.subrange(2, i + 1));
                    i += 1;
                }
            } else {
                assert(out@ =~= old(out)@ + Seq::<VarId>::empty());
            }
        },
        _ => {
            assert(out@ =~= old(out)@ + Seq::<VarId>::empty());
        },
    }
}

fn collect_atom_sink_vals_in(insts: &Vec<Inst>, out: &mut Vec<VarId>)
    ensures
        final(out)@ == old(out)@ + atom_sinks_in(insts@, insts@.len() as int),
{
    let mut i: usize = 0;
    assert(old(out)@ + atom_sinks_in(insts@, 0) =~= old(out)@);
    while i < insts.len()
        invariant
            i <= insts@.len(),
            out@ == old(out)@ + atom_sinks_in(insts@, i as int),
        decreases insts@.len() - i,
    {
        collect_atom_sink_vals_of(&insts[i], out);
        assert(out@ =~= old(out)@ + (atom_sinks_in(insts@, i as int) + atom_sink_of(insts@[i as int])));
        i += 1;
    }
}

/// What is stored in atoms.
fn collect_atom_sink_vals(func: &IrFunction) -> (r: Vec<VarId>)
    ensures
        r@ == atom_sinks(func.blocks@, func.blocks@.len() as int),
{
    let mut out: Vec<VarId> = Vec::new();
    let mut b: usize = 0;
    while b < func.blocks.len()
        invariant
            b <= func.blocks@.len(),
            out@ == atom_sinks(func.blocks@, b as int),
        decreases func.blocks@.len() - b,
    {
        let block = &func.blocks[b];
        let ghost before = out@;
        collect_atom_sink_vals_in(&block.insts, &mut out);
        assert(out@ =~= before + atom_sinks_in(block.insts@, block.insts@.len() as int));
        b += 1;
    }
    out
}

/// The inputs of phis, each with its phi.
pub open spec fn edges_in(insts: Seq<Inst>, n: int) -> Seq<(VarId, VarId)>
    decreases n,
{
    if n <= 0 { Seq::empty() } else { edges_in(insts, n - 1) + edges_of(insts[n - 1]) }
}

/// The inputs of phis, each with its phi, in the first `n` blocks.
pub open spec fn edges(blocks: Seq<Block>, n: int) -> Seq<(VarId, VarId)>
    decreases n,
{
    if n <= 0 {
        Seq::empty()
    } else {
        let b = blocks[n - 1];
        edges(blocks, n - 1) + edges_in(b.phis@, b.phis@.len() as int)
    }
}

fn collect_phi_inputs_of(inst: &Inst, out: &mut Vec<(VarId, VarId)>)
    ensures
        final(out)@ == old(out)@ + edges_of(*inst),
{
    match inst {
        Inst::Phi(d, es) => {
            let ghost all = edges_of(*inst);
            let mut i: usize = 0;
            assert(old(out)@ + all.take(0) =~= old(out)@);
            while i < es.len()
                invariant
                    i <= es@.len(),
                    all == Seq::new(es@.len(), |i: int| (*d, es@[i].1)),
                    out@ == old(out)@ + all.take(i as int),
                decreases es@.len() - i,
            {
                out.push((*d, es[i].1));
                assert(out@ =~= old(out)@ + all.take(i + 1));
                i += 1;
            }
            assert(all.take(es@.len() as int) =~= all);
        },
        _ => {
            assert(out@ =~= old(out)@ + Seq::<(VarId, VarId)>::empty());
        },
    }
}

fn collect_phi_inputs_in(insts: &Vec<Inst>, out: &mut Vec<(VarId, VarId)>)
    ensures
        final(out)@ == old(out)@ + edges_in(insts@, insts@.len() as int),
{
    let mut i: usize = 0;
    assert(old(out)@ + edges_in(insts@, 0) =~= old(out)@);
    while i < insts.len()
        invariant
            i <= insts@.len(),
            out@ == old(out)@ + edges_in(insts@, i as int),
        decreases insts@.len() - i,
    {
        collect_phi_inputs_of(&insts[i], out);
        assert(out@ =~= old(out)@ + (edges_in(insts@, i as int) + edges_of(insts@[i as int])));
        i += 1;
    }
}

/// The inputs of phis, each with its phi.
fn collect_phi_inputs(func: &IrFunction) -> (r: Vec<(VarId, VarId)>)
    ensures
        r@ == edges(func.blocks@, func.blocks@.len() as int),
{
    let mut out: Vec<(VarId, VarId)> = Vec::new();
    let mut b: usize = 0;
    while b < func.blocks.len()
        invariant
            b <= func.blocks@.len(),
            out@ == edges(func.blocks@, b as int),
        decreases func.blocks@.len() - b,
    {
        let block = &func.blocks[b];
        let ghost before = out@;
        collect_phi_inputs_in(&block.phis, &mut out);
        assert(out@ =~= before + edges_in(block.phis@, block.phis@.len() as int));
        b += 1;
    }
    out
}

fn is_lazy_producing(kf: KnownFn) -> (r: bool)
    ensures
        r == is_lazy(kf),
{
    match kf {
        KnownFn::LazySeq | KnownFn::MapSeq | KnownFn::Filter | KnownFn::Cons | KnownFn::Rest | KnownFn::Next | KnownFn::Concat | KnownFn::Range1 | KnownFn::Range2 | KnownFn::Range3 | KnownFn::Take | KnownFn::Drop | KnownFn::Keep | KnownFn::Remove => true,
        _ => false,
    }
}

/// A way from phi to input, through the inputs of phis.
pub open spec fn is_path(edges: Seq<(VarId, VarId)>, path: Seq<VarId>) -> bool {
    path.len() > 0 && forall|i: int| 0 <= i < path.len() - 1 ==> edges.contains((#[trigger] path[i], path[i + 1]))
}

/// A way leads from `a` to `b`.
pub open spec fn leads(edges: Seq<(VarId, VarId)>, a: VarId, b: VarId) -> bool {
    exists|path: Seq<VarId>| #[trigger] is_path(edges, path) && path[0] == a && path.last() == b
}

/// `v` is something that was allocated, directly or through phis.
pub open spec fn is_derived(allocs: Seq<VarId>, edges: Seq<(VarId, VarId)>, v: VarId) -> bool {
    exists|a: VarId| allocs.contains(a) && #[trigger] leads(edges, v, a)
}

proof fn leads_step(edges: Seq<(VarId, VarId)>, a: VarId, b: VarId, c: VarId)
    requires
        leads(edges, a, b),
        edges.contains((b, c)),
    ensures
        leads(edges, a, c),
{
    let p = choose|path: Seq<VarId>| #[trigger] is_path(edges, path) && path[0] == a && path.last() == b;
    let q = p.push(c);
    assert forall|i: int| 0 <= i < q.len() - 1 implies edges.contains((#[trigger] q[i], q[i + 1])) by {
        if i < p.len() - 1 {
            assert(edges.contains((p[i], p[i + 1])));
        }
    }
    assert(is_path(edges, q));
}

/// What is closed under the inputs of phis holds every end of a way that starts in it.
proof fn closed_holds(edges: Seq<(VarId, VarId)>, inside: Set<u32>, path: Seq<VarId>, n: int)
    requires
        is_path(edges, path),
        inside.contains(path[0].0),
        forall|x: VarId, y: VarId| inside.contains(x.0) && #[trigger] edges.contains((x, y)) ==> inside.contains(y.0),
        0 <= n < path.len(),
    ensures
        inside.contains(path[n].0),
    decreases n,
{
    if n > 0 {
        closed_holds(edges, inside, path, n - 1);
        assert(edges.contains((path[n - 1], path[n - 1 + 1])));
    }
}

/// The values that phis take, and one more.
spec fn reachable_ids(edges: Seq<(VarId, VarId)>, v: VarId, n: int) -> Set<u32>
    decreases n,
{
    if n <= 0 { Set::empty().insert(v.0) } else { reachable_ids(edges, v, n - 1).insert(edges[n - 1].1.0) }
}

proof fn reachable_ids_finite(edges: Seq<(VarId, VarId)>, v: VarId, n: int)
    requires
        0 <= n <= edges.len(),
    ensures
        reachable_ids(edges, v, n).finite(),
        reachable_ids(edges, v, n).contains(v.0),
        forall|i: int| 0 <= i < n ==> reachable_ids(edges, v, n).contains((#[trigger] edges[i]).1.0),
        n == edges.len() ==> forall|x: VarId, y: VarId| #[trigger] edges.contains((x, y)) ==> reachable_ids(edges, v, n).contains(y.0),
    decreases n,
{
    if n > 0 {
        reachable_ids_finite(edges, v, n - 1);
    }
    if n == edges.len() {
        assert forall|x: VarId, y: VarId| #[trigger] edges.contains((x, y)) implies reachable_ids(edges, v, n).contains(y.0) by {
            let k = choose|k: int| 0 <= k < edges.len() && edges[k] == (x, y);
            assert(edges[k].1.0 == y.0);
        }
    }
}

fn to_set(vs: &Vec<VarId>) -> (r: HashSet<u32>)
    ensures
        forall|x: VarId| #[trigger] r@.contains(x.0) == vs@.contains(x),
{
    let mut out: HashSet<u32> = HashSet::new();
    let mut i: usize = 0;
    while i < vs.len()
        invariant
            i <= vs@.len(),
            forall|x: VarId| #[trigger] out@.contains(x.0) == vs@.take(i as int).contains(x),
        decreases vs@.len() - i,
    {
        let ghost before = out@;
        out.insert(vs[i].0);
        proof {
            let v = vs@[i as int];
            let a = vs@.take(i as int);
            let b = vs@.take(i + 1);
            assert(b =~= a.push(v));
            assert forall|x: VarId| #[trigger] out@.contains(x.0) == b.contains(x) by {
                assert(before.contains(x.0) == a.contains(x));
                if a.contains(x) {
                    let k = choose|k: int| 0 <= k < a.len() && a[k] == x;
                    assert(b[k] == x);
                }
                if b.contains(x) && x != v {
                    let k = choose|k: int| 0 <= k < b.len() && b[k] == x;
                    assert(a[k] == x);
                }
                assert(b[i as int] == v);
                assert(x.0 == v.0 ==> x == v);
            }
        }
        i += 1;
    }
    assert(vs@.take(vs@.len() as int) =~= vs@);
    out
}

/// The inputs of phi `v` go on the stack.
fn push_inputs(v: VarId, edges: &Vec<(VarId, VarId)>, stack: &mut Vec<VarId>)
    ensures
        old(stack)@.len() <= final(stack)@.len(),
        forall|i: int| 0 <= i < old(stack)@.len() ==> #[trigger] final(stack)@[i] == old(stack)@[i],
        forall|i: int| old(stack)@.len() <= i < final(stack)@.len() ==> edges@.contains((v, #[trigger] final(stack)@[i])),
        forall|y: VarId| #[trigger] edges@.contains((v, y)) ==> final(stack)@.contains(y),
{
    let ghost before = stack@;
    let mut j: usize = 0;
    while j < edges.len()
        invariant
            j <= edges@.len(),
            before.len() <= stack@.len(),
            before == old(stack)@,
            forall|i: int| 0 <= i < before.len() ==> #[trigger] stack@[i] == before[i],
            forall|i: int| before.len() <= i < stack@.len() ==> edges@.contains((v, #[trigger] stack@[i])),
            forall|k: int| 0 <= k < j && (#[trigger] edges@[k]).0 == v ==> stack@.contains(edges@[k].1),
        decreases edges@.len() - j,
    {
        if edges[j].0 == v {
            let ghost s0 = stack@;
            stack.push(edges[j].1);
            proof {
                assert(edges@[j as int] == (v, edges@[j as int].1));
                assert(stack@[s0.len() as int] == edges@[j as int].1);
                assert forall|k: int| 0 <= k < j + 1 && (#[trigger] edges@[k]).0 == v implies stack@.contains(edges@[k].1) by {
                    if k < j {
                        let i = choose|i: int| 0 <= i < s0.len() && s0[i] == edges@[k].1;
                        assert(stack@[i] == edges@[k].1);
                    }
                }
            }
        }
        j += 1;
    }
    assert forall|y: VarId| #[trigger] edges@.contains((v, y)) implies stack@.contains(y) by {
        let k = choose|k: int| 0 <= k < edges@.len() && edges@[k] == (v, y);
        assert(edges@[k].0 == v);
    }
}

/// What has been visited is closed, but for what is on the stack.
spec fn almost_closed(edges: Seq<(VarId, VarId)>, visited: Set<u32>, stack: Seq<VarId>) -> bool {
    forall|x: VarId, y: VarId| visited.contains(x.0) && #[trigger] edges.contains((x, y)) ==> visited.contains(y.0) || stack.contains(y)
}

/// A search: all that it has come to, it has come to from `var`, and nothing visited is allocated.
spec fn searching(edges: Seq<(VarId, VarId)>, allocs: Seq<VarId>, var: VarId, visited: Set<u32>, stack: Seq<VarId>) -> bool {
    &&& forall|i: int| 0 <= i < stack.len() ==> leads(edges, var, #[trigger] stack[i])
    &&& forall|x: VarId| #[trigger] visited.contains(x.0) ==> !allocs.contains(x)
    &&& almost_closed(edges, visited, stack)
    &&& visited.contains(var.0) || stack.contains(var)
}

proof fn search_skips(edges: Seq<(VarId, VarId)>, allocs: Seq<VarId>, var: VarId, visited: Set<u32>, stack: Seq<VarId>)
    requires
        searching(edges, allocs, var, visited, stack),
        stack.len() > 0,
        visited.contains(stack.last().0),
    ensures
        searching(edges, allocs, var, visited, stack.drop_last()),
{
    let s1 = stack.drop_last();
    assert forall|x: VarId, y: VarId| visited.contains(x.0) && #[trigger] edges.contains((x, y)) implies visited.contains(y.0) || s1.contains(y) by {
        if !visited.contains(y.0) {
            let k = choose|k: int| 0 <= k < stack.len() && stack[k] == y;
            assert(s1[k] == y);
        }
    }
    if !visited.contains(var.0) {
        let k = choose|k: int| 0 <= k < stack.len() && stack[k] == var;
        assert(s1[k] == var);
    }
}

proof fn search_visits(edges: Seq<(VarId, VarId)>, allocs: Seq<VarId>, var: VarId, visited: Set<u32>, stack: Seq<VarId>, after: Seq<VarId>)
    requires
        searching(edges, allocs, var, visited, stack),
        stack.len() > 0,
        !allocs.contains(stack.last()),
        stack.len() - 1 <= after.len(),
        forall|i: int| 0 <= i < stack.len() - 1 ==> #[trigger] after[i] == stack[i],
        forall|i: int| stack.len() - 1 <= i < after.len() ==> edges.contains((stack.last(), #[trigger] after[i])),
        forall|y: VarId| #[trigger] edges.contains((stack.last(), y)) ==> after.contains(y),
    ensures
        searching(edges, allocs, var, visited.insert(stack.last().0), after),
{
    let v = stack.last();
    let visited1 = visited.insert(v.0);
    assert forall|i: int| 0 <= i < after.len() implies leads(edges, var, #[trigger] after[i]) by {
        if i < stack.len() - 1 {
            assert(leads(edges, var, stack[i]));
        } else {
            assert(leads(edges, var, stack[stack.len() - 1]));
            leads_step(edges, var, v, after[i]);
        }
    }
    assert forall|x: VarId| #[trigger] visited1.contains(x.0) implies !allocs.contains(x) by {
        if x.0 == v.0 {
            assert(x == v);
        }
    }
    assert forall|x: VarId, y: VarId| visited1.contains(x.0) && #[trigger] edges.contains((x, y)) implies visited1.contains(y.0) || after.contains(y) by {
        if x.0 == v.0 {
            assert(x == v);
        } else if !visited1.contains(y.0) {
            let k = choose|k: int| 0 <= k < stack.len() && stack[k] == y;
            assert(k < stack.len() - 1);
            assert(after[k] == y);
        }
    }
    if !visited1.contains(var.0) {
        let k = choose|k: int| 0 <= k < stack.len() && stack[k] == var;
        assert(k < stack.len() - 1);
        assert(after[k] == var);
    }
}

proof fn search_ends(edges: Seq<(VarId, VarId)>, allocs: Seq<VarId>, var: VarId, visited: Set<u32>, stack: Seq<VarId>)
    requires
        searching(edges, allocs, var, visited, stack),
        stack.len() == 0,
    ensures
        !is_derived(allocs, edges, var),
{
    assert forall|a: VarId| allocs.contains(a) && #[trigger] leads(edges, var, a) implies false by {
        let p = choose|path: Seq<VarId>| #[trigger] is_path(edges, path) && path[0] == var && path.last() == a;
        closed_holds(edges, visited, p, p.len() - 1);
        assert(visited.contains(a.0));
    }
}

proof fn search_starts(edges: Seq<(VarId, VarId)>, allocs: Seq<VarId>, var: VarId)
    ensures
        searching(edges, allocs, var, Set::empty(), seq![var]),
{
    let p = seq![var];
    assert(is_path(edges, p));
    assert(p[0] == var && p.last() == var);
    assert(leads(edges, var, var));
    assert(p.contains(var));
}

/// Whether `var` is something that was allocated, directly or through phis.
fn is_alloc_derived(var: VarId, alloc_set: &HashSet<u32>, allocs: &Vec<VarId>, edges: &Vec<(VarId, VarId)>) -> (r: bool)
    requires
        forall|x: VarId| #[trigger] alloc_set@.contains(x.0) == allocs@.contains(x),
    ensures
        r == is_derived(allocs@, edges@, var),
{
    let ghost all = reachable_ids(edges@, var, edges@.len() as int);
    proof {
        reachable_ids_finite(edges@, var, edges@.len() as int);
        search_starts(edges@, allocs@, var);
    }
    let mut visited: HashSet<u32> = HashSet::new();
    let mut stack: Vec<VarId> = Vec::new();
    stack.push(var);
    assert(stack@ =~= seq![var]);
    while stack.len() > 0
        invariant
            forall|x: VarId| #[trigger] alloc_set@.contains(x.0) == allocs@.contains(x),
            all.finite(),
            forall|x: VarId, y: VarId| #[trigger] edges@.contains((x, y)) ==> all.contains(y.0),
            visited@.subset_of(all),
            forall|i: int| 0 <= i < stack@.len() ==> all.contains((#[trigger] stack@[i]).0),
            searching(edges@, allocs@, var, visited@, stack@),
        decreases all.len() - visited@.len(), stack@.len(),
    {
        let ghost stack0 = stack@;
        let ghost visited0 = visited@;
        proof {
            vstd::set_lib::lemma_len_subset(visited0, all);
            assert(all.contains(stack0[stack0.len() - 1].0));
        }
        let v = stack.pop().unwrap();
        assert(stack@ =~= stack0.drop_last());
        if visited.contains(&v.0) {
            proof {
                search_skips(edges@, allocs@, var, visited0, stack0);
            }
            continue;
        }
        visited.insert(v.0);
        if alloc_set.contains(&v.0) {
            assert(leads(edges@, var, stack0[stack0.len() - 1]));
            assert(allocs@.contains(v));
            return true;
        }
        push_inputs(v, edges, &mut stack);
        proof {
            search_visits(edges@, allocs@, var, visited0, stack0, stack@);
            vstd::set_lib::lemma_len_subset(visited@, all);
            assert forall|i: int| 0 <= i < stack@.len() implies all.contains((#[trigger] stack@[i]).0) by {
                if i < stack0.len() - 1 {
                    assert(all.contains(stack0[i].0));
                }
            }
        }
    }
    proof {
        search_ends(edges@, allocs@, var, visited@, stack@);
    }
    false
}

/// How often `v` stands in a list.
pub open spec fn count_in(vs: Seq<VarId>, v: VarId, n: int) -> nat
    decreases n,
{
    if n <= 0 { 0 } else { count_in(vs, v, n - 1) + (if vs[n - 1] == v { 1nat } else { 0nat }) }
}

pub open spec fn one_if(b: bool) -> nat {
    if b { 1 } else { 0 }
}

/// How often `v` stands in a list of pairs.
pub open spec fn count_pairs(ps: Seq<(VarId, VarId)>, v: VarId, n: int) -> nat
    decreases n,
{
    if n <= 0 { 0 } else { count_pairs(ps, v, n - 1) + (one_if(ps[n - 1].0 == v) + one_if(ps[n - 1].1 == v)) }
}

/// How many entries of a phi are `v`.
pub open spec fn count_entries(es: Seq<(ir::BlockId, VarId)>, v: VarId, n: int) -> nat
    decreases n,
{
    if n <= 0 { 0 } else { count_entries(es, v, n - 1) + one_if(es[n - 1].1 == v) }
}

/// How often an instruction uses `v`.
pub open spec fn uses_in_inst(inst: Inst, v: VarId) -> nat {
    match inst {
        Inst::CallKnown(_, _, args) => count_in(args@, v, args@.len() as int),
        Inst::Call(_, callee, args) => one_if(callee == v) + count_in(args@, v, args@.len() as int),
        Inst::CallDirect(_, _, args) => count_in(args@, v, args@.len() as int),
        Inst::AllocVector(_, elems) => count_in(elems@, v, elems@.len() as int),
        Inst::AllocSet(_, elems) => count_in(elems@, v, elems@.len() as int),
        Inst::AllocList(_, elems) => count_in(elems@, v, elems@.len() as int),
        Inst::AllocMap(_, pairs) => count_pairs(pairs@, v, pairs@.len() as int),
        Inst::AllocCons(_, head, tail) => one_if(head == v) + one_if(tail == v),
        Inst::AllocClosure(_, _, captures) => count_in(captures@, v, captures@.len() as int),
        Inst::DefVar(_, _, _, val) => one_if(val == v),
        Inst::SetBang(var, val) => one_if(var == v) + one_if(val == v),
        Inst::Phi(_, entries) => count_entries(entries@, v, entries@.len() as int),
        Inst::Deref(_, src) => one_if(src == v),
        Inst::Throw(val) => one_if(val == v),
        Inst::Recur(args) => count_in(args@, v, args@.len() as int),
        Inst::RegionAlloc(_, region, _, operands) => one_if(region == v) + count_in(operands@, v, operands@.len() as int),
        Inst::RegionEnd(region) => one_if(region == v),
        Inst::CallWithRegion(_, _, args, region) => one_if(region == v) + count_in(args@, v, args@.len() as int),
        Inst::Await { value, .. } => one_if(value == v),
        Inst::Spawn { body, .. } => one_if(body == v),
        Inst::ChanTake { chan, .. } => one_if(chan == v),
        Inst::ChanPut { chan, value, .. } => one_if(chan == v) + one_if(value == v),
        _ => 0,
    }
}

/// How often a terminator uses `v`.
pub open spec fn uses_in_terminator(t: Terminator, v: VarId) -> nat {
    match t {
        Terminator::Return(x) => one_if(x == v),
        Terminator::Branch { cond, .. } => one_if(cond == v),
        Terminator::RecurJump { args, .. } => count_in(args@, v, args@.len() as int),
        _ => 0,
    }
}

/// How often the first `n` instructions use `v`.
pub open spec fn uses_in(insts: Seq<Inst>, v: VarId, n: int) -> nat
    decreases n,
{
    if n <= 0 { 0 } else { uses_in(insts, v, n - 1) + uses_in_inst(insts[n - 1], v) }
}

/// How often the first `n` blocks use `v`.
pub open spec fn count_uses(blocks: Seq<Block>, v: VarId, n: int) -> nat
    decreases n,
{
    if n <= 0 {
        0
    } else {
        let b = blocks[n - 1];
        count_uses(blocks, v, n - 1) + uses_in(b.phis@, v, b.phis@.len() as int) + uses_in(b.insts@, v, b.insts@.len() as int) + uses_in_terminator(b.terminator, v)
    }
}

/// A count, as far as it says whether there is more than one.
pub open spec fn capped(n: nat) -> u8 {
    if n >= 2 { 2 } else { n as u8 }
}

fn plus(a: u8, b: u8, Ghost(m): Ghost<nat>, Ghost(n): Ghost<nat>) -> (r: u8)
    requires
        a == capped(m),
        b == capped(n),
    ensures
        r == capped(m + n),
{
    if a + b >= 2 {
        2
    } else {
        a + b
    }
}

fn one(b: bool) -> (r: u8)
    ensures
        r == capped(one_if(b)),
{
    if b {
        1
    } else {
        0
    }
}

fn both(a: VarId, b: VarId, v: VarId) -> (r: u8)
    ensures
        r == capped(one_if(a == v) + one_if(b == v)),
{
    plus(one(a == v), one(b == v), Ghost(one_if(a == v)), Ghost(one_if(b == v)))
}

fn tally(vs: &Vec<VarId>, v: VarId) -> (r: u8)
    ensures
        r == capped(count_in(vs@, v, vs@.len() as int)),
{
    let mut n: u8 = 0;
    let mut i: usize = 0;
    while i < vs.len()
        invariant
            i <= vs@.len(),
            n == capped(count_in(vs@, v, i as int)),
        decreases vs@.len() - i,
    {
        let here: u8 = one(vs[i] == v);
        n = plus(n, here, Ghost(count_in(vs@, v, i as int)), Ghost(one_if(vs@[i as int] == v)));
        i += 1;
    }
    n
}

fn tally_pairs(vs: &Vec<(VarId, VarId)>, v: VarId) -> (r: u8)
    ensures
        r == capped(count_pairs(vs@, v, vs@.len() as int)),
{
    let mut n: u8 = 0;
    let mut i: usize = 0;
    while i < vs.len()
        invariant
            i <= vs@.len(),
            n == capped(count_pairs(vs@, v, i as int)),
        decreases vs@.len() - i,
    {
        let here: u8 = both(vs[i].0, vs[i].1, v);
        n = plus(n, here, Ghost(count_pairs(vs@, v, i as int)), Ghost(one_if(vs@[i as int].0 == v) + one_if(vs@[i as int].1 == v)));
        i += 1;
    }
    n
}

fn tally_entries(vs: &Vec<(ir::BlockId, VarId)>, v: VarId) -> (r: u8)
    ensures
        r == capped(count_entries(vs@, v, vs@.len() as int)),
{
    let mut n: u8 = 0;
    let mut i: usize = 0;
    while i < vs.len()
        invariant
            i <= vs@.len(),
            n == capped(count_entries(vs@, v, i as int)),
        decreases vs@.len() - i,
    {
        let here: u8 = one(vs[i].1 == v);
        n = plus(n, here, Ghost(count_entries(vs@, v, i as int)), Ghost(one_if(vs@[i as int].1 == v)));
        i += 1;
    }
    n
}

fn inst_uses(inst: &Inst, v: VarId) -> (r: u8)
    ensures
        r == capped(uses_in_inst(*inst, v)),
{
    match inst {
        Inst::CallKnown(_, _, args) => tally(args, v),
        Inst::Call(_, callee, args) => plus(one(*callee == v), tally(args, v), Ghost(one_if(*callee == v)), Ghost(count_in(args@, v, args@.len() as int))),
        Inst::CallDirect(_, _, args) => tally(args, v),
        Inst::AllocVector(_, elems) => tally(elems, v),
        Inst::AllocSet(_, elems) => tally(elems, v),
        Inst::AllocList(_, elems) => tally(elems, v),
        Inst::AllocMap(_, pairs) => tally_pairs(pairs, v),
        Inst::AllocCons(_, head, tail) => both(*head, *tail, v),
        Inst::AllocClosure(_, _, captures) => tally(captures, v),
        Inst::DefVar(_, _, _, val) => one(*val == v),
        Inst::SetBang(var, val) => both(*var, *val, v),
        Inst::Phi(_, entries) => tally_entries(entries, v),
        Inst::Deref(_, src) => one(*src == v),
        Inst::Throw(val) => one(*val == v),
        Inst::Recur(args) => tally(args, v),
        Inst::RegionAlloc(_, region, _, operands) => plus(one(*region == v), tally(operands, v), Ghost(one_if(*region == v)), Ghost(count_in(operands@, v, operands@.len() as int))),
        Inst::RegionEnd(region) => one(*region == v),
        Inst::CallWithRegion(_, _, args, region) => plus(one(*region == v), tally(args, v), Ghost(one_if(*region == v)), Ghost(count_in(args@, v, args@.len() as int))),
        Inst::Await { value, .. } => one(*value == v),
        Inst::Spawn { body, .. } => one(*body == v),
        Inst::ChanTake { chan, .. } => one(*chan == v),
        Inst::ChanPut { chan, value, .. } => both(*chan, *value, v),
        _ => 0,
    }
}

fn terminator_uses(t: &Terminator, v: VarId) -> (r: u8)
    ensures
        r == capped(uses_in_terminator(*t, v)),
{
    match t {
        Terminator::Return(x) => one(*x == v),
        Terminator::Branch { cond, .. } => one(*cond == v),
        Terminator::RecurJump { args, .. } => tally(args, v),
        _ => 0,
    }
}

fn list_uses(insts: &Vec<Inst>, v: VarId) -> (r: u8)
    ensures
        r == capped(uses_in(insts@, v, insts@.len() as int)),
{
    let mut n: u8 = 0;
    let mut i: usize = 0;
    while i < insts.len()
        invariant
            i <= insts@.len(),
            n == capped(uses_in(insts@, v, i as int)),
        decreases insts@.len() - i,
    {
        n = plus(n, inst_uses(&insts[i], v), Ghost(uses_in(insts@, v, i as int)), Ghost(uses_in_inst(insts@[i as int], v)));
        i += 1;
    }
    n
}

/// Whether the function uses `v` more than once.
fn used_again(func: &IrFunction, v: VarId) -> (r: bool)
    ensures
        r == (count_uses(func.blocks@, v, func.blocks@.len() as int) > 1),
{
    let mut n: u8 = 0;
    let mut b: usize = 0;
    while b < func.blocks.len()
        invariant
            b <= func.blocks@.len(),
            n == capped(count_uses(func.blocks@, v, b as int)),
        decreases func.blocks@.len() - b,
    {
        let block = &func.blocks[b];
        let ghost c0 = count_uses(func.blocks@, v, b as int);
        let ghost c1 = uses_in(block.phis@, v, block.phis@.len() as int);
        let ghost c2 = uses_in(block.insts@, v, block.insts@.len() as int);
        let ghost c3 = uses_in_terminator(block.terminator, v);
        n = plus(n, list_uses(&block.phis, v), Ghost(c0), Ghost(c1));
        n = plus(n, list_uses(&block.insts, v), Ghost(c0 + c1), Ghost(c2));
        n = plus(n, terminator_uses(&block.terminator, v), Ghost(c0 + c1 + c2), Ghost(c3));
        b += 1;
    }
    n == 2
}

/// Everything that a function allocates.
pub open spec fn all_allocs(func: IrFunction) -> Seq<VarId> {
    allocs(func.blocks@, func.blocks@.len() as int)
}

/// Every input of a phi, with its phi.
pub open spec fn all_edges(func: IrFunction) -> Seq<(VarId, VarId)> {
    edges(func.blocks@, func.blocks@.len() as int)
}

/// Everything that a function stores where it outlives the function.
pub open spec fn all_sinks(func: IrFunction) -> Seq<VarId> {
    static_sinks(func.blocks@, func.blocks@.len() as int) + atom_sinks(func.blocks@, func.blocks@.len() as int)
}

/// `v` was allocated by the function.
pub open spec fn is_own(func: IrFunction, v: VarId) -> bool {
    is_derived(all_allocs(func), all_edges(func), v)
}

/// A lazy sequence that the function has another use for.
pub open spec fn is_reused_lazy(func: IrFunction, v: VarId) -> bool {
    lazies(func.blocks@, func.blocks@.len() as int).contains(v) && count_uses(func.blocks@, v, func.blocks@.len() as int) > 1
}

pub open spec fn is_closure(func: IrFunction, v: VarId) -> bool {
    closures(func.blocks@, func.blocks@.len() as int).contains(v)
}

/// The returns of the first `n` blocks that hand out something of the function's own.
pub open spec fn bad_returns(func: IrFunction, n: int) -> Seq<ViolationView>
    decreases n,
{
    if n <= 0 {
        Seq::empty()
    } else {
        let rest = bad_returns(func, n - 1);
        match func.blocks@[n - 1].terminator {
            Terminator::Return(v) => if is_own(func, v) { rest.push(ViolationView::InteriorPointerReturn(ir::text_opt(func.name), v)) } else { rest },
            _ => rest,
        }
    }
}

/// The first `n` stores of something of the function's own.
pub open spec fn bad_stores(func: IrFunction, n: int) -> Seq<ViolationView>
    decreases n,
{
    if n <= 0 {
        Seq::empty()
    } else {
        let rest = bad_stores(func, n - 1);
        let v = all_sinks(func)[n - 1];
        if is_own(func, v) { rest.push(ViolationView::RegionToStaticStore(ir::text_opt(func.name), v)) } else { rest }
    }
}

/// The returns of the first `n` blocks that let a lazy sequence out.
pub open spec fn bad_lazies(func: IrFunction, n: int) -> Seq<ViolationView>
    decreases n,
{
    if n <= 0 {
        Seq::empty()
    } else {
        let rest = bad_lazies(func, n - 1);
        match func.blocks@[n - 1].terminator {
            Terminator::Return(v) => if is_reused_lazy(func, v) { rest.push(ViolationView::LazySeqEscape(ir::text_opt(func.name), v)) } else { rest },
            _ => rest,
        }
    }
}

/// The first `n` stores of closures.
pub open spec fn bad_closures(func: IrFunction, n: int) -> Seq<ViolationView>
    decreases n,
{
    if n <= 0 {
        Seq::empty()
    } else {
        let rest = bad_closures(func, n - 1);
        let v = all_sinks(func)[n - 1];
        if is_closure(func, v) { rest.push(ViolationView::EscapingClosure(ir::text_opt(func.name), v)) } else { rest }
    }
}

/// What is wrong with a function, apart from those inside it.
pub open spec fn violations(func: IrFunction) -> Seq<ViolationView> {
    bad_returns(func, func.blocks@.len() as int) + bad_stores(func, all_sinks(func).len() as int)
        + bad_lazies(func, func.blocks@.len() as int) + bad_closures(func, all_sinks(func).len() as int)
}

/// What is wrong with a function and with those inside it.
pub open spec fn all_violations(func: IrFunction) -> Seq<ViolationView>
    decreases func,
{
    violations(func) + inner_violations(func.subfunctions@)
}

/// What is wrong with functions and with those inside them.
pub open spec fn inner_violations(funcs: Seq<IrFunction>) -> Seq<ViolationView>
    decreases funcs,
{
    if funcs.len() == 0 { Seq::empty() } else { inner_violations(funcs.drop_last()) + all_violations(funcs.last()) }
}

proof fn view_push(vs: Seq<BlacklistViolation>, v: BlacklistViolation)
    ensures
        violations_view(vs.push(v)) == violations_view(vs).push(v@),
{
    assert(violations_view(vs.push(v)) =~= violations_view(vs).push(v@));
}

fn copy_name(name: &Option<String>) -> (r: Option<String>)
    ensures
        ir::text_opt(r) == ir::text_opt(*name),
{
    match name {
        Some(n) => Some(n.clone()),
        None => None,
    }
}

/// Checks a function, apart from those inside it.
pub fn check_function(func: &IrFunction) -> (r: Vec<BlacklistViolation>)
    ensures
        violations_view(r@) == violations(*func),
{
    let allocs = collect_alloc_vars(func);
    let alloc_set = to_set(&allocs);
    let edges = collect_phi_inputs(func);
    let mut sinks = collect_static_sink_vals(func);
    let mut atoms = collect_atom_sink_vals(func);
    sinks.append(&mut atoms);
    assert(sinks@ =~= all_sinks(*func));
    let lazies = collect_lazy_vars(func);
    let lazy_set = to_set(&lazies);
    let closures = collect_closure_vars(func);
    let closure_set = to_set(&closures);
    let mut out: Vec<BlacklistViolation> = Vec::new();
    assert(violations_view(out@) =~= Seq::empty());

    let mut b: usize = 0;
    while b < func.blocks.len()
        invariant
            b <= func.blocks@.len(),
            allocs@ == all_allocs(*func),
            edges@ == all_edges(*func),
            forall|x: VarId| #[trigger] alloc_set@.contains(x.0) == allocs@.contains(x),
            violations_view(out@) == bad_returns(*func, b as int),
        decreases func.blocks@.len() - b,
    {
        if let Terminator::Return(v) = &func.blocks[b].terminator {
            if is_alloc_derived(*v, &alloc_set, &allocs, &edges) {
                let found = BlacklistViolation::InteriorPointerReturn { function: copy_name(&func.name), var: *v };
                proof {
                    view_push(out@, found);
                }
                out.push(found);
            }
        }
        b += 1;
    }

    let ghost part1 = violations_view(out@);
    assert(part1 + bad_stores(*func, 0) =~= part1);
    let mut i: usize = 0;
    while i < sinks.len()
        invariant
            i <= sinks@.len(),
            sinks@ == all_sinks(*func),
            allocs@ == all_allocs(*func),
            edges@ == all_edges(*func),
            forall|x: VarId| #[trigger] alloc_set@.contains(x.0) == allocs@.contains(x),
            violations_view(out@) == part1 + bad_stores(*func, i as int),
        decreases sinks@.len() - i,
    {
        if is_alloc_derived(sinks[i], &alloc_set, &allocs, &edges) {
            let found = BlacklistViolation::RegionToStaticStore { function: copy_name(&func.name), var: sinks[i] };
            proof {
                view_push(out@, found);
                assert((part1 + bad_stores(*func, i as int)).push(found@) =~= part1 + bad_stores(*func, i as int).push(found@));
            }
            out.push(found);
        }
        i += 1;
    }

    let ghost part2 = violations_view(out@);
    assert(part2 + bad_lazies(*func, 0) =~= part2);
    let mut b: usize = 0;
    while b < func.blocks.len()
        invariant
            b <= func.blocks@.len(),
            lazies@ == crate::escape::lazies(func.blocks@, func.blocks@.len() as int),
            forall|x: VarId| #[trigger] lazy_set@.contains(x.0) == lazies@.contains(x),
            violations_view(out@) == part2 + bad_lazies(*func, b as int),
        decreases func.blocks@.len() - b,
    {
        if let Terminator::Return(v) = &func.blocks[b].terminator {
            if lazy_set.contains(&v.0) && used_again(func, *v) {
                let found = BlacklistViolation::LazySeqEscape { function: copy_name(&func.name), var: *v };
                proof {
                    view_push(out@, found);
                    assert((part2 + bad_lazies(*func, b as int)).push(found@) =~= part2 + bad_lazies(*func, b as int).push(found@));
                }
                out.push(found);
            }
        }
        b += 1;
    }

    let ghost part3 = violations_view(out@);
    assert(part3 + bad_closures(*func, 0) =~= part3);
    let mut i: usize = 0;
    while i < sinks.len()
        invariant
            i <= sinks@.len(),
            sinks@ == all_sinks(*func),
            closures@ == crate::escape::closures(func.blocks@, func.blocks@.len() as int),
            forall|x: VarId| #[trigger] closure_set@.contains(x.0) == closures@.contains(x),
            violations_view(out@) == part3 + bad_closures(*func, i as int),
        decreases sinks@.len() - i,
    {
        if closure_set.contains(&sinks[i].0) {
            let found = BlacklistViolation::EscapingClosure { function: copy_name(&func.name), var: sinks[i] };
            proof {
                view_push(out@, found);
                assert((part3 + bad_closures(*func, i as int)).push(found@) =~= part3 + bad_closures(*func, i as int).push(found@));
            }
            out.push(found);
        }
        i += 1;
    }
    out
}

/// Checks a function and those inside it.
pub fn check(func: &IrFunction) -> (r: Vec<BlacklistViolation>)
    ensures
        violations_view(r@) == all_violations(*func),
    decreases func, 0nat,
{
    let mut out = check_function(func);
    let n: usize = func.subfunctions.len();
    assert(func.subfunctions@.take(n as int) =~= func.subfunctions@);
    let mut inner = check_first(&func.subfunctions, n);
    let ghost a = out@;
    let ghost b = inner@;
    out.append(&mut inner);
    assert(violations_view(out@) =~= violations_view(a) + violations_view(b));
    out
}

/// Checks the first `n` functions and those inside them.
fn check_first(funcs: &Vec<IrFunction>, n: usize) -> (r: Vec<BlacklistViolation>)
    requires
        n <= funcs@.len(),
    ensures
        violations_view(r@) == inner_violations(funcs@.take(n as int)),
    decreases funcs@, n,
{
    if n == 0 {
        let none: Vec<BlacklistViolation> = Vec::new();
        assert(violations_view(none@) =~= inner_violations(funcs@.take(0)));
        return none;
    }
    let mut out = check_first(funcs, n - 1);
    let mut inner = check(&funcs[n - 1]);
    let ghost a = out@;
    let ghost b = inner@;
    assert(funcs@.take(n as int).drop_last() =~= funcs@.take(n - 1));
    out.append(&mut inner);
    assert(violations_view(out@) =~= violations_view(a) + violations_view(b));
    out
}

/// A function that returns or stores nothing of its own is not blamed for either, whatever phis
/// the value goes through: where no way leads to an allocation, nothing is reported.
pub proof fn nothing_allocated_nothing_dangles(func: IrFunction, n: int, m: int)
    requires
        all_allocs(func).len() == 0,
    ensures
        bad_returns(func, n).len() == 0,
        bad_stores(func, m).len() == 0,
    decreases n, m,
{
    if n > 0 {
        nothing_allocated_nothing_dangles(func, n - 1, 0);
    }
    if m > 0 {
        nothing_allocated_nothing_dangles(func, n, m - 1);
    }
}

/// What a value is an input of is as bad as the value: a phi with an input of the function's own is
/// of the function's own.
pub proof fn phi_of_own_is_own(func: IrFunction, phi: VarId, input: VarId)
    requires
        all_edges(func).contains((phi, input)),
        is_own(func, input),
    ensures
        is_own(func, phi),
{
    let es = all_edges(func);
    let a = choose|a: VarId| all_allocs(func).contains(a) && #[trigger] leads(es, input, a);
    let p = choose|path: Seq<VarId>| #[trigger] is_path(es, path) && path[0] == input && path.last() == a;
    let q = seq![phi] + p;
    assert forall|i: int| 0 <= i < q.len() - 1 implies es.contains((#[trigger] q[i], q[i + 1])) by {
        if i > 0 {
            assert(es.contains((p[i - 1], p[i - 1 + 1])));
        }
    }
    assert(is_path(es, q));
    assert(q[0] == phi && q.last() == a);
    assert(leads(es, phi, a));
}

} // verus!
