//! Passes over a compilation unit: calls of functions that the unit defines become direct calls,
//! and allocations are tallied.
use crate::ir;
use crate::ir::{
    BlockView, FunctionView, Inst, InstView, IrFunction, TemplateView, ClosureTemplate, VarId,
};
use crate::text::same;
use vstd::prelude::*;
use vstd::string::*;

verus! {

/// A compiled arity of a function.
#[derive(Debug)]
pub struct ArityInfo {
    pub fn_name: String,
    pub param_count: usize,
    pub is_variadic: bool,
}

/// A compiled arity of a function.
pub struct ArityView {
    pub fn_name: Seq<char>,
    pub param_count: usize,
    pub is_variadic: bool,
}

impl View for ArityInfo {
    type V = ArityView;

    open spec fn view(&self) -> ArityView {
        ArityView { fn_name: self.fn_name@, param_count: self.param_count, is_variadic: self.is_variadic }
    }
}

pub open spec fn arities_view(arities: Seq<ArityInfo>) -> Seq<ArityView> {
    arities.map_values(|a: ArityInfo| a@)
}

/// A function that a unit defines, with its arities.
#[derive(Debug)]
pub struct Defn {
    pub ns: String,
    pub name: String,
    pub arities: Vec<ArityInfo>,
}

/// A function that a unit defines, with its arities.
pub struct DefnView {
    pub ns: Seq<char>,
    pub name: Seq<char>,
    pub arities: Seq<ArityView>,
}

impl View for Defn {
    type V = DefnView;

    open spec fn view(&self) -> DefnView {
        DefnView { ns: self.ns@, name: self.name@, arities: arities_view(self.arities@) }
    }
}

pub open spec fn defns_view(defns: Seq<Defn>) -> Seq<DefnView> {
    defns.map_values(|d: Defn| d@)
}

pub open spec fn min3(a: nat, b: nat, c: nat) -> nat {
    if a <= b && a <= c { a } else if b <= c { b } else { c }
}

/// The arities of a closure template.
pub open spec fn template_arities(t: TemplateView) -> Seq<ArityView> {
    Seq::new(
        min3(t.arity_fn_names.len(), t.param_counts.len(), t.is_variadic.len()),
        |i: int| ArityView { fn_name: t.arity_fn_names[i], param_count: t.param_counts[i], is_variadic: t.is_variadic[i] },
    )
}

/// The arities of the closure that `v` was last bound to, among the first `n`.
pub open spec fn closure_of(closures: Seq<(VarId, Seq<ArityView>)>, v: VarId, n: int) -> Option<Seq<ArityView>>
    decreases n,
{
    if n <= 0 {
        None
    } else if closures[n - 1].0 == v {
        Some(closures[n - 1].1)
    } else {
        closure_of(closures, v, n - 1)
    }
}

/// What a scan for definitions has come to: the closures without captures so far, and the
/// functions that were defined as one of them.
pub struct Scan {
    pub closures: Seq<(VarId, Seq<ArityView>)>,
    pub defns: Seq<DefnView>,
}

pub open spec fn scan_inst(s: Scan, inst: InstView) -> Scan {
    match inst {
        InstView::AllocClosure(d, t, captures) => if captures.len() == 0 {
            Scan { closures: s.closures.push((d, template_arities(t))), ..s }
        } else {
            s
        },
        InstView::DefVar(_, ns, name, v) => match closure_of(s.closures, v, s.closures.len() as int) {
            Some(arities) => Scan { defns: s.defns.push(DefnView { ns, name, arities }), ..s },
            None => s,
        },
        _ => s,
    }
}

pub open spec fn scan_insts(s: Scan, insts: Seq<InstView>, n: int) -> Scan
    decreases n,
{
    if n <= 0 { s } else { scan_inst(scan_insts(s, insts, n - 1), insts[n - 1]) }
}

pub open spec fn scan_blocks(s: Scan, blocks: Seq<BlockView>, n: int) -> Scan
    decreases n,
{
    if n <= 0 {
        s
    } else {
        let insts = blocks[n - 1].insts;
        scan_insts(scan_blocks(s, blocks, n - 1), insts, insts.len() as int)
    }
}

/// The functions that a function defines at its top level, in the order of their definitions.
pub open spec fn defns_of(blocks: Seq<BlockView>) -> Seq<DefnView> {
    scan_blocks(Scan { closures: Seq::empty(), defns: Seq::empty() }, blocks, blocks.len() as int).defns
}

/// The arities that a name was last defined with, among the first `n` definitions.
pub open spec fn defined(defns: Seq<DefnView>, ns: Seq<char>, name: Seq<char>, n: int) -> Option<Seq<ArityView>>
    decreases n,
{
    if n <= 0 {
        None
    } else if defns[n - 1].ns == ns && defns[n - 1].name == name {
        Some(defns[n - 1].arities)
    } else {
        defined(defns, ns, name, n - 1)
    }
}

/// The first arity from `i` on that takes exactly `count` arguments.
pub open spec fn matching_arity(arities: Seq<ArityView>, count: nat, i: int) -> Option<ArityView>
    decreases arities.len() - i,
{
    if i < 0 || i >= arities.len() {
        None
    } else if !arities[i].is_variadic && arities[i].param_count == count {
        Some(arities[i])
    } else {
        matching_arity(arities, count, i + 1)
    }
}

/// The loads of names that are defined, among the first `n` instructions, behind `done`.
pub open spec fn loads_in(defns: Seq<DefnView>, insts: Seq<InstView>, n: int, done: Seq<(VarId, Seq<ArityView>)>) -> Seq<(VarId, Seq<ArityView>)>
    decreases n,
{
    if n <= 0 {
        done
    } else {
        let rest = loads_in(defns, insts, n - 1, done);
        match insts[n - 1] {
            InstView::LoadGlobal(d, ns, name) => match defined(defns, ns, name, defns.len() as int) {
                Some(arities) => rest.push((d, arities)),
                None => rest,
            },
            _ => rest,
        }
    }
}

/// The loads of names that are defined, in the first `n` blocks.
pub open spec fn loads(defns: Seq<DefnView>, blocks: Seq<BlockView>, n: int) -> Seq<(VarId, Seq<ArityView>)>
    decreases n,
{
    if n <= 0 {
        Seq::empty()
    } else {
        let insts = blocks[n - 1].insts;
        loads_in(defns, insts, insts.len() as int, loads(defns, blocks, n - 1))
    }
}

/// The direct call that takes the place of a call, if one does.
pub open spec fn direct(targets: Seq<(VarId, Seq<ArityView>)>, inst: InstView) -> Option<InstView> {
    match inst {
        InstView::Call(d, callee, args) => match closure_of(targets, callee, targets.len() as int) {
            Some(arities) => match matching_arity(arities, args.len(), 0) {
                Some(a) => Some(InstView::CallDirect(d, a.fn_name, args)),
                None => None,
            },
            None => None,
        },
        _ => None,
    }
}

/// An instruction with its call made direct, where that can be.
pub open spec fn rewritten(targets: Seq<(VarId, Seq<ArityView>)>, inst: InstView) -> InstView {
    match direct(targets, inst) {
        Some(call) => call,
        None => inst,
    }
}

pub open spec fn rewritten_block(targets: Seq<(VarId, Seq<ArityView>)>, b: BlockView) -> BlockView {
    BlockView { insts: b.insts.map_values(|i: InstView| rewritten(targets, i)), ..b }
}

pub open spec fn rewritten_blocks(targets: Seq<(VarId, Seq<ArityView>)>, blocks: Seq<BlockView>) -> Seq<BlockView> {
    blocks.map_values(|b: BlockView| rewritten_block(targets, b))
}

/// How many of the first `n` instructions are rewritten.
pub open spec fn hits_in(targets: Seq<(VarId, Seq<ArityView>)>, insts: Seq<InstView>, n: int) -> nat
    decreases n,
{
    if n <= 0 { 0 } else { hits_in(targets, insts, n - 1) + (if direct(targets, insts[n - 1]) is Some { 1nat } else { 0nat }) }
}

/// How many instructions of the first `n` blocks are rewritten.
pub open spec fn hits(targets: Seq<(VarId, Seq<ArityView>)>, blocks: Seq<BlockView>, n: int) -> nat
    decreases n,
{
    if n <= 0 { 0 } else { hits(targets, blocks, n - 1) + hits_in(targets, blocks[n - 1].insts, blocks[n - 1].insts.len() as int) }
}

/// A count, as far as 64 bits hold it.
pub open spec fn clamped(n: nat) -> u64 {
    if n <= u64::MAX { n as u64 } else { u64::MAX }
}

/// The arities of a closure template.
fn arities_of(t: &ClosureTemplate) -> (r: Vec<ArityInfo>)
    ensures
        arities_view(r@) == template_arities(t@),
{
    let mut out: Vec<ArityInfo> = Vec::new();
    let mut i: usize = 0;
    while i < t.arity_fn_names.len() && i < t.param_counts.len() && i < t.is_variadic.len()
        invariant
            i <= min3(t@.arity_fn_names.len(), t@.param_counts.len(), t@.is_variadic.len()),
            out@.len() == i,
            forall|k: int| 0 <= k < i ==> (#[trigger] out@[k])@ == template_arities(t@)[k],
        decreases t.arity_fn_names@.len() - i,
    {
        out.push(ArityInfo { fn_name: t.arity_fn_names[i].clone(), param_count: t.param_counts[i], is_variadic: t.is_variadic[i] });
        i += 1;
    }
    assert(arities_view(out@) =~= template_arities(t@));
    out
}

fn copy_arities(a: &Vec<ArityInfo>) -> (r: Vec<ArityInfo>)
    ensures
        arities_view(r@) == arities_view(a@),
{
    let mut out: Vec<ArityInfo> = Vec::new();
    let mut i: usize = 0;
    while i < a.len()
        invariant
            i <= a@.len(),
            out@.len() == i,
            forall|k: int| 0 <= k < i ==> (#[trigger] out@[k])@ == a@[k]@,
        decreases a@.len() - i,
    {
        out.push(ArityInfo { fn_name: a[i].fn_name.clone(), param_count: a[i].param_count, is_variadic: a[i].is_variadic });
        i += 1;
    }
    assert(arities_view(out@) =~= arities_view(a@));
    out
}

pub open spec fn closures_view(cs: Seq<(VarId, Vec<ArityInfo>)>) -> Seq<(VarId, Seq<ArityView>)> {
    cs.map_values(|c: (VarId, Vec<ArityInfo>)| (c.0, arities_view(c.1@)))
}

/// The arities that `v` was last bound to.
fn find_closure<'a>(closures: &'a Vec<(VarId, Vec<ArityInfo>)>, v: VarId) -> (r: Option<&'a Vec<ArityInfo>>)
    ensures
        match r {
            Some(a) => closure_of(closures_view(closures@), v, closures@.len() as int) == Some(arities_view(a@)),
            None => closure_of(closures_view(closures@), v, closures@.len() as int) is None,
        },
{
    let mut n: usize = closures.len();
    while n > 0
        invariant
            n <= closures@.len(),
            closure_of(closures_view(closures@), v, closures@.len() as int) == closure_of(closures_view(closures@), v, n as int),
        decreases n,
    {
        assert(closures_view(closures@)[n - 1] == (closures@[n - 1].0, arities_view(closures@[n - 1].1@)));
        if closures[n - 1].0 == v {
            return Some(&closures[n - 1].1);
        }
        n -= 1;
    }
    None
}

/// The functions that a function defines at its top level.
pub fn collect_defn_arities(ir_func: &IrFunction) -> (r: Vec<Defn>)
    ensures
        defns_view(r@) == defns_of(ir::blocks_view(ir_func.blocks@)),
{
    let ghost blocks = ir::blocks_view(ir_func.blocks@);
    let ghost start = Scan { closures: Seq::empty(), defns: Seq::empty() };
    let mut closures: Vec<(VarId, Vec<ArityInfo>)> = Vec::new();
    let mut defns: Vec<Defn> = Vec::new();
    assert(closures_view(closures@) =~= Seq::empty());
    assert(defns_view(defns@) =~= Seq::empty());
    let mut b: usize = 0;
    while b < ir_func.blocks.len()
        invariant
            b <= ir_func.blocks@.len(),
            blocks == ir::blocks_view(ir_func.blocks@),
            (Scan { closures: closures_view(closures@), defns: defns_view(defns@) }) == scan_blocks(start, blocks, b as int),
        decreases ir_func.blocks@.len() - b,
    {
        let insts = &ir_func.blocks[b].insts;
        let ghost iv = ir::insts_view(insts@);
        let ghost here = scan_blocks(start, blocks, b as int);
        assert(blocks[b as int].insts == iv);
        let mut i: usize = 0;
        while i < insts.len()
            invariant
                i <= insts@.len(),
                iv == ir::insts_view(insts@),
                (Scan { closures: closures_view(closures@), defns: defns_view(defns@) }) == scan_insts(here, iv, i as int),
            decreases insts@.len() - i,
        {
            let ghost c0 = closures@;
            let ghost d0 = defns@;
            assert(iv[i as int] == insts@[i as int]@);
            match &insts[i] {
                Inst::AllocClosure(d, t, captures) => {
                    if captures.len() == 0 {
                        closures.push((*d, arities_of(t)));
                        assert(closures_view(closures@) =~= closures_view(c0).push((*d, template_arities(t@))));
                    }
                },
                Inst::DefVar(_, ns, name, v) => {
                    if let Some(a) = find_closure(&closures, *v) {
                        let found = Defn { ns: ns.clone(), name: name.clone(), arities: copy_arities(a) };
                        defns.push(found);
                        assert(defns_view(defns@) =~= defns_view(d0).push(found@));
                    }
                },
                _ => {},
            }
            i += 1;
        }
        b += 1;
    }
    defns
}

/// The arities that a name was last defined with.
fn find_defn<'a>(defns: &'a Vec<Defn>, ns: &str, name: &str) -> (r: Option<&'a Vec<ArityInfo>>)
    ensures
        match r {
            Some(a) => defined(defns_view(defns@), ns@, name@, defns@.len() as int) == Some(arities_view(a@)),
            None => defined(defns_view(defns@), ns@, name@, defns@.len() as int) is None,
        },
{
    let mut n: usize = defns.len();
    while n > 0
        invariant
            n <= defns@.len(),
            defined(defns_view(defns@), ns@, name@, defns@.len() as int) == defined(defns_view(defns@), ns@, name@, n as int),
        decreases n,
    {
        assert(defns_view(defns@)[n - 1] == defns@[n - 1]@);
        if same(defns[n - 1].ns.as_str(), ns) && same(defns[n - 1].name.as_str(), name) {
            return Some(&defns[n - 1].arities);
        }
        n -= 1;
    }
    None
}

/// The arity that takes exactly `arg_count` arguments, if there is one.  A variadic arity is none.
pub fn find_matching_arity(arities: &Vec<ArityInfo>, arg_count: usize) -> (r: Option<&ArityInfo>)
    ensures
        match r {
            Some(a) => matching_arity(arities_view(arities@), arg_count as nat, 0) == Some(a@),
            None => matching_arity(arities_view(arities@), arg_count as nat, 0) is None,
        },
{
    let mut i: usize = 0;
    while i < arities.len()
        invariant
            i <= arities@.len(),
            matching_arity(arities_view(arities@), arg_count as nat, 0) == matching_arity(arities_view(arities@), arg_count as nat, i as int),
        decreases arities@.len() - i,
    {
        assert(arities_view(arities@)[i as int] == arities@[i as int]@);
        if !arities[i].is_variadic && arities[i].param_count == arg_count {
            return Some(&arities[i]);
        }
        i += 1;
    }
    None
}

/// The values that hold functions of the unit, with their arities.
fn collect_loads(ir_func: &IrFunction, defns: &Vec<Defn>) -> (r: Vec<(VarId, Vec<ArityInfo>)>)
    ensures
        closures_view(r@) == loads(defns_view(defns@), ir::blocks_view(ir_func.blocks@), ir_func.blocks@.len() as int),
{
    let ghost blocks = ir::blocks_view(ir_func.blocks@);
    let ghost dv = defns_view(defns@);
    let mut out: Vec<(VarId, Vec<ArityInfo>)> = Vec::new();
    assert(closures_view(out@) =~= Seq::empty());
    let mut b: usize = 0;
    while b < ir_func.blocks.len()
        invariant
            b <= ir_func.blocks@.len(),
            blocks == ir::blocks_view(ir_func.blocks@),
            dv == defns_view(defns@),
            closures_view(out@) == loads(dv, blocks, b as int),
        decreases ir_func.blocks@.len() - b,
    {
        let insts = &ir_func.blocks[b].insts;
        let ghost iv = ir::insts_view(insts@);
        let ghost done = loads(dv, blocks, b as int);
        assert(blocks[b as int].insts == iv);
        let mut i: usize = 0;
        while i < insts.len()
            invariant
                i <= insts@.len(),
                iv == ir::insts_view(insts@),
                dv == defns_view(defns@),
                closures_view(out@) == loads_in(dv, iv, i as int, done),
            decreases insts@.len() - i,
        {
            assert(iv[i as int] == insts@[i as int]@);
            if let Inst::LoadGlobal(d, ns, name) = &insts[i] {
                if let Some(a) = find_defn(defns, ns.as_str(), name.as_str()) {
                    let ghost before = out@;
                    out.push((*d, copy_arities(a)));
                    assert(closures_view(out@) =~= closures_view(before).push((*d, arities_view(a@))));
                }
            }
            i += 1;
        }
        b += 1;
    }
    out
}

/// The direct call that takes the place of a call, if one does.
fn direct_call(targets: &Vec<(VarId, Vec<ArityInfo>)>, inst: &Inst) -> (r: Option<Inst>)
    ensures
        match r {
            Some(call) => direct(closures_view(targets@), inst@) == Some(call@),
            None => direct(closures_view(targets@), inst@) is None,
        },
{
    match inst {
        Inst::Call(d, callee, args) => match find_closure(targets, *callee) {
            Some(arities) => match find_matching_arity(arities, args.len()) {
                Some(a) => {
                    let args2 = args.clone();
                    assert(args2@ =~= args@);
                    Some(Inst::CallDirect(*d, a.fn_name.clone(), args2))
                },
                None => None,
            },
            None => None,
        },
        _ => None,
    }
}

fn count_up(n: u64, Ghost(m): Ghost<nat>) -> (r: u64)
    requires
        n == clamped(m),
    ensures
        r == clamped(m + 1),
{
    if n < u64::MAX {
        n + 1
    } else {
        n
    }
}

/// Makes the calls in a list of instructions direct where that can be, and counts them on top of
/// `n`.
fn rewrite_insts(insts: &mut Vec<Inst>, targets: &Vec<(VarId, Vec<ArityInfo>)>, n: u64, Ghost(m): Ghost<nat>) -> (r: u64)
    requires
        n == clamped(m),
    ensures
        ir::insts_view(final(insts)@) == ir::insts_view(old(insts)@).map_values(|i: InstView| rewritten(closures_view(targets@), i)),
        r == clamped(m + hits_in(closures_view(targets@), ir::insts_view(old(insts)@), old(insts)@.len() as int)),
{
    let ghost tv = closures_view(targets@);
    let ghost iv = ir::insts_view(insts@);
    let mut count: u64 = n;
    let mut i: usize = 0;
    while i < insts.len()
        invariant
            i <= insts@.len(),
            insts@.len() == old(insts)@.len(),
            tv == closures_view(targets@),
            iv == ir::insts_view(old(insts)@),
            count == clamped(m + hits_in(tv, iv, i as int)),
            forall|k: int| 0 <= k < i ==> (#[trigger] insts@[k])@ == rewritten(tv, iv[k]),
            forall|k: int| i <= k < insts@.len() ==> #[trigger] insts@[k] == old(insts)@[k],
        decreases insts@.len() - i,
    {
        assert(iv[i as int] == old(insts)@[i as int]@);
        if let Some(call) = direct_call(targets, &insts[i]) {
            insts.set(i, call);
            count = count_up(count, Ghost(m + hits_in(tv, iv, i as int)));
        }
        i += 1;
    }
    assert(ir::insts_view(insts@) =~= iv.map_values(|i: InstView| rewritten(tv, i)));
    count
}

/// Makes the calls of functions of the unit direct, where an arity takes exactly the arguments of
/// the call.  Returns how many were rewritten.
pub fn rewrite_calls_to_direct(ir_func: &mut IrFunction, defns: &Vec<Defn>) -> (r: u64)
    ensures
        ({
            let blocks = ir::blocks_view(old(ir_func).blocks@);
            let targets = loads(defns_view(defns@), blocks, blocks.len() as int);
            &&& ir::blocks_view(final(ir_func).blocks@) == rewritten_blocks(targets, blocks)
            &&& *final(ir_func) == (IrFunction { blocks: final(ir_func).blocks, ..*old(ir_func) })
            &&& r == clamped(hits(targets, blocks, blocks.len() as int))
        }),
{
    let targets = collect_loads(ir_func, defns);
    let ghost blocks = ir::blocks_view(ir_func.blocks@);
    let ghost tv = closures_view(targets@);
    let mut count: u64 = 0;
    let mut b: usize = 0;
    while b < ir_func.blocks.len()
        invariant
            b <= ir_func.blocks@.len(),
            ir_func.blocks@.len() == old(ir_func).blocks@.len(),
            *ir_func == (IrFunction { blocks: ir_func.blocks, ..*old(ir_func) }),
            blocks == ir::blocks_view(old(ir_func).blocks@),
            tv == closures_view(targets@),
            count == clamped(hits(tv, blocks, b as int)),
            forall|k: int| 0 <= k < b ==> (#[trigger] ir_func.blocks@[k])@ == rewritten_block(tv, blocks[k]),
            forall|k: int| b <= k < ir_func.blocks@.len() ==> #[trigger] ir_func.blocks@[k] == old(ir_func).blocks@[k],
        decreases ir_func.blocks@.len() - b,
    {
        assert(blocks[b as int] == old(ir_func).blocks@[b as int]@);
        count = rewrite_insts(&mut ir_func.blocks[b].insts, &targets, count, Ghost(hits(tv, blocks, b as int)));
        b += 1;
    }
    assert(ir::blocks_view(ir_func.blocks@) =~= rewritten_blocks(tv, blocks));
    count
}

/// A function whose calls of functions of the unit are direct, with the definitions around it and
/// its own; and so for those inside it.
pub open spec fn optimized_with(f: FunctionView, defns: Seq<DefnView>) -> FunctionView
    decreases f,
{
    let all = defns + defns_of(f.blocks);
    FunctionView {
        blocks: rewritten_blocks(loads(all, f.blocks, f.blocks.len() as int), f.blocks),
        subfunctions: optimized_list(f.subfunctions, all),
        ..f
    }
}

/// The same for a list of functions.
pub open spec fn optimized_list(fs: Seq<FunctionView>, defns: Seq<DefnView>) -> Seq<FunctionView>
    decreases fs,
{
    if fs.len() == 0 { Seq::empty() } else { optimized_list(fs.drop_last(), defns).push(optimized_with(fs.last(), defns)) }
}

/// What a function and those inside it, at any depth, define.
pub open spec fn defns_within(f: FunctionView) -> Seq<DefnView>
    decreases f,
{
    defns_of(f.blocks) + defns_within_all(f.subfunctions)
}

/// The same for a list of functions, one after the other.
pub open spec fn defns_within_all(fs: Seq<FunctionView>) -> Seq<DefnView>
    decreases fs,
{
    if fs.len() == 0 { Seq::empty() } else { defns_within_all(fs.drop_last()) + defns_within(fs.last()) }
}

/// A unit whose calls of its own functions are direct: what is defined anywhere in it is known
/// everywhere in it.
pub open spec fn optimized(f: FunctionView) -> FunctionView {
    let all = defns_within(f);
    FunctionView {
        blocks: rewritten_blocks(loads(all, f.blocks, f.blocks.len() as int), f.blocks),
        subfunctions: optimized_list(f.subfunctions, all),
        ..f
    }
}

/// What becomes of each function of a list.
pub proof fn optimized_list_at(fs: Seq<FunctionView>, defns: Seq<DefnView>)
    ensures
        optimized_list(fs, defns).len() == fs.len(),
        forall|i: int| 0 <= i < fs.len() ==> #[trigger] optimized_list(fs, defns)[i] == optimized_with(fs[i], defns),
    decreases fs.len(),
{
    if fs.len() > 0 {
        optimized_list_at(fs.drop_last(), defns);
        assert forall|i: int| 0 <= i < fs.len() implies #[trigger] optimized_list(fs, defns)[i] == optimized_with(fs[i], defns) by {
            if i < fs.len() - 1 {
                assert(optimized_list(fs.drop_last(), defns)[i] == optimized_with(fs.drop_last()[i], defns));
            }
        }
    }
}

fn copy_defns(defns: &Vec<Defn>) -> (r: Vec<Defn>)
    ensures
        defns_view(r@) == defns_view(defns@),
{
    let mut out: Vec<Defn> = Vec::new();
    let mut i: usize = 0;
    while i < defns.len()
        invariant
            i <= defns@.len(),
            out@.len() == i,
            forall|k: int| 0 <= k < i ==> (#[trigger] out@[k])@ == defns@[k]@,
        decreases defns@.len() - i,
    {
        let d = &defns[i];
        out.push(Defn { ns: d.ns.clone(), name: d.name.clone(), arities: copy_arities(&d.arities) });
        i += 1;
    }
    assert(defns_view(out@) =~= defns_view(defns@));
    out
}

fn append_defns(a: &mut Vec<Defn>, b: Vec<Defn>)
    ensures
        defns_view(final(a)@) == defns_view(old(a)@) + defns_view(b@),
{
    let mut b = b;
    let ghost a0 = a@;
    let ghost b0 = b@;
    a.append(&mut b);
    assert(defns_view(a@) =~= defns_view(a0) + defns_view(b0));
}

/// Makes the calls of functions that are defined around a function, and of its own, direct.
pub fn optimize_direct_calls_with_defns(ir_func: &mut IrFunction, defns: &Vec<Defn>)
    ensures
        ir::function_view(*final(ir_func)) == optimized_with(ir::function_view(*old(ir_func)), defns_view(defns@)),
    decreases *old(ir_func), 0nat,
{
    let mut all = copy_defns(defns);
    append_defns(&mut all, collect_defn_arities(ir_func));
    rewrite_calls_to_direct(ir_func, &all);
    optimize_each(&mut ir_func.subfunctions, &all);
}

fn optimize_each(funcs: &mut Vec<IrFunction>, defns: &Vec<Defn>)
    ensures
        ir::functions_view(final(funcs)@) == optimized_list(ir::functions_view(old(funcs)@), defns_view(defns@)),
    decreases old(funcs)@, 1nat,
{
    let ghost fv = ir::functions_view(funcs@);
    let ghost dv = defns_view(defns@);
    proof {
        ir::functions_view_at(funcs@);
        optimized_list_at(fv, dv);
    }
    let mut i: usize = 0;
    while i < funcs.len()
        invariant
            i <= funcs@.len(),
            funcs@.len() == old(funcs)@.len(),
            dv == defns_view(defns@),
            fv == ir::functions_view(old(funcs)@),
            fv.len() == old(funcs)@.len(),
            forall|k: int| 0 <= k < fv.len() ==> #[trigger] fv[k] == ir::function_view(old(funcs)@[k]),
            forall|k: int| 0 <= k < i ==> ir::function_view(#[trigger] funcs@[k]) == optimized_with(fv[k], dv),
            forall|k: int| i <= k < funcs@.len() ==> #[trigger] funcs@[k] == old(funcs)@[k],
        decreases funcs@.len() - i,
    {
        assert(funcs@[i as int] == old(funcs)@[i as int]);
        optimize_direct_calls_with_defns(&mut funcs[i], defns);
        i += 1;
    }
    proof {
        ir::functions_view_at(funcs@);
        assert(ir::functions_view(funcs@) =~= optimized_list(fv, dv)) by {
            assert forall|k: int| 0 <= k < fv.len() implies ir::functions_view(funcs@)[k] == optimized_list(fv, dv)[k] by {
                assert(ir::functions_view(funcs@)[k] == ir::function_view(funcs@[k]));
            }
        }
    }
}

/// Collects what a function and those inside it, at any depth, define.
fn collect_within(ir_func: &IrFunction) -> (r: Vec<Defn>)
    ensures
        defns_view(r@) == defns_within(ir::function_view(*ir_func)),
    decreases ir_func, 0nat,
{
    let mut all = collect_defn_arities(ir_func);
    append_defns(&mut all, collect_within_all(&ir_func.subfunctions));
    all
}

fn collect_within_all(funcs: &Vec<IrFunction>) -> (r: Vec<Defn>)
    ensures
        defns_view(r@) == defns_within_all(ir::functions_view(funcs@)),
    decreases funcs@, 1nat,
{
    let ghost fv = ir::functions_view(funcs@);
    proof {
        ir::functions_view_at(funcs@);
    }
    let mut all: Vec<Defn> = Vec::new();
    assert(defns_view(all@) =~= Seq::empty());
    assert(fv.take(0) =~= Seq::empty());
    let mut i: usize = 0;
    while i < funcs.len()
        invariant
            i <= funcs@.len(),
            fv == ir::functions_view(funcs@),
            fv.len() == funcs@.len(),
            forall|k: int| 0 <= k < fv.len() ==> #[trigger] fv[k] == ir::function_view(funcs@[k]),
            defns_view(all@) == defns_within_all(fv.take(i as int)),
        decreases funcs@.len() - i,
    {
        assert(fv[i as int] == ir::function_view(funcs@[i as int]));
        assert(fv.take(i + 1).drop_last() =~= fv.take(i as int));
        append_defns(&mut all, collect_within(&funcs[i]));
        i += 1;
    }
    assert(fv.take(fv.len() as int) =~= fv);
    all
}

/// Makes the calls of a unit's own functions direct, throughout the unit.
pub fn optimize_direct_calls(ir_func: &mut IrFunction)
    ensures
        ir::function_view(*final(ir_func)) == optimized(ir::function_view(*old(ir_func))),
{
    let all = collect_within(ir_func);
    rewrite_calls_to_direct(ir_func, &all);
    optimize_each(&mut ir_func.subfunctions, &all);
}

/// How many allocations of each kind a unit makes, and how many functions it has.
#[derive(Clone, Copy, Debug, PartialEq, Eq, Structural)]
pub struct AllocStats {
    pub region: u64,
    pub heap: u64,
    pub closures: u64,
    pub functions: u64,
}

/// How many allocations of each kind a unit makes, and how many functions it has.
pub struct Tally {
    pub region: nat,
    pub heap: nat,
    pub closures: nat,
    pub functions: nat,
}

pub open spec fn plus(a: Tally, b: Tally) -> Tally {
    Tally { region: a.region + b.region, heap: a.heap + b.heap, closures: a.closures + b.closures, functions: a.functions + b.functions }
}

pub open spec fn tally_inst(t: Tally, inst: InstView) -> Tally {
    match inst {
        InstView::AllocVector(_, _) => Tally { heap: t.heap + 1, ..t },
        InstView::AllocMap(_, _) => Tally { heap: t.heap + 1, ..t },
        InstView::AllocSet(_, _) => Tally { heap: t.heap + 1, ..t },
        InstView::AllocList(_, _) => Tally { heap: t.heap + 1, ..t },
        InstView::AllocCons(_, _, _) => Tally { heap: t.heap + 1, ..t },
        InstView::AllocClosure(_, _, _) => Tally { closures: t.closures + 1, ..t },
        InstView::RegionAlloc(_, _, _, _) => Tally { region: t.region + 1, ..t },
        _ => t,
    }
}

pub open spec fn tally_insts(t: Tally, insts: Seq<InstView>, n: int) -> Tally
    decreases n,
{
    if n <= 0 { t } else { tally_inst(tally_insts(t, insts, n - 1), insts[n - 1]) }
}

pub open spec fn tally_blocks(t: Tally, blocks: Seq<BlockView>, n: int) -> Tally
    decreases n,
{
    if n <= 0 { t } else { tally_insts(tally_blocks(t, blocks, n - 1), blocks[n - 1].insts, blocks[n - 1].insts.len() as int) }
}

/// What a function and those inside it allocate.
pub open spec fn tally(f: FunctionView) -> Tally
    decreases f,
{
    plus(tally_blocks(Tally { region: 0, heap: 0, closures: 0, functions: 1 }, f.blocks, f.blocks.len() as int), tally_all(f.subfunctions))
}

pub open spec fn tally_all(fs: Seq<FunctionView>) -> Tally
    decreases fs,
{
    if fs.len() == 0 {
        Tally { region: 0, heap: 0, closures: 0, functions: 0 }
    } else {
        plus(tally_all(fs.drop_last()), tally(fs.last()))
    }
}

/// The tally, as far as 64 bits hold it.
pub open spec fn clamped_stats(t: Tally) -> AllocStats {
    AllocStats { region: clamped(t.region), heap: clamped(t.heap), closures: clamped(t.closures), functions: clamped(t.functions) }
}

fn add_up(a: u64, b: u64, Ghost(m): Ghost<nat>, Ghost(n): Ghost<nat>) -> (r: u64)
    requires
        a == clamped(m),
        b == clamped(n),
    ensures
        r == clamped(m + n),
{
    if a <= u64::MAX - b {
        a + b
    } else {
        u64::MAX
    }
}

/// Tallies the allocations of a function and of those inside it.
pub fn count_alloc_stats(ir_func: &IrFunction) -> (r: AllocStats)
    ensures
        r == clamped_stats(tally(ir::function_view(*ir_func))),
    decreases ir_func, 0nat,
{
    let ghost fv = ir::function_view(*ir_func);
    let ghost start = Tally { region: 0, heap: 0, closures: 0, functions: 1 };
    let mut stats = AllocStats { region: 0, heap: 0, closures: 0, functions: 1 };
    let mut b: usize = 0;
    while b < ir_func.blocks.len()
        invariant
            b <= ir_func.blocks@.len(),
            fv == ir::function_view(*ir_func),
            stats == clamped_stats(tally_blocks(start, fv.blocks, b as int)),
        decreases ir_func.blocks@.len() - b,
    {
        let insts = &ir_func.blocks[b].insts;
        let ghost iv = ir::insts_view(insts@);
        let ghost here = tally_blocks(start, fv.blocks, b as int);
        assert(fv.blocks[b as int].insts == iv);
        let mut i: usize = 0;
        while i < insts.len()
            invariant
                i <= insts@.len(),
                iv == ir::insts_view(insts@),
                stats == clamped_stats(tally_insts(here, iv, i as int)),
            decreases insts@.len() - i,
        {
            let ghost t = tally_insts(here, iv, i as int);
            assert(iv[i as int] == insts@[i as int]@);
            match &insts[i] {
                Inst::AllocVector(_, _) | Inst::AllocMap(_, _) | Inst::AllocSet(_, _) | Inst::AllocList(_, _) | Inst::AllocCons(_, _, _) => {
                    stats.heap = count_up(stats.heap, Ghost(t.heap));
                },
                Inst::AllocClosure(_, _, _) => {
                    stats.closures = count_up(stats.closures, Ghost(t.closures));
                },
                Inst::RegionAlloc(_, _, _, _) => {
                    stats.region = count_up(stats.region, Ghost(t.region));
                },
                _ => {},
            }
            i += 1;
        }
        b += 1;
    }
    let n: usize = ir_func.subfunctions.len();
    assert(ir_func.subfunctions@.take(n as int) =~= ir_func.subfunctions@);
    let inner = count_first(&ir_func.subfunctions, n);
    let ghost own = tally_blocks(start, fv.blocks, fv.blocks.len() as int);
    let ghost subs = tally_all(fv.subfunctions);
    AllocStats {
        region: add_up(stats.region, inner.region, Ghost(own.region), Ghost(subs.region)),
        heap: add_up(stats.heap, inner.heap, Ghost(own.heap), Ghost(subs.heap)),
        closures: add_up(stats.closures, inner.closures, Ghost(own.closures), Ghost(subs.closures)),
        functions: add_up(stats.functions, inner.functions, Ghost(own.functions), Ghost(subs.functions)),
    }
}

fn count_first(funcs: &Vec<IrFunction>, n: usize) -> (r: AllocStats)
    requires
        n <= funcs@.len(),
    ensures
        r == clamped_stats(tally_all(ir::functions_view(funcs@.take(n as int)))),
    decreases funcs@, n,
{
    if n == 0 {
        return AllocStats { region: 0, heap: 0, closures: 0, functions: 0 };
    }
    let a = count_first(funcs, n - 1);
    let b = count_alloc_stats(&funcs[n - 1]);
    let ghost fs = funcs@.take(n as int);
    assert(fs.drop_last() =~= funcs@.take(n - 1));
    let ghost x = tally_all(ir::functions_view(funcs@.take(n - 1)));
    let ghost y = tally(ir::function_view(funcs@[n - 1]));
    assert(ir::functions_view(fs).drop_last() =~= ir::functions_view(funcs@.take(n - 1)));
    AllocStats {
        region: add_up(a.region, b.region, Ghost(x.region), Ghost(y.region)),
        heap: add_up(a.heap, b.heap, Ghost(x.heap), Ghost(y.heap)),
        closures: add_up(a.closures, b.closures, Ghost(x.closures), Ghost(y.closures)),
        functions: add_up(a.functions, b.functions, Ghost(x.functions), Ghost(y.functions)),
    }
}

/// Making calls direct allocates nothing more and nothing less.
pub proof fn direct_calls_keep_the_tally(targets: Seq<(VarId, Seq<ArityView>)>, t: Tally, insts: Seq<InstView>, n: int)
    requires
        n <= insts.len(),
    ensures
        tally_insts(t, insts.map_values(|i: InstView| rewritten(targets, i)), n) == tally_insts(t, insts, n),
    decreases n,
{
    if n > 0 {
        direct_calls_keep_the_tally(targets, t, insts, n - 1);
    }
}

/// A direct call takes the place of a call only where the value called is the load of a name of
/// the unit and one of its arities that is not variadic takes as many parameters as there are
/// arguments; the result and the arguments stay.
pub proof fn direct_calls_fit(targets: Seq<(VarId, Seq<ArityView>)>, inst: InstView)
    requires
        rewritten(targets, inst) != inst,
    ensures
        match (inst, rewritten(targets, inst)) {
            (InstView::Call(d, callee, args), InstView::CallDirect(d2, name, args2)) => {
                &&& d == d2
                &&& args == args2
                &&& closure_of(targets, callee, targets.len() as int) is Some
                &&& exists|k: int|
                    0 <= k < (closure_of(targets, callee, targets.len() as int)->0).len() && {
                        let a = #[trigger] (closure_of(targets, callee, targets.len() as int)->0)[k];
                        a.fn_name == name && !a.is_variadic && a.param_count == args.len()
                    }
            },
            _ => false,
        },
{
    if let InstView::Call(d, callee, args) = inst {
        let arities = closure_of(targets, callee, targets.len() as int)->0;
        matching_arity_matches(arities, args.len(), 0);
    }
}

proof fn matching_arity_matches(arities: Seq<ArityView>, count: nat, i: int)
    requires
        0 <= i,
    ensures
        matching_arity(arities, count, i) matches Some(a) ==> exists|k: int| 0 <= k < arities.len() && #[trigger] arities[k] == a && !a.is_variadic && a.param_count == count,
    decreases arities.len() - i,
{
    if i < arities.len() && !(!arities[i].is_variadic && arities[i].param_count == count) {
        matching_arity_matches(arities, count, i + 1);
    }
}

proof fn loads_in_stay(targets: Seq<(VarId, Seq<ArityView>)>, defns: Seq<DefnView>, insts: Seq<InstView>, n: int, done: Seq<(VarId, Seq<ArityView>)>)
    requires
        n <= insts.len(),
    ensures
        loads_in(defns, insts.map_values(|i: InstView| rewritten(targets, i)), n, done) == loads_in(defns, insts, n, done),
    decreases n,
{
    if n > 0 {
        loads_in_stay(targets, defns, insts, n - 1, done);
    }
}

proof fn loads_stay(targets: Seq<(VarId, Seq<ArityView>)>, defns: Seq<DefnView>, blocks: Seq<BlockView>, n: int)
    requires
        n <= blocks.len(),
    ensures
        loads(defns, rewritten_blocks(targets, blocks), n) == loads(defns, blocks, n),
    decreases n,
{
    if n > 0 {
        loads_stay(targets, defns, blocks, n - 1);
        let insts = blocks[n - 1].insts;
        loads_in_stay(targets, defns, insts, insts.len() as int, loads(defns, blocks, n - 1));
    }
}

/// What has been rewritten is not rewritten again.
proof fn nothing_left(targets: Seq<(VarId, Seq<ArityView>)>, inst: InstView)
    ensures
        direct(targets, rewritten(targets, inst)) is None,
{
}

proof fn no_hits_in(targets: Seq<(VarId, Seq<ArityView>)>, insts: Seq<InstView>, n: int)
    requires
        n <= insts.len(),
    ensures
        hits_in(targets, insts.map_values(|i: InstView| rewritten(targets, i)), n) == 0,
    decreases n,
{
    if n > 0 {
        no_hits_in(targets, insts, n - 1);
        nothing_left(targets, insts[n - 1]);
    }
}

proof fn no_hits(targets: Seq<(VarId, Seq<ArityView>)>, blocks: Seq<BlockView>, n: int)
    requires
        n <= blocks.len(),
    ensures
        hits(targets, rewritten_blocks(targets, blocks), n) == 0,
    decreases n,
{
    if n > 0 {
        no_hits(targets, blocks, n - 1);
        no_hits_in(targets, blocks[n - 1].insts, blocks[n - 1].insts.len() as int);
    }
}

/// A second pass over a function finds the same loads, rewrites nothing, and leaves the function as it
/// is.
pub proof fn a_second_pass_rewrites_nothing(defns: Seq<DefnView>, blocks: Seq<BlockView>)
    ensures
        ({
            let n = blocks.len() as int;
            let once = rewritten_blocks(loads(defns, blocks, n), blocks);
            let targets = loads(defns, once, n);
            &&& targets == loads(defns, blocks, n)
            &&& hits(targets, once, n) == 0
            &&& rewritten_blocks(targets, once) == once
        }),
{
    let n = blocks.len() as int;
    let targets = loads(defns, blocks, n);
    let once = rewritten_blocks(targets, blocks);
    loads_stay(targets, defns, blocks, n);
    no_hits(targets, blocks, n);
    assert(rewritten_blocks(targets, once) =~= once) by {
        assert forall|b: int| 0 <= b < n implies rewritten_blocks(targets, once)[b] == once[b] by {
            let insts = once[b].insts;
            assert(insts.map_values(|i: InstView| rewritten(targets, i)) =~= insts) by {
                assert forall|k: int| 0 <= k < insts.len() implies rewritten(targets, insts[k]) == insts[k] by {
                    nothing_left(targets, blocks[b].insts[k]);
                }
            }
        }
    }
}

proof fn scan_insts_stays(targets: Seq<(VarId, Seq<ArityView>)>, s: Scan, insts: Seq<InstView>, n: int)
    requires
        n <= insts.len(),
    ensures
        scan_insts(s, insts.map_values(|i: InstView| rewritten(targets, i)), n) == scan_insts(s, insts, n),
    decreases n,
{
    if n > 0 {
        scan_insts_stays(targets, s, insts, n - 1);
    }
}

proof fn scan_blocks_stays(targets: Seq<(VarId, Seq<ArityView>)>, s: Scan, blocks: Seq<BlockView>, n: int)
    requires
        n <= blocks.len(),
    ensures
        scan_blocks(s, rewritten_blocks(targets, blocks), n) == scan_blocks(s, blocks, n),
    decreases n,
{
    if n > 0 {
        scan_blocks_stays(targets, s, blocks, n - 1);
        let insts = blocks[n - 1].insts;
        scan_insts_stays(targets, scan_blocks(s, blocks, n - 1), insts, insts.len() as int);
    }
}

/// Making calls direct changes nothing in what a function defines.
proof fn defns_stay(f: FunctionView, defns: Seq<DefnView>)
    ensures
        defns_of(optimized_with(f, defns).blocks) == defns_of(f.blocks),
        defns_within(optimized_with(f, defns)) == defns_within(f),
    decreases f, 0nat,
{
    let all = defns + defns_of(f.blocks);
    scan_blocks_stays(loads(all, f.blocks, f.blocks.len() as int), Scan { closures: Seq::empty(), defns: Seq::empty() }, f.blocks, f.blocks.len() as int);
    defns_stay_all(f.subfunctions, all);
}

proof fn defns_stay_all(fs: Seq<FunctionView>, defns: Seq<DefnView>)
    ensures
        defns_within_all(optimized_list(fs, defns)) == defns_within_all(fs),
    decreases fs, 1nat,
{
    if fs.len() > 0 {
        defns_stay_all(fs.drop_last(), defns);
        defns_stay(fs.last(), defns);
        assert(optimized_list(fs, defns).drop_last() =~= optimized_list(fs.drop_last(), defns));
    }
}

proof fn optimized_with_again(f: FunctionView, defns: Seq<DefnView>)
    ensures
        optimized_with(optimized_with(f, defns), defns) == optimized_with(f, defns),
    decreases f, 0nat,
{
    let all = defns + defns_of(f.blocks);
    defns_stay(f, defns);
    a_second_pass_rewrites_nothing(all, f.blocks);
    optimized_list_again(f.subfunctions, all);
}

proof fn optimized_list_again(fs: Seq<FunctionView>, defns: Seq<DefnView>)
    ensures
        optimized_list(optimized_list(fs, defns), defns) == optimized_list(fs, defns),
    decreases fs, 1nat,
{
    if fs.len() > 0 {
        optimized_list_again(fs.drop_last(), defns);
        optimized_with_again(fs.last(), defns);
        assert(optimized_list(fs, defns).drop_last() =~= optimized_list(fs.drop_last(), defns));
    }
}

/// Making the calls of a unit direct a second time changes nothing.
pub proof fn optimizing_again_changes_nothing(f: FunctionView)
    ensures
        optimized(optimized(f)) == optimized(f),
{
    let all = defns_within(f);
    scan_blocks_stays(loads(all, f.blocks, f.blocks.len() as int), Scan { closures: Seq::empty(), defns: Seq::empty() }, f.blocks, f.blocks.len() as int);
    defns_stay_all(f.subfunctions, all);
    assert(defns_within(optimized(f)) == all);
    a_second_pass_rewrites_nothing(all, f.blocks);
    optimized_list_again(f.subfunctions, all);
}

} // verus!
