//! Where direct calls come from: a call goes to a function of the unit only where what it calls is a
//! load of a name that was defined as a closure, and the function is the arity of that closure for as
//! many arguments.
use crate::ir::{BlockView, FunctionView, InstView, TemplateView, VarId};
use crate::passes;
use crate::passes::{ArityView, DefnView, Scan};
use vstd::prelude::*;

verus! {

/// Some block has the instruction.
pub open spec fn has_inst(blocks: Seq<BlockView>, inst: InstView) -> bool {
    exists|j: int, i: int| 0 <= j < blocks.len() && 0 <= i < blocks[j].insts.len() && #[trigger] blocks[j].insts[i] == inst
}

/// A closure template has an arity of its own for `count` arguments, compiled as the function `name`.
pub open spec fn takes(t: TemplateView, name: Seq<char>, count: nat) -> bool {
    exists|q: int| 0 <= q < t.arity_fn_names.len() && #[trigger] t.arity_fn_names[q] == name && q < t.param_counts.len() && q < t.is_variadic.len() && t.param_counts[q] == count && !t.is_variadic[q]
}

/// The blocks define a name of a namespace as a closure without captures of a template.
pub open spec fn defines(blocks: Seq<BlockView>, ns: Seq<char>, name: Seq<char>, t: TemplateView) -> bool {
    exists|d: VarId, c: VarId| #[trigger] has_inst(blocks, InstView::DefVar(d, ns, name, c)) && #[trigger] has_inst(blocks, InstView::AllocClosure(c, t, Seq::empty()))
}

/// A definition says of a name that the function `fn_name` takes `count` arguments.
pub open spec fn says(d: DefnView, ns: Seq<char>, name: Seq<char>, fn_name: Seq<char>, count: nat) -> bool {
    d.ns == ns && d.name == name && exists|q: int| 0 <= q < d.arities.len() && (#[trigger] d.arities[q]).fn_name == fn_name && d.arities[q].param_count == count && !d.arities[q].is_variadic
}

/// A name is known to be a function that takes `count` arguments as `fn_name`: by a definition from
/// around, or by one of the blocks.
pub open spec fn is_known(defns: Seq<DefnView>, blocks: Seq<BlockView>, ns: Seq<char>, name: Seq<char>, fn_name: Seq<char>, count: nat) -> bool {
    ||| exists|k: int| 0 <= k < defns.len() && says(#[trigger] defns[k], ns, name, fn_name, count)
    ||| exists|t: TemplateView| #[trigger] defines(blocks, ns, name, t) && takes(t, fn_name, count)
}

proof fn arity_is_there(arities: Seq<ArityView>, count: nat, i: int)
    requires
        0 <= i,
    ensures
        passes::matching_arity(arities, count, i) matches Some(a) ==> exists|q: int| 0 <= q < arities.len() && (#[trigger] arities[q]).fn_name == a.fn_name && arities[q].param_count == count && !arities[q].is_variadic,
    decreases arities.len() - i,
{
    if i < arities.len() && !(!arities[i].is_variadic && arities[i].param_count == count) {
        arity_is_there(arities, count, i + 1);
    }
}

proof fn closure_is_there(cs: Seq<(VarId, Seq<ArityView>)>, v: VarId, n: int)
    requires
        n <= cs.len(),
    ensures
        passes::closure_of(cs, v, n) matches Some(a) ==> exists|k: int| 0 <= k < n && #[trigger] cs[k] == (v, a),
    decreases n,
{
    if n > 0 && cs[n - 1].0 != v {
        closure_is_there(cs, v, n - 1);
    }
}

proof fn definition_is_there(defns: Seq<DefnView>, ns: Seq<char>, name: Seq<char>, n: int)
    requires
        n <= defns.len(),
    ensures
        passes::defined(defns, ns, name, n) matches Some(a) ==> exists|k: int| 0 <= k < n && (#[trigger] defns[k]).ns == ns && defns[k].name == name && defns[k].arities == a,
    decreases n,
{
    if n > 0 && !(defns[n - 1].ns == ns && defns[n - 1].name == name) {
        definition_is_there(defns, ns, name, n - 1);
    }
}

/// The closures and definitions that a scan has found are in the blocks.
spec fn is_grounded(blocks: Seq<BlockView>, s: Scan) -> bool {
    &&& forall|k: int| 0 <= k < s.closures.len() ==> is_made(blocks, (#[trigger] s.closures[k]).0, s.closures[k].1)
    &&& forall|k: int| 0 <= k < s.defns.len() ==> is_defined(blocks, #[trigger] s.defns[k])
}

spec fn is_made(blocks: Seq<BlockView>, c: VarId, arities: Seq<ArityView>) -> bool {
    exists|t: TemplateView| #[trigger] has_inst(blocks, InstView::AllocClosure(c, t, Seq::empty())) && arities == passes::template_arities(t)
}

spec fn is_defined(blocks: Seq<BlockView>, d: DefnView) -> bool {
    exists|t: TemplateView| #[trigger] defines(blocks, d.ns, d.name, t) && d.arities == passes::template_arities(t)
}

proof fn inst_is_scanned(blocks: Seq<BlockView>, s: Scan, inst: InstView)
    requires
        is_grounded(blocks, s),
        has_inst(blocks, inst),
    ensures
        is_grounded(blocks, passes::scan_inst(s, inst)),
{
    let after = passes::scan_inst(s, inst);
    match inst {
        InstView::AllocClosure(d, t, captures) => {
            if captures.len() == 0 {
                assert(captures =~= Seq::empty());
                assert(is_made(blocks, d, passes::template_arities(t)));
                assert forall|k: int| 0 <= k < after.closures.len() implies is_made(blocks, (#[trigger] after.closures[k]).0, after.closures[k].1) by {
                    if k < s.closures.len() {
                        assert(after.closures[k] == s.closures[k]);
                    }
                }
            }
        },
        InstView::DefVar(d, ns, name, v) => {
            closure_is_there(s.closures, v, s.closures.len() as int);
            if let Some(arities) = passes::closure_of(s.closures, v, s.closures.len() as int) {
                let k = choose|k: int| 0 <= k < s.closures.len() && #[trigger] s.closures[k] == (v, arities);
                assert(is_made(blocks, s.closures[k].0, s.closures[k].1));
                let t = choose|t: TemplateView| #[trigger] has_inst(blocks, InstView::AllocClosure(v, t, Seq::empty())) && arities == passes::template_arities(t);
                assert(is_made(blocks, v, arities));
                assert(has_inst(blocks, InstView::DefVar(d, ns, name, v)));
                assert(defines(blocks, ns, name, t));
                let found = DefnView { ns, name, arities };
                assert(defines(blocks, found.ns, found.name, t) && found.arities == passes::template_arities(t));
                assert(is_defined(blocks, found));
                assert forall|k: int| 0 <= k < after.defns.len() implies is_defined(blocks, #[trigger] after.defns[k]) by {
                    if k < s.defns.len() {
                        assert(after.defns[k] == s.defns[k]);
                    }
                }
            }
        },
        _ => {},
    }
}

proof fn insts_are_scanned(blocks: Seq<BlockView>, s: Scan, j: int, n: int)
    requires
        is_grounded(blocks, s),
        0 <= j < blocks.len(),
        0 <= n <= blocks[j].insts.len(),
    ensures
        is_grounded(blocks, passes::scan_insts(s, blocks[j].insts, n)),
    decreases n,
{
    if n > 0 {
        insts_are_scanned(blocks, s, j, n - 1);
        assert(has_inst(blocks, blocks[j].insts[n - 1]));
        inst_is_scanned(blocks, passes::scan_insts(s, blocks[j].insts, n - 1), blocks[j].insts[n - 1]);
    }
}

proof fn blocks_are_scanned(blocks: Seq<BlockView>, s: Scan, n: int)
    requires
        is_grounded(blocks, s),
        0 <= n <= blocks.len(),
    ensures
        is_grounded(blocks, passes::scan_blocks(s, blocks, n)),
    decreases n,
{
    if n > 0 {
        blocks_are_scanned(blocks, s, n - 1);
        insts_are_scanned(blocks, passes::scan_blocks(s, blocks, n - 1), n - 1, blocks[n - 1].insts.len() as int);
    }
}

/// The targets of direct calls are loads of names that are defined.
spec fn are_loads(defns: Seq<DefnView>, blocks: Seq<BlockView>, ts: Seq<(VarId, Seq<ArityView>)>) -> bool {
    forall|k: int| 0 <= k < ts.len() ==> is_load(defns, blocks, (#[trigger] ts[k]).0, ts[k].1)
}

spec fn is_load(defns: Seq<DefnView>, blocks: Seq<BlockView>, v: VarId, arities: Seq<ArityView>) -> bool {
    exists|ns: Seq<char>, name: Seq<char>| #[trigger] has_inst(blocks, InstView::LoadGlobal(v, ns, name)) && passes::defined(defns, ns, name, defns.len() as int) == Some(arities)
}

proof fn loads_are_there(defns: Seq<DefnView>, blocks: Seq<BlockView>, j: int, n: int, done: Seq<(VarId, Seq<ArityView>)>)
    requires
        are_loads(defns, blocks, done),
        0 <= j < blocks.len(),
        0 <= n <= blocks[j].insts.len(),
    ensures
        are_loads(defns, blocks, passes::loads_in(defns, blocks[j].insts, n, done)),
    decreases n,
{
    if n > 0 {
        loads_are_there(defns, blocks, j, n - 1, done);
        let rest = passes::loads_in(defns, blocks[j].insts, n - 1, done);
        let after = passes::loads_in(defns, blocks[j].insts, n, done);
        assert(has_inst(blocks, blocks[j].insts[n - 1]));
        match blocks[j].insts[n - 1] {
            InstView::LoadGlobal(d, ns, name) => {
                if let Some(arities) = passes::defined(defns, ns, name, defns.len() as int) {
                    assert(is_load(defns, blocks, d, arities));
                    assert forall|k: int| 0 <= k < after.len() implies is_load(defns, blocks, (#[trigger] after[k]).0, after[k].1) by {
                        if k < rest.len() {
                            assert(after[k] == rest[k]);
                        }
                    }
                }
            },
            _ => {},
        }
    }
}

proof fn all_loads_are_there(defns: Seq<DefnView>, blocks: Seq<BlockView>, n: int)
    requires
        0 <= n <= blocks.len(),
    ensures
        are_loads(defns, blocks, passes::loads(defns, blocks, n)),
    decreases n,
{
    if n > 0 {
        all_loads_are_there(defns, blocks, n - 1);
        loads_are_there(defns, blocks, n - 1, blocks[n - 1].insts.len() as int, passes::loads(defns, blocks, n - 1));
    }
}

/// What a function was before its calls are made direct, and what it is then: every instruction is as
/// it was, or it is a call that goes directly to the function of the unit for as many arguments, under
/// the same name for its result and with the same arguments, where what is called is loaded from a name
/// that is known to be that function.  Nothing else of the function is different.
pub proof fn direct_calls_go_to_definitions(f: FunctionView, defns: Seq<DefnView>, j: int, i: int)
    requires
        0 <= j < f.blocks.len(),
        0 <= i < f.blocks[j].insts.len(),
    ensures
        ({
            let g = passes::optimized_with(f, defns);
            let a = f.blocks[j].insts[i];
            let b = g.blocks[j].insts[i];
            &&& g.blocks.len() == f.blocks.len()
            &&& g.blocks[j].insts.len() == f.blocks[j].insts.len()
            &&& g.blocks[j].id == f.blocks[j].id && g.blocks[j].phis == f.blocks[j].phis && g.blocks[j].terminator == f.blocks[j].terminator
            &&& g.params == f.params && g.name == f.name
            &&& a == b || match (a, b) {
                (InstView::Call(d, callee, args), InstView::CallDirect(e, fn_name, same)) => {
                    &&& d == e && args == same
                    &&& exists|ns: Seq<char>, name: Seq<char>| #[trigger] has_inst(f.blocks, InstView::LoadGlobal(callee, ns, name)) && is_known(defns, f.blocks, ns, name, fn_name, args.len())
                },
                _ => false,
            }
        }),
{
    let own = passes::defns_of(f.blocks);
    let all = defns + own;
    let ts = passes::loads(all, f.blocks, f.blocks.len() as int);
    let none = Scan { closures: Seq::empty(), defns: Seq::empty() };
    let a = f.blocks[j].insts[i];
    blocks_are_scanned(f.blocks, none, f.blocks.len() as int);
    all_loads_are_there(all, f.blocks, f.blocks.len() as int);
    if let InstView::Call(d, callee, args) = a {
        closure_is_there(ts, callee, ts.len() as int);
        if let Some(arities) = passes::closure_of(ts, callee, ts.len() as int) {
            arity_is_there(arities, args.len(), 0);
            if let Some(ar) = passes::matching_arity(arities, args.len(), 0) {
                let k = choose|k: int| 0 <= k < ts.len() && #[trigger] ts[k] == (callee, arities);
                assert(is_load(all, f.blocks, ts[k].0, ts[k].1));
                let (ns, name) = choose|ns: Seq<char>, name: Seq<char>| #[trigger] has_inst(f.blocks, InstView::LoadGlobal(callee, ns, name)) && passes::defined(all, ns, name, all.len() as int) == Some(arities);
                definition_is_there(all, ns, name, all.len() as int);
                let m = choose|m: int| 0 <= m < all.len() && (#[trigger] all[m]).ns == ns && all[m].name == name && all[m].arities == arities;
                let q = choose|q: int| 0 <= q < arities.len() && (#[trigger] arities[q]).fn_name == ar.fn_name && arities[q].param_count == args.len() && !arities[q].is_variadic;
                if m < defns.len() {
                    assert(all[m] == defns[m]);
                    assert(says(defns[m], ns, name, ar.fn_name, args.len())) by {
                        assert(defns[m].arities[q].fn_name == ar.fn_name);
                    }
                } else {
                    assert(all[m] == own[m - defns.len()]);
                    assert(is_defined(f.blocks, own[m - defns.len()]));
                    let t = choose|t: TemplateView| #[trigger] defines(f.blocks, ns, name, t) && arities == passes::template_arities(t);
                    assert(t.arity_fn_names[q] == ar.fn_name);
                    assert(takes(t, ar.fn_name, args.len()));
                }
                assert(is_known(defns, f.blocks, ns, name, ar.fn_name, args.len()));
            }
        }
    }
}

} // verus!
