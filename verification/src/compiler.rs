//! The compiler: declares functions in an object module, and compiles them into it.
use crate::backend;
use crate::backend::{machine, DataDecl, FuncDecl, MachTy, Origin, Request};
use crate::bridge;
use crate::bridge::{ClifTy, RtFn};
use crate::clif::{OpView, Plan, PlanView};
use crate::codegen;
use crate::codegen::{plan_function, CodegenError};
use crate::compilable;
use crate::emission;
use crate::emission::ErrorView;
use crate::feasible;
use crate::ir;
use crate::ir::{IrFunction, Repr};
use crate::lowered;
use crate::replay;
use crate::replay::{carry_out, find_user, EntView, Setting, SettingView};
use crate::soundness;
use crate::typeinfer;
use crate::typeinfer::infer;
use cranelift_codegen::Context;
use cranelift_object::ObjectModule;
use vstd::prelude::*;
use vstd::string::*;

verus! {

broadcast use vstd::std_specs::hash::group_hash_axioms;

/// The types of a list of bridge types.
pub open spec fn machine_tys(tys: Seq<ClifTy>, wide: bool) -> Seq<MachTy> {
    tys.map_values(|ty: ClifTy| backend::machine_ty(ty, wide))
}

/// `count` pointers.
pub open spec fn pointers(count: nat, wide: bool) -> Seq<MachTy> {
    Seq::new(count, |i: int| backend::machine_ty(ClifTy::Ptr, wide))
}

/// The module knows bridge function `f` under the number `id`.
pub open spec fn is_bridge(funcs: Map<u32, FuncDecl>, id: u32, f: RtFn, wide: bool) -> bool {
    &&& funcs.contains_key(id)
    &&& funcs[id].name == bridge::rt_symbol(f)
    &&& funcs[id].params == machine_tys(bridge::rt_params(f), wide)
    &&& funcs[id].result == replay::rt_machine_result(f, wide)
    &&& funcs[id].system_v
}

/// The module knows a function of the program that takes `count` pointers and returns one under
/// the number `id`, and it can be defined.
pub open spec fn is_program(funcs: Map<u32, FuncDecl>, id: u32, count: nat, wide: bool) -> bool {
    &&& funcs.contains_key(id)
    &&& funcs[id].params == pointers(count, wide)
    &&& funcs[id].result == Some(backend::machine_ty(ClifTy::Ptr, wide))
    &&& funcs[id].definable
}

/// What can be defined could be defined before.
pub open spec fn nothing_to_define(a: Map<u32, FuncDecl>, b: Map<u32, FuncDecl>) -> bool {
    forall|k: u32| #[trigger] b.contains_key(k) && b[k].definable ==> a.contains_key(k) && a[k].definable
}

/// No two functions bear the same name.
pub open spec fn names_are_unique(funcs: Map<u32, FuncDecl>) -> bool {
    forall|j: u32, k: u32| #[trigger] funcs.contains_key(j) && #[trigger] funcs.contains_key(k) && funcs[j].name == funcs[k].name ==> j == k
}

/// A declaration under a name of its own keeps the names unique.
pub proof fn names_stay_unique(a: Map<u32, FuncDecl>, b: Map<u32, FuncDecl>, name: Seq<char>, id: u32)
    requires
        names_are_unique(a),
        b.remove(id) == a.remove(id),
        b.contains_key(id) ==> b[id].name == name,
        forall|k: u32| #[trigger] a.contains_key(k) && a[k].name == name ==> k == id,
    ensures
        names_are_unique(b),
{
    assert forall|k: u32| #[trigger] b.contains_key(k) && k != id implies a.contains_key(k) && a[k] == b[k] by {
        let was = a.remove(id);
        let is = b.remove(id);
        assert(is.dom().contains(k));
        assert(was.dom().contains(k));
        assert(was[k] == is[k]);
        assert(a.dom().contains(k));
    }
}

/// One more declaration leaves what was known as it was.
pub open spec fn functions_kept(a: Map<u32, FuncDecl>, b: Map<u32, FuncDecl>) -> bool {
    forall|k: u32| #[trigger] a.contains_key(k) ==> b.contains_key(k) && backend::same_signature(a[k], b[k]) && (a[k].definable ==> b[k].definable)
}

fn machines(tys: &Vec<ClifTy>, wide: bool) -> (r: Vec<MachTy>)
    ensures
        r@ == machine_tys(tys@, wide),
{
    let mut out: Vec<MachTy> = Vec::new();
    let mut i: usize = 0;
    while i < tys.len()
        invariant
            i <= tys@.len(),
            out@ == machine_tys(tys@, wide).take(i as int),
        decreases tys@.len() - i,
    {
        out.push(machine(tys[i], wide));
        assert(machine_tys(tys@, wide).take(i + 1) =~= machine_tys(tys@, wide).take(i as int).push(machine_tys(tys@, wide)[i as int]));
        i += 1;
    }
    assert(machine_tys(tys@, wide).take(tys@.len() as int) =~= machine_tys(tys@, wide));
    out
}

fn pointer_list(count: usize, wide: bool) -> (r: Vec<MachTy>)
    ensures
        r@ == pointers(count as nat, wide),
{
    let ptr = machine(ClifTy::Ptr, wide);
    let mut out: Vec<MachTy> = Vec::new();
    let mut i: usize = 0;
    while i < count
        invariant
            i <= count,
            ptr == backend::machine_ty(ClifTy::Ptr, wide),
            out@ == pointers(i as nat, wide),
        decreases count - i,
    {
        out.push(ptr);
        assert(pointers((i + 1) as nat, wide) =~= pointers(i as nat, wide).push(ptr));
        i += 1;
    }
    assert(pointers(0, wide) =~= Seq::<MachTy>::empty());
    out
}

/// Declares a function, and keeps what is known.
fn declare(m: &mut ObjectModule, name: &str, system_v: bool, params: &Vec<MachTy>, result: Option<MachTy>, export: bool) -> (r: Result<u32, CodegenError>)
    requires
        backend::origin(*old(m)) is Some,
    ensures
        backend::data_objects(*final(m)) == backend::data_objects(*old(m)),
        backend::bodies(*final(m)) == backend::bodies(*old(m)),
        backend::origin(*final(m)) == backend::origin(*old(m)),
        r is Ok <==> backend::is_free(backend::functions(*old(m)), name@, params@, result, backend::convention(*old(m), system_v)),
        match r {
            Ok(id) => {
                let funcs = backend::functions(*final(m));
                &&& functions_kept(backend::functions(*old(m)), funcs)
                &&& funcs.contains_key(id)
                &&& funcs[id].name == name@
                &&& funcs[id].params == params@
                &&& funcs[id].result == result
                &&& funcs[id].system_v == backend::convention(*old(m), system_v)
                &&& export ==> funcs[id].definable
                &&& !export ==> funcs[id].definable == (backend::functions(*old(m)).contains_key(id) && backend::functions(*old(m))[id].definable)
                &&& funcs.remove(id) == backend::functions(*old(m)).remove(id)
                &&& forall|k: u32| #[trigger] backend::functions(*old(m)).contains_key(k) && backend::functions(*old(m))[k].name == name@ ==> k == id
                &&& funcs.dom() == backend::functions(*old(m)).dom().insert(id)
            },
            Err(e) => e@ == ErrorView::Module && backend::functions(*final(m)).dom() == backend::functions(*old(m)).dom(),
        },
        forall|k: u32| #[trigger] backend::functions(*old(m)).contains_key(k) ==> backend::same_signature(backend::functions(*old(m))[k], backend::functions(*final(m))[k])
            && (backend::functions(*old(m))[k].definable ==> backend::functions(*final(m))[k].definable),
{
    let ghost before = backend::functions(*m);
    match backend::declare_function(m, name, system_v, params, result, export) {
        Ok(id) => {
            proof {
                let after = backend::functions(*m);
                assert forall|k: u32| #[trigger] before.contains_key(k) implies after.contains_key(k) && backend::same_signature(before[k], after[k])
                    && (before[k].definable ==> after[k].definable) by {
                    assert(backend::same_signature(before[k], after[k]));
                    if k != id {
                        assert(before.remove(id).contains_key(k));
                        assert(after.remove(id).contains_key(k));
                        assert(before.remove(id)[k] == after.remove(id)[k]);
                    }
                }
                assert(after.dom() =~= before.dom().insert(id)) by {
                    assert forall|k: u32| after.dom().contains(k) == before.dom().insert(id).contains(k) by {
                        assert(before.remove(id).dom().contains(k) == after.remove(id).dom().contains(k));
                    }
                }
            }
            Ok(id)
        },
        Err(e) => Err(CodegenError::Module(e)),
    }
}

/// A function of the bridge can be declared.
pub open spec fn is_bridge_free(funcs: Map<u32, FuncDecl>, f: RtFn, wide: bool) -> bool {
    backend::is_free(funcs, bridge::rt_symbol(f), machine_tys(bridge::rt_params(f), wide), replay::rt_machine_result(f, wide), true)
}

/// The bridge can be declared: nothing is known by the name of one of its functions with another
/// signature.
pub open spec fn takes_bridge(funcs: Map<u32, FuncDecl>, wide: bool) -> bool {
    forall|f: RtFn| #[trigger] is_bridge_free(funcs, f, wide)
}

/// A module that knows nothing takes the bridge.
pub proof fn nothing_is_in_the_way(wide: bool)
    ensures
        takes_bridge(Map::<u32, FuncDecl>::empty(), wide),
{
    assert forall|f: RtFn| #[trigger] is_bridge_free(Map::<u32, FuncDecl>::empty(), f, wide) by {
        bridge::symbols_are_distinct(f);
    }
}

/// A declaration is no hindrance to one under another name.
proof fn others_stay_free(a: Map<u32, FuncDecl>, b: Map<u32, FuncDecl>, name: Seq<char>, id: u32, other: Seq<char>, params: Seq<MachTy>, result: Option<MachTy>, system_v: bool)
    requires
        b.remove(id) == a.remove(id),
        b.contains_key(id),
        b[id].name == name,
        a.contains_key(id) ==> a[id].name == name,
        other != name,
    ensures
        backend::is_free(a, other, params, result, system_v) == backend::is_free(b, other, params, result, system_v),
{
    let was = a.remove(id);
    let is = b.remove(id);
    assert forall|k: u32| #[trigger] a.contains_key(k) && k != id implies b.contains_key(k) && a[k] == b[k] by {
        assert(was.dom().contains(k));
        assert(is.dom().contains(k));
        assert(was[k] == is[k]);
        assert(b.dom().contains(k));
    }
    assert forall|k: u32| #[trigger] b.contains_key(k) && k != id implies a.contains_key(k) && a[k] == b[k] by {
        assert(is.dom().contains(k));
        assert(was.dom().contains(k));
        assert(was[k] == is[k]);
        assert(a.dom().contains(k));
    }
    if backend::is_free(a, other, params, result, system_v) {
        assert forall|k: u32| #[trigger] b.contains_key(k) implies backend::agrees(b[k], other, params, result, system_v) by {
            if k != id {
                assert(a.contains_key(k));
            }
        }
    }
    if backend::is_free(b, other, params, result, system_v) {
        assert forall|k: u32| #[trigger] a.contains_key(k) implies backend::agrees(a[k], other, params, result, system_v) by {
            if k != id {
                assert(b.contains_key(k));
            }
        }
    }
}

/// Declares the functions of the runtime bridge, and returns their numbers in the order of the
/// bridge.
pub fn declare_runtime_funcs(m: &mut ObjectModule, wide: bool) -> (r: Result<Vec<u32>, CodegenError>)
    requires
        backend::origin(*old(m)) is Some,
    ensures
        backend::data_objects(*final(m)) == backend::data_objects(*old(m)),
        backend::bodies(*final(m)) == backend::bodies(*old(m)),
        backend::origin(*final(m)) == backend::origin(*old(m)),
        r is Ok <==> takes_bridge(backend::functions(*old(m)), wide),
        match r {
            Ok(ids) => {
                &&& ids@.len() == bridge::rt_order().len()
                &&& forall|i: int| 0 <= i < ids@.len() ==> is_bridge(backend::functions(*final(m)), #[trigger] ids@[i], bridge::rt_order()[i], wide)
                &&& functions_kept(backend::functions(*old(m)), backend::functions(*final(m)))
                &&& nothing_to_define(backend::functions(*old(m)), backend::functions(*final(m)))
                &&& names_are_unique(backend::functions(*old(m))) ==> names_are_unique(backend::functions(*final(m)))
            },
            Err(e) => e@ == ErrorView::Module,
        },
{
    let order = RtFn::all();
    let mut ids: Vec<u32> = Vec::new();
    let mut i: usize = 0;
    while i < order.len()
        invariant
            i <= order@.len(),
            order@ == bridge::rt_order(),
            ids@.len() == i,
            backend::data_objects(*m) == backend::data_objects(*old(m)),
            backend::bodies(*m) == backend::bodies(*old(m)),
            backend::origin(*m) == backend::origin(*old(m)),
            backend::origin(*m) is Some,
            forall|k: int| 0 <= k < i ==> is_bridge_free(backend::functions(*old(m)), #[trigger] order@[k], wide),
            forall|k: int| i <= k < order@.len() ==> is_bridge_free(backend::functions(*old(m)), #[trigger] order@[k], wide) == is_bridge_free(backend::functions(*m), order@[k], wide),
            functions_kept(backend::functions(*old(m)), backend::functions(*m)),
            nothing_to_define(backend::functions(*old(m)), backend::functions(*m)),
            names_are_unique(backend::functions(*old(m))) ==> names_are_unique(backend::functions(*m)),
            forall|k: int| 0 <= k < i ==> is_bridge(backend::functions(*m), #[trigger] ids@[k], order@[k], wide),
        decreases order@.len() - i,
    {
        let f = order[i];
        let params = machines(&f.params(), wide);
        let result = match f.result() {
            Some(ty) => Some(machine(ty, wide)),
            None => None,
        };
        let ghost before = backend::functions(*m);
        match declare(m, f.symbol(), true, &params, result, false) {
            Ok(id) => {
                proof {
                    let after = backend::functions(*m);
                    assert(is_bridge_free(before, f, wide));
                    assert forall|k: int| i < k < order@.len() implies is_bridge_free(before, #[trigger] order@[k], wide) == is_bridge_free(after, order@[k], wide) by {
                        let g = order@[k];
                        bridge::symbols_are_distinct(f);
                        bridge::symbols_are_distinct(g);
                        bridge::declared_exactly_once(f, i as int);
                        bridge::declared_exactly_once(g, k);
                        others_stay_free(before, after, bridge::rt_symbol(f), id, bridge::rt_symbol(g), machine_tys(bridge::rt_params(g), wide), replay::rt_machine_result(g, wide), true);
                    }
                    if names_are_unique(before) {
                        names_stay_unique(before, after, bridge::rt_symbol(f), id);
                    }
                    assert forall|k: int| 0 <= k < i implies is_bridge(after, #[trigger] ids@[k], order@[k], wide) by {
                        assert(is_bridge(before, ids@[k], order@[k], wide));
                        assert(before.contains_key(ids@[k]));
                    }
                    assert forall|k: u32| #[trigger] backend::functions(*old(m)).contains_key(k) implies after.contains_key(k)
                        && backend::same_signature(backend::functions(*old(m))[k], after[k]) && (backend::functions(*old(m))[k].definable ==> after[k].definable) by {
                        assert(before.contains_key(k));
                    }
                    assert forall|k: u32| #[trigger] after.contains_key(k) && after[k].definable implies backend::functions(*old(m)).contains_key(k)
                        && backend::functions(*old(m))[k].definable by {
                        if k != id {
                            assert(after.remove(id).contains_key(k) == before.remove(id).contains_key(k));
                            assert(after.remove(id)[k] == before.remove(id)[k]);
                        }
                        assert(before.contains_key(k) && before[k].definable);
                    }
                }
                ids.push(id);
            },
            Err(e) => {
                assert(!is_bridge_free(before, f, wide));
                assert(!is_bridge_free(backend::functions(*old(m)), order@[i as int], wide));
                return Err(e);
            },
        }
        i += 1;
    }
    proof {
        assert forall|f: RtFn| #[trigger] is_bridge_free(backend::functions(*old(m)), f, wide) by {
            bridge::declared_exactly_once(f, 0);
            assert(order@[bridge::rt_index(f)] == f);
        }
    }
    Ok(ids)
}

/// A compiler into an object module.
pub struct Compiler {
    module: ObjectModule,
    setting: Setting,
    /// The number of parameters of each function of the program.
    counts: Vec<usize>,
    last_code_size: u32,
}

impl Compiler {
    /// The object module.
    pub closed spec fn spec_module(&self) -> ObjectModule {
        self.module
    }

    /// The functions that the module knows.
    pub open spec fn functions(&self) -> Map<u32, FuncDecl> {
        backend::functions(self.spec_module())
    }

    /// What the module was made with.
    pub open spec fn origin(&self) -> Option<Origin> {
        backend::origin(self.spec_module())
    }

    /// The data objects that the module knows.
    pub open spec fn data(&self) -> Map<u32, DataDecl> {
        backend::data_objects(self.spec_module())
    }

    /// The functions that have been compiled, by number.
    pub open spec fn compiled(&self) -> Map<u32, Seq<Request>> {
        backend::bodies(self.spec_module())
    }

    /// Pointers have 64 bits.
    pub closed spec fn is_wide(&self) -> bool {
        self.setting.wide
    }

    /// The functions of the program that have been declared, with their numbers.
    pub closed spec fn users(&self) -> Seq<(Seq<char>, u32)> {
        replay::users_view(self.setting.users@)
    }

    /// The number of parameters of each function of the program.
    pub closed spec fn counts(&self) -> Seq<usize> {
        self.counts@
    }

    /// The size of the code that was compiled last.
    pub closed spec fn code_size(&self) -> u32 {
        self.last_code_size
    }

    /// The numbers of the bridge functions.
    pub closed spec fn bridge_ids(&self) -> Seq<u32> {
        self.setting.rt@
    }

    /// The module is one of this library's, and knows the bridge and the declared functions of the
    /// program.
    pub open spec fn wf(&self) -> bool {
        &&& self.origin() is Some
        &&& self.knows_code()
        &&& self.bridge_ids().len() == bridge::rt_order().len()
        &&& forall|i: int| 0 <= i < self.bridge_ids().len() ==> is_bridge(self.functions(), #[trigger] self.bridge_ids()[i], bridge::rt_order()[i], self.is_wide())
        &&& self.users().len() == self.counts().len()
        &&& forall|i: int| 0 <= i < self.users().len() ==> is_program(self.functions(), (#[trigger] self.users()[i]).1, self.counts()[i] as nat, self.is_wide())
        &&& forall|i: int| 0 <= i < self.users().len() ==> self.functions()[(#[trigger] self.users()[i]).1].name == self.users()[i].0
    }

    /// The module knows every function that has been compiled.
    #[verifier::opaque]
    pub open spec fn knows_code(&self) -> bool {
        forall|id: u32| #[trigger] self.compiled().contains_key(id) ==> self.functions().contains_key(id)
    }

    /// The module knows what its functions refer to.
    #[verifier::opaque]
    pub open spec fn is_linked(&self) -> bool {
        forall|id: u32| #[trigger] self.compiled().contains_key(id) ==> backend::all_resolved(self.compiled()[id], self.functions(), self.data())
    }

    /// Every function that can be defined has been compiled, every data object has contents, and the
    /// module knows what its functions refer to.
    pub open spec fn is_whole(&self) -> bool {
        &&& self.origin() is Some
        &&& self.is_linked()
        &&& forall|id: u32| #[trigger] self.functions().contains_key(id) && self.functions()[id].definable ==> self.compiled().contains_key(id)
        &&& forall|id: u32| #[trigger] self.data().contains_key(id) ==> !(self.data()[id].init is Missing)
    }

    /// What the plan of a function with these many parameters can refer to.
    pub open spec fn setting_for(&self, count: nat) -> SettingView {
        SettingView { wide: self.is_wide(), rt: self.bridge_ids(), users: self.users(), params: pointers(count, self.is_wide()) }
    }

    /// The names of the functions of the program.
    pub open spec fn user_names(&self) -> Seq<Seq<char>> {
        self.users().map_values(|u: (Seq<char>, u32)| u.0)
    }

    /// The position, from `i` on, of the function of the program with number `id`.
    pub open spec fn id_at(users: Seq<(Seq<char>, u32)>, id: u32, i: int) -> int
        decreases users.len() - i,
    {
        if i < 0 || i >= users.len() {
            users.len() as int
        } else if users[i].1 == id {
            i
        } else {
            Compiler::id_at(users, id, i + 1)
        }
    }

    /// The plan of a function.
    pub open spec fn plan_of(&self, func: IrFunction, specs: Seq<Repr>) -> Result<PlanView, ErrorView> {
        emission::function_plan(func, typeinfer::unboxed(typeinfer::solution(func, specs)), self.user_names(), specs)
    }

    /// The module turns down the function under the number `id`.
    pub open spec fn turns_down(&self, func: IrFunction, id: u32, specs: Seq<Repr>) -> bool {
        self.plan_of(func, specs) matches Ok(plan) && is_turned_down(*self, id, plan.ops, self.setting_for(self.counts()[Compiler::id_at(self.users(), id, 0)] as nat))
    }

    /// A function of the program with so many parameters can be declared under the name.
    pub open spec fn can_declare(&self, name: Seq<char>, count: nat) -> bool {
        backend::is_free(
            self.functions(),
            name,
            pointers(count, self.is_wide()),
            Some(backend::machine_ty(ClifTy::Ptr, self.is_wide())),
            backend::convention(self.spec_module(), false),
        )
    }

    /// A compiler for the host: fast code that can stand anywhere in memory.
    pub fn new() -> (r: Result<Compiler, CodegenError>)
        ensures
            is_made(r),
    {
        proof {
            reveal_strlit("clojurust_aot");
            nothing_is_in_the_way(true);
            nothing_is_in_the_way(false);
        }
        match backend::new_module("clojurust_aot", "speed", true) {
            Ok((module, wide)) => new_compiler_from_module(module, wide),
            Err(backend::Refusal::Host(text)) => Err(CodegenError::Codegen("failed to create ISA builder: ".to_owned().concat(text.as_str()))),
            Err(backend::Refusal::Isa(text)) => Err(CodegenError::Codegen("failed to build ISA: ".to_owned().concat(text.as_str()))),
            Err(backend::Refusal::Module(e)) => Err(CodegenError::Module(e)),
        }
    }

    /// Declares a function of the program, so that it can be called before it is compiled.
    pub fn declare_function(&mut self, name: &str, param_count: usize) -> (r: Result<u32, CodegenError>)
        requires
            old(self).wf(),
        ensures
            final(self).is_wide() == old(self).is_wide(),
            final(self).bridge_ids() == old(self).bridge_ids(),
            final(self).compiled() == old(self).compiled(),
            final(self).data() == old(self).data(),
            final(self).origin() == old(self).origin(),
            final(self).code_size() == old(self).code_size(),
            final(self).wf(),
            r is Ok <==> old(self).can_declare(name@, param_count as nat),
            match r {
                Ok(id) => {
                    let i = replay::user_at(old(self).users(), name@, 0);
                    &&& functions_kept(old(self).functions(), final(self).functions())
                    &&& old(self).is_linked() ==> final(self).is_linked()
                    &&& final(self).functions().remove(id) == old(self).functions().remove(id)
                    &&& forall|k: u32| #[trigger] old(self).functions().contains_key(k) && old(self).functions()[k].name == name@ ==> k == id
                    &&& final(self).functions().dom() == old(self).functions().dom().insert(id)
                    &&& is_program(final(self).functions(), id, param_count as nat, old(self).is_wide())
                    &&& final(self).functions()[id].name == name@
                    &&& final(self).functions()[id].system_v == backend::convention(old(self).spec_module(), false)
                    &&& final(self).users() == (if i < old(self).users().len() { old(self).users().update(i, (name@, id)) } else { old(self).users().push((name@, id)) })
                    &&& final(self).counts() == (if i < old(self).users().len() { old(self).counts().update(i, param_count) } else { old(self).counts().push(param_count) })
                },
                Err(e) => e@ == ErrorView::Module && final(self).users() == old(self).users() && final(self).counts() == old(self).counts(),
            },
    {
        let ghost before = self.functions();
        let ghost users0 = self.users();
        let wide = self.setting.wide;
        let params = pointer_list(param_count, wide);
        let ptr = machine(ClifTy::Ptr, wide);
        match declare(&mut self.module, name, false, &params, Some(ptr), true) {
            Ok(id) => {
                proof {
                    assert forall|i: int| 0 <= i < self.bridge_ids().len() implies is_bridge(self.functions(), #[trigger] self.bridge_ids()[i], bridge::rt_order()[i], self.is_wide()) by {
                        assert(is_bridge(before, self.bridge_ids()[i], bridge::rt_order()[i], self.is_wide()));
                        assert(before.contains_key(self.bridge_ids()[i]));
                    }
                    assert forall|i: int| 0 <= i < users0.len() implies is_program(self.functions(), (#[trigger] users0[i]).1, self.counts()[i] as nat, self.is_wide()) by {
                        assert(is_program(before, users0[i].1, self.counts()[i] as nat, self.is_wide()));
                        assert(before.contains_key(users0[i].1));
                    }
                }
                match find_user(&self.setting.users, name) {
                    Some(i) => {
                        self.setting.users.set(i, (name.to_owned(), id));
                        self.counts.set(i, param_count);
                        assert(self.users() =~= users0.update(i as int, (name@, id)));
                    },
                    None => {
                        self.setting.users.push((name.to_owned(), id));
                        self.counts.push(param_count);
                        assert(self.users() =~= users0.push((name@, id)));
                    },
                }
                proof {
                    more_is_linked(*old(self), *self);
                    self.code_stays_known(*old(self));
                }
                Ok(id)
            },
            Err(e) => {
                proof {
                    assert forall|i: int| 0 <= i < self.bridge_ids().len() implies is_bridge(self.functions(), #[trigger] self.bridge_ids()[i], bridge::rt_order()[i], self.is_wide()) by {
                        assert(is_bridge(before, self.bridge_ids()[i], bridge::rt_order()[i], self.is_wide()));
                        assert(before.contains_key(self.bridge_ids()[i]));
                        assert(self.functions().dom().contains(self.bridge_ids()[i]));
                    }
                    assert forall|i: int| 0 <= i < users0.len() implies is_program(self.functions(), (#[trigger] users0[i]).1, self.counts()[i] as nat, self.is_wide()) by {
                        assert(is_program(before, users0[i].1, self.counts()[i] as nat, self.is_wide()));
                        assert(before.contains_key(users0[i].1));
                        assert(self.functions().dom().contains(users0[i].1));
                    }
                    assert forall|k: u32| #[trigger] before.contains_key(k) implies self.functions().contains_key(k) by {
                        assert(self.functions().dom().contains(k));
                    }
                    self.code_stays_known(*old(self));
                }
                Err(e)
            },
        }
    }

    /// The object module.
    pub fn into_inner_module(self) -> (r: ObjectModule)
        ensures
            r == self.spec_module(),
    {
        self.module
    }

    /// The size in bytes of the code that was compiled last, or zero where nothing was.
    pub fn last_code_size(&self) -> (r: u32)
        ensures
            r == self.code_size(),
    {
        self.last_code_size
    }

    /// Compiles a function that was declared under the number `func_id`.
    pub fn compile_function(&mut self, ir_func: &IrFunction, func_id: u32) -> (r: Result<(), CodegenError>)
        requires
            old(self).wf(),
            emission::function_ok(*ir_func),
            Compiler::id_at(old(self).users(), func_id, 0) < old(self).users().len(),
        ensures
            compiles(r, *old(self), *final(self), *ir_func, func_id, Seq::empty()),
            (is_welcome(*ir_func, Seq::empty(), old(self).user_names()) || is_lowered(*ir_func) && fits_frame(*ir_func, Seq::empty(), old(self).user_names()))
                && can_count(*ir_func, Seq::empty(), old(self).user_names(), old(self).counts()[Compiler::id_at(old(self).users(), func_id, 0)] as nat)
                ==> r is Ok || r->Err_0@ == ErrorView::Module && old(self).turns_down(*ir_func, func_id, Seq::empty()),
    {
        let none: Vec<Repr> = Vec::new();
        assert(none@ =~= Seq::empty());
        assert(compilable::has_guards(*ir_func, Seq::empty()));
        self.compile_function_with_specs(ir_func, func_id, none.as_slice())
    }

    /// Compiles a function that was declared under the number `func_id`, with guards on the
    /// parameters that `specs` gives a representation to.
    pub fn compile_function_with_specs(&mut self, ir_func: &IrFunction, func_id: u32, specs: &[Repr]) -> (r: Result<(), CodegenError>)
        requires
            old(self).wf(),
            emission::function_ok(*ir_func),
            Compiler::id_at(old(self).users(), func_id, 0) < old(self).users().len(),
        ensures
            compiles(r, *old(self), *final(self), *ir_func, func_id, specs@),
            (is_welcome(*ir_func, specs@, old(self).user_names()) || is_lowered(*ir_func) && compilable::has_guards(*ir_func, specs@) && fits_frame(*ir_func, specs@, old(self).user_names()))
                && can_count(*ir_func, specs@, old(self).user_names(), old(self).counts()[Compiler::id_at(old(self).users(), func_id, 0)] as nat)
                ==> r is Ok || r->Err_0@ == ErrorView::Module && old(self).turns_down(*ir_func, func_id, specs@),
    {
        let at: usize = self.find_id(func_id);
        let names = self.names();
        let reprs = infer(ir_func, specs);
        proof {
            let count = self.counts()[at as int] as nat;
            if is_lowered(*ir_func) && compilable::has_guards(*ir_func, specs@) && fits_frame(*ir_func, specs@, self.user_names()) {
                lowered_functions_are_welcome(*ir_func, specs@, self.user_names());
            }
            if is_welcome(*ir_func, specs@, self.user_names()) && can_count(*ir_func, specs@, self.user_names(), count) {
                welcome_plans_are_sound(*ir_func, specs@, self.user_names(), self.setting_for(count));
            }
        }
        let plan = match plan_function(ir_func, reprs, &names, specs) {
            Ok(plan) => plan,
            Err(e) => return Err(e),
        };
        assert(plan@.ops.len() == plan.ops.len());
        self.build(func_id, at, &plan)
    }

    /// Carries out the plan of the function at `at`, and makes it the definition.
    fn build(&mut self, func_id: u32, at: usize, plan: &Plan) -> (r: Result<(), CodegenError>)
        requires
            old(self).wf(),
            at < old(self).users().len(),
            old(self).users()[at as int].1 == func_id,
        ensures
            final(self).functions() == old(self).functions(),
            final(self).users() == old(self).users(),
            final(self).counts() == old(self).counts(),
            final(self).is_wide() == old(self).is_wide(),
            final(self).bridge_ids() == old(self).bridge_ids(),
            final(self).origin() == old(self).origin(),
            final(self).knows_code(),
            builds(r, *old(self), *final(self), func_id, plan@.ops, old(self).setting_for(old(self).counts()[at as int] as nat)),
    {
        let wide = self.setting.wide;
        self.setting.params = pointer_list(self.counts[at], wide);
        assert(is_program(self.functions(), self.users()[at as int].1, self.counts()[at as int] as nat, self.is_wide()));
        assert(self.functions()[func_id].definable);
        proof {
            self.code_stays_known(*old(self));
            self.setting_fits();
        }
        let ghost sv = replay::setting_view(self.setting);
        let mut ctx = backend::new_context(&self.module, func_id);
        let mut scratch = backend::new_scratch();
        let mut builder = backend::new_builder(&mut ctx, &mut scratch);
        let ents = match carry_out(&mut builder, &mut self.module, &self.setting, &plan.ops) {
            Ok(ents) => ents,
            Err(e) => {
                proof {
                    self.code_stays_known(*old(self));
                }
                return Err(e);
            },
        };
        let asked = backend::finalize(builder);
        let ghost tried = ctx;
        let ghost module = self.module;
        assert(sv == old(self).setting_for(old(self).counts()[at as int] as nat));
        assert(replay::realizes(plan@.ops, ents@, backend::body(tried), backend::data_objects(module), sv));
        assert(is_attempt(*old(self), module, tried, func_id, plan@.ops, sv));
        match backend::define_function(&mut self.module, func_id, &mut ctx) {
            Ok(_) => {},
            Err(e) => {
                proof {
                    self.code_stays_known(*old(self));
                }
                return Err(CodegenError::Module(e));
            },
        }
        assert(self.compiled() == old(self).compiled().insert(func_id, asked@));
        self.last_code_size = backend::code_size(&ctx);
        assert(self.compiled()[func_id] == asked@);
        proof {
            reveal(Compiler::knows_code);
            reveal(Compiler::is_linked);
            if old(self).is_linked() {
                assert forall|id: u32| #[trigger] self.compiled().contains_key(id) implies backend::all_resolved(self.compiled()[id], self.functions(), self.data()) by {
                    if id != func_id {
                        assert(old(self).compiled().contains_key(id));
                        stays_resolved(old(self).compiled()[id], old(self).functions(), old(self).data(), self.functions(), self.data());
                    }
                }
            }
        }
        assert(replay::realizes(plan@.ops, ents@, self.compiled()[func_id], self.data(), sv));
        Ok(())
    }

    proof fn code_stays_known(&self, before: Compiler)
        requires
            before.knows_code(),
            self.compiled() == before.compiled(),
            forall|k: u32| #[trigger] before.functions().contains_key(k) ==> self.functions().contains_key(k),
        ensures
            self.knows_code(),
    {
        reveal(Compiler::knows_code);
    }

    fn find_id(&self, id: u32) -> (r: usize)
        requires
            Compiler::id_at(self.users(), id, 0) < self.users().len(),
        ensures
            r == Compiler::id_at(self.users(), id, 0),
            r < self.users().len(),
            self.users()[r as int].1 == id,
    {
        let mut i: usize = 0;
        while i < self.setting.users.len()
            invariant
                i <= self.setting.users@.len(),
                self.users() == replay::users_view(self.setting.users@),
                Compiler::id_at(self.users(), id, 0) == Compiler::id_at(self.users(), id, i as int),
                Compiler::id_at(self.users(), id, 0) < self.users().len(),
            decreases self.setting.users@.len() - i,
        {
            if self.setting.users[i].1 == id {
                return i;
            }
            i += 1;
        }
        i
    }

    fn names(&self) -> (r: Vec<String>)
        ensures
            codegen::names_view(r@) == self.user_names(),
    {
        let mut out: Vec<String> = Vec::new();
        let mut i: usize = 0;
        while i < self.setting.users.len()
            invariant
                i <= self.setting.users@.len(),
                self.users() == replay::users_view(self.setting.users@),
                out@.len() == i,
                forall|k: int| 0 <= k < i ==> (#[trigger] out@[k])@ == self.setting.users@[k].0@,
            decreases self.setting.users@.len() - i,
        {
            out.push(self.setting.users[i].0.clone());
            i += 1;
        }
        assert(codegen::names_view(out@) =~= self.user_names());
        out
    }

    proof fn setting_fits(&self)
        requires
            self.wf(),
        ensures
            replay::setting_ok(self.setting, self.functions()),
    {
        assert forall|f: RtFn| self.functions().contains_key(self.setting.rt@[#[trigger] bridge::rt_index(f)])
            && self.functions()[self.setting.rt@[bridge::rt_index(f)]].result == replay::rt_machine_result(f, self.setting.wide) by {
            bridge::declared_exactly_once(f, bridge::rt_index(f));
            assert(is_bridge(self.functions(), self.bridge_ids()[bridge::rt_index(f)], bridge::rt_order()[bridge::rt_index(f)], self.is_wide()));
        }
        assert forall|i: int| 0 <= i < self.setting.users@.len() implies self.functions().contains_key((#[trigger] self.setting.users@[i]).1)
            && self.functions()[self.setting.users@[i].1].result == Some(backend::machine_ty(ClifTy::Ptr, self.setting.wide)) by {
            assert(self.users()[i].1 == self.setting.users@[i].1);
            assert(is_program(self.functions(), self.users()[i].1, self.counts()[i] as nat, self.is_wide()));
        }
    }

    /// The bytes of the object file.
    pub fn finish(self) -> (r: Result<Vec<u8>, CodegenError>)
        requires
            self.is_whole(),
        ensures
            match r {
                Ok(bytes) => backend::object_file(self.spec_module()) == Some(bytes@),
                Err(e) => backend::object_file(self.spec_module()) is None && e@ == ErrorView::Codegen("failed to emit object code"@),
            },
    {
        assert(self.origin() == backend::origin(self.module));
        assert(self.functions() == backend::functions(self.module));
        assert(self.data() == backend::data_objects(self.module));
        assert(self.compiled() == backend::bodies(self.module));
        proof {
            reveal(Compiler::is_linked);
        }
        match backend::emit_object(self.module) {
            Ok(bytes) => Ok(bytes),
            Err(_) => Err(CodegenError::Codegen("failed to emit object code".to_owned())),
        }
    }
}

/// The stack slots of the function's plan fit in a frame.
pub open spec fn fits_frame(f: IrFunction, specs: Seq<Repr>, names: Seq<Seq<char>>) -> bool {
    emission::function_plan(f, typeinfer::unboxed(typeinfer::solution(f, specs)), names, specs) matches Ok(plan) ==> replay::frame(plan.ops) <= backend::MAX_FRAME
}

/// A function that is declared with `count` parameters takes no more, and no block of its plan comes to
/// more parameters than can be counted.
pub open spec fn can_count(f: IrFunction, specs: Seq<Repr>, names: Seq<Seq<char>>, count: nat) -> bool {
    &&& f.spec_abi_param_count() <= count
    &&& emission::function_plan(f, typeinfer::unboxed(typeinfer::solution(f, specs)), names, specs) matches Ok(plan) ==> replay::are_light(plan.ops, count)
}

/// Nothing but the module can refuse the function: its blocks and lists are regular, inference knows
/// its values, what it calls is among `names`, its specialized parameters are held as they come, and
/// its stack slots fit in a frame.
#[verifier::opaque]
pub open spec fn is_welcome(f: IrFunction, specs: Seq<Repr>, names: Seq<Seq<char>>) -> bool {
    let m = typeinfer::solution(f, specs);
    &&& feasible::is_regular(f)
    &&& fits_frame(f, specs, names)
    &&& forall|b: int| 0 <= b < f.blocks@.len() ==> soundness::block_known(#[trigger] f.blocks@[b], m)
    &&& forall|b: int| 0 <= b < f.blocks@.len() ==> soundness::block_supported(#[trigger] f.blocks@[b], names, f.spec_takes_region_param())
    &&& emission::is_specialized(f, specs) ==> feasible::params_fit(feasible::reprs_of(m), f.params@, specs)
}

/// A function as lowering makes them, with lists that are no longer than a stack slot has cells.
#[verifier::opaque]
pub open spec fn is_lowered(f: IrFunction) -> bool {
    lowered::is_whole(ir::function_view(f)) && compilable::is_modest(f)
}

/// What lowering makes is welcome where its stack slots fit in a frame, whatever functions there are
/// to call, and whatever numbers its parameters are specialized to.
pub proof fn lowered_functions_are_welcome(f: IrFunction, specs: Seq<Repr>, names: Seq<Seq<char>>)
    requires
        is_lowered(f),
        compilable::has_guards(f, specs),
        fits_frame(f, specs, names),
        typeinfer::is_least_solution(f, specs, typeinfer::solution(f, specs)),
    ensures
        is_welcome(f, specs, names),
{
    reveal(is_welcome);
    reveal(is_lowered);
    lowered::whole_functions_can_be_translated(f, names);
    compilable::whole_functions_are_known(f, specs, typeinfer::solution(f, specs));
    compilable::whole_functions_are_regular(f);
    compilable::specialized_parameters_fit(f, specs, typeinfer::solution(f, specs));
}

/// A welcome function has a plan, and one that can be carried out.
pub proof fn welcome_plans_are_sound(f: IrFunction, specs: Seq<Repr>, names: Seq<Seq<char>>, s: SettingView)
    requires
        emission::function_ok(f),
        is_welcome(f, specs, names),
        typeinfer::is_least_solution(f, specs, typeinfer::solution(f, specs)),
        names == s.users.map_values(|u: (Seq<char>, u32)| u.0),
        feasible::has_params(s, f.spec_abi_param_count()),
        can_count(f, specs, names, s.params.len()),
    ensures
        emission::function_plan(f, typeinfer::unboxed(typeinfer::solution(f, specs)), names, specs) matches Ok(plan) && (plan.ops.len() <= usize::MAX ==> replay::is_sound(plan.ops, s)),
{
    reveal(is_welcome);
    feasible::inferred_plans_can_be_carried_out(f, specs, typeinfer::solution(f, specs), names, s);
}

/// What a module knows it still knows when it knows more.
proof fn stays_resolved(h: Seq<Request>, f: Map<u32, FuncDecl>, d: Map<u32, DataDecl>, g: Map<u32, FuncDecl>, e: Map<u32, DataDecl>)
    requires
        backend::all_resolved(h, f, d),
        forall|k: u32| #[trigger] f.contains_key(k) ==> g.contains_key(k),
        forall|k: u32| #[trigger] d.contains_key(k) ==> e.contains_key(k),
    ensures
        backend::all_resolved(h, g, e),
{
    assert forall|k: int| 0 <= k < h.len() implies backend::is_resolved(#[trigger] h[k], g, e) by {
        assert(backend::is_resolved(h[k], f, d));
    }
}

proof fn more_is_linked(a: Compiler, b: Compiler)
    requires
        b.compiled() == a.compiled(),
        b.data() == a.data(),
        functions_kept(a.functions(), b.functions()),
    ensures
        a.is_linked() ==> b.is_linked(),
{
    reveal(Compiler::is_linked);
    if a.is_linked() {
        assert forall|id: u32| #[trigger] b.compiled().contains_key(id) implies backend::all_resolved(b.compiled()[id], b.functions(), b.data()) by {
            assert(a.compiled().contains_key(id));
            stays_resolved(a.compiled()[id], a.functions(), a.data(), b.functions(), b.data());
        }
    }
}

/// A name that has been declared can be declared again with as many parameters, and with no other
/// number of them.
pub proof fn a_name_keeps_its_signature(c: Compiler, name: Seq<char>, id: u32, count: nat, again: nat)
    requires
        names_are_unique(c.functions()),
        is_program(c.functions(), id, count, c.is_wide()),
        c.functions()[id].name == name,
        c.functions()[id].system_v == backend::convention(c.spec_module(), false),
        !name.contains('\0'),
    ensures
        c.can_declare(name, again) <==> again == count,
{
    let funcs = c.functions();
    let ptr = Some(backend::machine_ty(ClifTy::Ptr, c.is_wide()));
    let sv = backend::convention(c.spec_module(), false);
    assert(pointers(count, c.is_wide()).len() == count);
    assert(pointers(again, c.is_wide()).len() == again);
    if c.can_declare(name, again) {
        assert(backend::agrees(funcs[id], name, pointers(again, c.is_wide()), ptr, sv));
    }
    if again == count {
        assert forall|k: u32| #[trigger] funcs.contains_key(k) implies backend::agrees(funcs[k], name, pointers(again, c.is_wide()), ptr, sv) by {
            if funcs[k].name == name {
                assert(funcs.contains_key(id));
                assert(k == id);
            }
        }
    }
}

/// What a module for the host is made with.
pub open spec fn is_for_host(o: Option<Origin>) -> bool {
    &&& o is Some
    &&& o->0.name == "clojurust_aot"@
    &&& o->0.opt_level == "speed"@
    &&& o->0.pic
}

/// The error of a host that nothing can be compiled for.
pub open spec fn is_setup_error(e: ErrorView) -> bool {
    ||| e == ErrorView::Module
    ||| exists|text: Seq<char>| e == ErrorView::Codegen(#[trigger] ("failed to create ISA builder: "@ + text))
    ||| exists|text: Seq<char>| e == ErrorView::Codegen(#[trigger] ("failed to build ISA: "@ + text))
}

/// What comes of setting up a compiler for the host: one that has compiled nothing, or an error.
pub open spec fn is_made(made: Result<Compiler, CodegenError>) -> bool {
    match made {
        Ok(c) => {
            &&& c.wf()
            &&& is_for_host(c.origin())
            &&& c.is_whole()
            &&& names_are_unique(c.functions())
            &&& c.users().len() == 0
            &&& c.compiled() == Map::<u32, Seq<Request>>::empty()
            &&& c.code_size() == 0
        },
        Err(e) => is_setup_error(e@),
    }
}

/// What compiling a function comes to: its plan has been carried out and made the definition of
/// the function, or nothing has been defined and the error says why.
pub open spec fn compiles(r: Result<(), CodegenError>, before: Compiler, after: Compiler, func: IrFunction, id: u32, specs: Seq<Repr>) -> bool {
    let s = before.setting_for(before.counts()[Compiler::id_at(before.users(), id, 0)] as nat);
    &&& after.wf()
    &&& after.functions() == before.functions()
    &&& after.users() == before.users()
    &&& after.counts() == before.counts()
    &&& after.is_wide() == before.is_wide()
    &&& after.bridge_ids() == before.bridge_ids()
    &&& after.origin() == before.origin()
    &&& match before.plan_of(func, specs) {
        Err(e) => r is Err && r->Err_0@ == e && after.compiled() == before.compiled() && after.data() == before.data() && after.code_size() == before.code_size(),
        Ok(plan) => builds(r, before, after, id, plan.ops, s),
    }
}

/// What the module is handed as function `id` is what the plan says: it knows the functions and the
/// code that the compiler has, and the function in the context was built by the plan.
pub open spec fn is_attempt(c: Compiler, m: ObjectModule, ctx: Context, id: u32, ops: Seq<OpView>, s: SettingView) -> bool {
    &&& backend::functions(m) == c.functions()
    &&& backend::bodies(m) == c.compiled()
    &&& backend::origin(m) == c.origin()
    &&& replay::data_kept(c.data(), backend::data_objects(m))
    &&& backend::body_params(ctx) == c.functions()[id].params
    &&& exists|ents: Seq<EntView>| #[trigger] replay::realizes(ops, ents, backend::body(ctx), backend::data_objects(m), s)
}

/// The code generator does not take what the plan comes to.
pub open spec fn is_rejected(c: Compiler, id: u32, ops: Seq<OpView>, s: SettingView) -> bool {
    exists|m: ObjectModule, ctx: Context| #[trigger] is_attempt(c, m, ctx, id, ops, s) && !backend::accepts(m, id, ctx)
}

/// The code generator takes what the plan comes to.
pub open spec fn is_accepted(c: Compiler, id: u32, ops: Seq<OpView>, s: SettingView) -> bool {
    exists|m: ObjectModule, ctx: Context| #[trigger] is_attempt(c, m, ctx, id, ops, s) && backend::accepts(m, id, ctx)
}

/// The module turns down what a plan comes to: the function has code already, or the code generator
/// does not take it.
pub open spec fn is_turned_down(c: Compiler, id: u32, ops: Seq<OpView>, s: SettingView) -> bool {
    c.compiled().contains_key(id) || is_rejected(c, id, ops, s)
}

/// What carrying out a plan comes to.  A plan that is sound is refused where the module turns down what
/// it comes to, and nowhere else.
pub open spec fn builds(r: Result<(), CodegenError>, before: Compiler, after: Compiler, id: u32, ops: Seq<OpView>, s: SettingView) -> bool {
    match r {
        Ok(_) => {
            &&& replay::is_sound(ops, s)
            &&& is_accepted(before, id, ops, s)
            &&& before.functions()[id].definable
            &&& !before.compiled().contains_key(id)
            &&& after.compiled().contains_key(id)
            &&& after.compiled() == before.compiled().insert(id, after.compiled()[id])
            &&& exists|ents: Seq<EntView>| #[trigger] replay::realizes(ops, ents, after.compiled()[id], after.data(), s)
            &&& replay::data_kept(before.data(), after.data())
            &&& before.is_linked() ==> after.is_linked()
            &&& backend::code_sizes(after.spec_module()).contains_key(id)
            &&& after.code_size() == backend::code_sizes(after.spec_module())[id]
        },
        Err(e) => {
            &&& after.compiled() == before.compiled()
            &&& after.code_size() == before.code_size()
            &&& if replay::is_sound(ops, s) {
                e@ == ErrorView::Module && is_turned_down(before, id, ops, s)
            } else {
                e@ == ErrorView::Codegen(replay::refusal())
            }
        },
    }
}

/// A compiler into a module of this library's that pointers of 64 or else of 32 bits go with.
pub fn new_compiler_from_module(module: ObjectModule, wide: bool) -> (r: Result<Compiler, CodegenError>)
    requires
        backend::origin(module) is Some,
        forall|id: u32| #[trigger] backend::bodies(module).contains_key(id) ==> backend::functions(module).contains_key(id),
    ensures
        r is Ok <==> takes_bridge(backend::functions(module), wide),
        match r {
            Ok(c) => {
                &&& c.wf()
                &&& c.origin() == backend::origin(module)
                &&& c.is_wide() == wide
                &&& c.users().len() == 0
                &&& c.compiled() == backend::bodies(module)
                &&& c.data() == backend::data_objects(module)
                &&& functions_kept(backend::functions(module), c.functions())
                &&& nothing_to_define(backend::functions(module), c.functions())
                &&& names_are_unique(backend::functions(module)) ==> names_are_unique(c.functions())
                &&& (forall|id: u32| #[trigger] backend::bodies(module).contains_key(id) ==> backend::all_resolved(
                    backend::bodies(module)[id],
                    backend::functions(module),
                    backend::data_objects(module),
                )) ==> c.is_linked()
                &&& c.code_size() == 0
            },
            Err(e) => e@ == ErrorView::Module,
        },
{
    let ghost before = module;
    let mut module = module;
    match declare_runtime_funcs(&mut module, wide) {
        Ok(rt) => {
            let c = Compiler {
                module,
                setting: Setting { wide, rt, users: Vec::new(), params: Vec::new() },
                counts: Vec::new(),
                last_code_size: 0,
            };
            proof {
                let first = Compiler { module: before, ..c };
                reveal(Compiler::is_linked);
                reveal(Compiler::knows_code);
                more_is_linked(first, c);
                c.code_stays_known(first);
            }
            Ok(c)
        },
        Err(e) => Err(e),
    }
}

} // verus!
