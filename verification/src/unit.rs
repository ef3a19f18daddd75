//! A unit: a function with its inner functions, compiled into one object module.
use crate::backend;
use crate::backend::{DataDecl, Request};
use crate::bridge::ClifTy;
use crate::clif::PlanView;
use crate::codegen::CodegenError;
use crate::compiler;
use crate::compiler::Compiler;
use crate::emission;
use crate::emission::ErrorView;
use crate::ir;
use crate::ir::{find_block, Block, BlockId, Inst, IrFunction, KnownFn, Repr, Terminator};
use crate::replay;
use crate::replay::{EntView, SettingView};
use crate::typeinfer;
use vstd::prelude::*;
use vstd::string::*;

verus! {

/// The name that an inner function is compiled under.
pub open spec fn symbol_of(f: IrFunction) -> Seq<char> {
    match f.name {
        Some(name) => name@,
        None => "__cljrs_anon"@,
    }
}

/// The name that an inner function is compiled under.
pub fn inner_symbol(f: &IrFunction) -> (r: String)
    ensures
        r@ == symbol_of(*f),
{
    match &f.name {
        Some(name) => name.clone(),
        None => "__cljrs_anon".to_owned(),
    }
}

/// The first `n` functions of a list with their inner functions, each behind those inside it.
pub open spec fn inner_first(fs: Seq<IrFunction>, n: int) -> Seq<IrFunction>
    decreases fs, n,
{
    if n <= 0 || n > fs.len() {
        Seq::empty()
    } else {
        (inner_first(fs, n - 1) + inner_first(fs[n - 1].subfunctions@, fs[n - 1].subfunctions@.len() as int)).push(fs[n - 1])
    }
}

/// The inner functions of a function, each behind those inside it.
pub open spec fn inner_functions(f: IrFunction) -> Seq<IrFunction> {
    inner_first(f.subfunctions@, f.subfunctions@.len() as int)
}

/// A function that takes no more parameters than a machine can count.
pub open spec fn is_countable(f: IrFunction) -> bool {
    f.params@.len() + 1 <= usize::MAX
}

/// All of the functions can be translated.
pub open spec fn all_ok(fs: Seq<IrFunction>) -> bool {
    forall|i: int| 0 <= i < fs.len() ==> emission::function_ok(#[trigger] fs[i]) && is_countable(fs[i])
}

/// The compiler knows a function under each of the names.
pub open spec fn knows_all(names: Seq<Seq<char>>, fs: Seq<IrFunction>) -> bool {
    forall|i: int| 0 <= i < fs.len() ==> names.contains(symbol_of(#[trigger] fs[i]))
}

/// The names with one more, where it is new.
pub open spec fn with_name(names: Seq<Seq<char>>, name: Seq<char>) -> Seq<Seq<char>> {
    if names.contains(name) { names } else { names.push(name) }
}

/// The names with those of the first `n` functions and their inner functions, each before those
/// inside it.
pub open spec fn with_names(names: Seq<Seq<char>>, fs: Seq<IrFunction>, n: int) -> Seq<Seq<char>>
    decreases fs, n,
{
    if n <= 0 || n > fs.len() {
        names
    } else {
        with_names(with_name(with_names(names, fs, n - 1), symbol_of(fs[n - 1])), fs[n - 1].subfunctions@, fs[n - 1].subfunctions@.len() as int)
    }
}

/// The plan of a function where functions of these names can be called.
pub open spec fn plan_for(f: IrFunction, names: Seq<Seq<char>>) -> Result<PlanView, ErrorView> {
    emission::function_plan(f, typeinfer::unboxed(typeinfer::solution(f, Seq::empty())), names, Seq::<Repr>::empty())
}

/// The settings that a function of `count` parameters is compiled in: it can call functions of
/// these names, each under a number that the module knows the name by.
pub open spec fn is_setting(c: Compiler, s: SettingView, names: Seq<Seq<char>>, count: nat) -> bool {
    &&& s.wide == c.is_wide()
    &&& s.rt == c.bridge_ids()
    &&& s.params == compiler::pointers(count, c.is_wide())
    &&& s.users.map_values(|u: (Seq<char>, u32)| u.0) == names
    &&& forall|i: int| 0 <= i < s.users.len() ==> c.functions().contains_key((#[trigger] s.users[i]).1) && c.functions()[s.users[i].1].name == s.users[i].0
}

/// The code of a function realizes its plan.
pub open spec fn is_code_of(c: Compiler, f: IrFunction, names: Seq<Seq<char>>, count: nat, code: Seq<Request>) -> bool {
    &&& plan_for(f, names) is Ok
    &&& exists|ents: Seq<EntView>, data: Map<u32, DataDecl>, s: SettingView|
        {
            &&& #[trigger] replay::realizes(plan_for(f, names)->Ok_0.ops, ents, code, data, s)
            &&& replay::data_kept(data, c.data())
            &&& is_setting(c, s, names, count)
        }
}

/// The module knows the function under the name and the number, with code that realizes its plan.
pub open spec fn is_built(c: Compiler, f: IrFunction, symbol: Seq<char>, names: Seq<Seq<char>>, count: nat, id: u32) -> bool {
    &&& compiler::is_program(c.functions(), id, count, c.is_wide())
    &&& c.functions()[id].name == symbol
    &&& c.compiled().contains_key(id)
    &&& is_code_of(c, f, names, count, c.compiled()[id])
}

/// What one compiler has, a later state of it has too.
pub open spec fn continues(a: Compiler, b: Compiler) -> bool {
    &&& b.is_wide() == a.is_wide()
    &&& b.bridge_ids() == a.bridge_ids()
    &&& b.origin() == a.origin()
    &&& compiler::functions_kept(a.functions(), b.functions())
    &&& compiler::names_are_unique(a.functions()) ==> compiler::names_are_unique(b.functions())
    &&& replay::data_kept(a.data(), b.data())
    &&& a.is_linked() ==> b.is_linked()
    &&& forall|k: u32| #[trigger] a.compiled().contains_key(k) ==> b.compiled().contains_key(k) && b.compiled()[k] == a.compiled()[k]
    &&& only_names(a, b)
}

/// What a later state of a compiler has and the earlier one had not bears the name of a function of the
/// program, and no name is forgotten.
#[verifier::opaque]
pub open spec fn only_names(a: Compiler, b: Compiler) -> bool {
    &&& forall|name: Seq<char>| #[trigger] a.user_names().contains(name) ==> b.user_names().contains(name)
    &&& forall|k: u32| #[trigger] b.functions().contains_key(k) ==> a.functions().contains_key(k) || b.user_names().contains(b.functions()[k].name)
    &&& forall|k: u32| #[trigger] b.compiled().contains_key(k) ==> a.compiled().contains_key(k) || b.functions().contains_key(k) && b.user_names().contains(b.functions()[k].name)
}

proof fn continues_itself(a: Compiler)
    ensures
        continues(a, a),
{
    reveal(only_names);
}

/// What a unit adds: the code of its functions, under numbers of their own.
pub open spec fn adds(a: Compiler, b: Compiler, fs: Seq<IrFunction>, names: Seq<Seq<char>>, ids: Seq<u32>) -> bool {
    &&& ids.len() == fs.len()
    &&& ids.no_duplicates()
    &&& forall|i: int| 0 <= i < ids.len() ==> !a.compiled().contains_key(#[trigger] ids[i])
    &&& forall|i: int| 0 <= i < ids.len() ==> is_built(b, fs[i], symbol_of(fs[i]), names, fs[i].spec_abi_param_count(), #[trigger] ids[i])
    &&& forall|k: u32| #[trigger] b.compiled().contains_key(k) ==> a.compiled().contains_key(k) || ids.contains(k)
}

/// Why a unit is refused, other than by the module: a function, declared with `count` parameters,
/// has no plan, or one that cannot be carried out.
pub open spec fn is_refused(e: ErrorView, a: Compiler, f: IrFunction, names: Seq<Seq<char>>, count: nat) -> bool {
    &&& !(compiler::is_welcome(f, Seq::empty(), names) && compiler::can_count(f, Seq::empty(), names, count))
    &&& match plan_for(f, names) {
        Err(why) => e == why,
        Ok(plan) => {
            &&& e == ErrorView::Codegen(replay::refusal())
            &&& exists|c: Compiler, s: SettingView| continues(a, c) && #[trigger] is_setting(c, s, names, count) && !replay::is_sound(plan.ops, s)
        },
    }
}

proof fn refused_before(e: ErrorView, a: Compiler, b: Compiler, f: IrFunction, names: Seq<Seq<char>>, count: nat)
    requires
        continues(a, b),
        is_refused(e, b, f, names, count),
    ensures
        is_refused(e, a, f, names, count),
{
    if plan_for(f, names) is Ok {
        let ops = plan_for(f, names)->Ok_0.ops;
        let (c, s) = choose|c: Compiler, s: SettingView| continues(b, c) && #[trigger] is_setting(c, s, names, count) && !replay::is_sound(ops, s);
        continues_on(a, b, c);
        assert(continues(a, c) && is_setting(c, s, names, count) && !replay::is_sound(ops, s));
    }
}

/// A function of that name has code.
pub open spec fn is_defined(c: Compiler, symbol: Seq<char>) -> bool {
    exists|k: u32| #[trigger] c.compiled().contains_key(k) && c.functions()[k].name == symbol
}

/// The code generator does not take what the plan of the function comes to, once the compiler has come
/// as far as the function.
pub open spec fn is_rejected(a: Compiler, f: IrFunction, symbol: Seq<char>, names: Seq<Seq<char>>, count: nat) -> bool {
    exists|c: Compiler, id: u32, s: SettingView| #[trigger] is_rejected_in(a, c, f, symbol, names, count, id, s)
}

/// The code generator does not take what the plan of the function comes to in this state of the compiler.
pub open spec fn is_rejected_in(a: Compiler, c: Compiler, f: IrFunction, symbol: Seq<char>, names: Seq<Seq<char>>, count: nat, id: u32, s: SettingView) -> bool {
    &&& continues(a, c)
    &&& compiler::is_program(c.functions(), id, count, c.is_wide())
    &&& c.functions()[id].name == symbol
    &&& is_setting(c, s, names, count)
    &&& plan_for(f, names) is Ok
    &&& replay::is_sound(plan_for(f, names)->Ok_0.ops, s)
    &&& compiler::is_rejected(c, id, plan_for(f, names)->Ok_0.ops, s)
}

/// One of the functions has code already, or two of them bear one name.
pub open spec fn is_doubled(a: Compiler, fs: Seq<IrFunction>) -> bool {
    ||| exists|i: int| 0 <= i < fs.len() && is_defined(a, symbol_of(#[trigger] fs[i]))
    ||| exists|i: int, j: int| 0 <= i < j < fs.len() && symbol_of(#[trigger] fs[i]) == symbol_of(#[trigger] fs[j])
}

/// The module refuses one of the functions, all of which it knows: it was declared with another number
/// of parameters, it has code already, or the code generator does not take it.
pub open spec fn is_module_error(a: Compiler, fs: Seq<IrFunction>, names: Seq<Seq<char>>) -> bool {
    ||| exists|i: int| 0 <= i < fs.len() && !is_free(a, #[trigger] fs[i])
    ||| is_doubled(a, fs)
    ||| exists|i: int| 0 <= i < fs.len() && is_rejected(a, #[trigger] fs[i], symbol_of(fs[i]), names, fs[i].spec_abi_param_count())
}

/// The error of a list of functions: the module's, or that of one of the functions.
pub open spec fn is_error_of(e: ErrorView, a: Compiler, fs: Seq<IrFunction>, names: Seq<Seq<char>>) -> bool {
    ||| e == ErrorView::Module && is_module_error(a, fs, names)
    ||| exists|i: int| 0 <= i < fs.len() && is_refused(e, a, #[trigger] fs[i], names, fs[i].spec_abi_param_count())
}

proof fn rejected_before(a: Compiler, b: Compiler, f: IrFunction, symbol: Seq<char>, names: Seq<Seq<char>>, count: nat)
    requires
        continues(a, b),
        is_rejected(b, f, symbol, names, count),
    ensures
        is_rejected(a, f, symbol, names, count),
{
    let (c, id, s) = choose|c: Compiler, id: u32, s: SettingView| #[trigger] is_rejected_in(b, c, f, symbol, names, count, id, s);
    continues_on(a, b, c);
    assert(is_rejected_in(a, c, f, symbol, names, count, id, s));
}

/// What has code once functions have been compiled had it before, or is one of them.
proof fn defined_before(a: Compiler, b: Compiler, before: Seq<IrFunction>, names: Seq<Seq<char>>, ids: Seq<u32>, symbol: Seq<char>)
    requires
        b.functions() == a.functions(),
        adds(a, b, before, names, ids),
        is_defined(b, symbol),
    ensures
        is_defined(a, symbol) || is_among(symbol, before),
{
    let k = choose|k: u32| #[trigger] b.compiled().contains_key(k) && b.functions()[k].name == symbol;
    if a.compiled().contains_key(k) {
        assert(a.functions()[k].name == symbol);
    } else {
        let i = choose|i: int| 0 <= i < ids.len() && ids[i] == k;
        assert(is_built(b, before[i], symbol_of(before[i]), names, before[i].spec_abi_param_count(), ids[i]));
        assert(symbol_of(before[i]) == symbol);
    }
}

/// What the module refuses behind other functions it refuses among all of them.
proof fn module_error_before(a: Compiler, b: Compiler, before: Seq<IrFunction>, part: Seq<IrFunction>, all: Seq<IrFunction>, names: Seq<Seq<char>>, ids: Seq<u32>)
    requires
        continues(a, b),
        b.functions() == a.functions(),
        adds(a, b, before, names, ids),
        before.len() + part.len() <= all.len(),
        forall|k: int| 0 <= k < before.len() ==> #[trigger] all[k] == before[k],
        forall|k: int| 0 <= k < part.len() ==> all[before.len() + k] == #[trigger] part[k],
        is_module_error(b, part, names),
    ensures
        is_module_error(a, all, names),
{
    let n = before.len() as int;
    if exists|i: int| 0 <= i < part.len() && !is_free(b, #[trigger] part[i]) {
        let i = choose|i: int| 0 <= i < part.len() && !is_free(b, #[trigger] part[i]);
        assert(all[n + i] == part[i]);
        assert(!is_free(a, all[n + i]));
    } else if exists|i: int| 0 <= i < part.len() && is_defined(b, symbol_of(#[trigger] part[i])) {
        let i = choose|i: int| 0 <= i < part.len() && is_defined(b, symbol_of(#[trigger] part[i]));
        let symbol = symbol_of(part[i]);
        defined_before(a, b, before, names, ids, symbol);
        assert(all[n + i] == part[i]);
        if is_defined(a, symbol) {
            assert(is_defined(a, symbol_of(all[n + i])));
        } else {
            let j = choose|j: int| 0 <= j < before.len() && symbol_of(#[trigger] before[j]) == symbol;
            assert(all[j] == before[j]);
            assert(symbol_of(all[j]) == symbol_of(all[n + i]));
        }
        assert(is_doubled(a, all));
    } else if is_doubled(b, part) {
        let (i, j) = choose|i: int, j: int| 0 <= i < j < part.len() && symbol_of(#[trigger] part[i]) == symbol_of(#[trigger] part[j]);
        assert(all[n + i] == part[i]);
        assert(all[n + j] == part[j]);
        assert(symbol_of(all[n + i]) == symbol_of(all[n + j]));
        assert(is_doubled(a, all));
    } else {
        let i = choose|i: int| 0 <= i < part.len() && is_rejected(b, #[trigger] part[i], symbol_of(part[i]), names, part[i].spec_abi_param_count());
        rejected_before(a, b, part[i], symbol_of(part[i]), names, part[i].spec_abi_param_count());
        assert(all[n + i] == part[i]);
        assert(is_rejected(a, all[n + i], symbol_of(all[n + i]), names, all[n + i].spec_abi_param_count()));
    }
}

/// The error of functions behind others is the error of all of them.
proof fn error_before(e: ErrorView, a: Compiler, b: Compiler, before: Seq<IrFunction>, part: Seq<IrFunction>, all: Seq<IrFunction>, names: Seq<Seq<char>>, ids: Seq<u32>)
    requires
        continues(a, b),
        b.functions() == a.functions(),
        adds(a, b, before, names, ids),
        before.len() + part.len() <= all.len(),
        forall|k: int| 0 <= k < before.len() ==> #[trigger] all[k] == before[k],
        forall|k: int| 0 <= k < part.len() ==> all[before.len() + k] == #[trigger] part[k],
        is_error_of(e, b, part, names),
    ensures
        is_error_of(e, a, all, names),
{
    if e == ErrorView::Module && is_module_error(b, part, names) {
        module_error_before(a, b, before, part, all, names, ids);
    } else {
        let k = choose|k: int| 0 <= k < part.len() && is_refused(e, b, #[trigger] part[k], names, part[k].spec_abi_param_count());
        let at = before.len() + k;
        refused_before(e, a, b, part[k], names, part[k].spec_abi_param_count());
        assert(all[at] == part[k]);
        assert(is_refused(e, a, all[at], names, all[at].spec_abi_param_count()));
    }
}

proof fn continues_on(a: Compiler, b: Compiler, c: Compiler)
    requires
        continues(a, b),
        continues(b, c),
    ensures
        continues(a, c),
{
    assert forall|k: u32| #[trigger] a.functions().contains_key(k) implies c.functions().contains_key(k) && backend::same_signature(a.functions()[k], c.functions()[k])
        && (a.functions()[k].definable ==> c.functions()[k].definable) by {
        assert(b.functions().contains_key(k));
    }
    assert forall|k: u32| #[trigger] a.data().contains_key(k) implies c.data().contains_key(k) && c.data()[k] == a.data()[k] by {
        assert(b.data().contains_key(k));
    }
    assert forall|k: u32| #[trigger] c.data().contains_key(k) && !a.data().contains_key(k) implies !(c.data()[k].init is Missing) by {
        if b.data().contains_key(k) {
            assert(c.data()[k] == b.data()[k]);
        }
    }
    assert forall|k: u32| #[trigger] a.compiled().contains_key(k) implies c.compiled().contains_key(k) && c.compiled()[k] == a.compiled()[k] by {
        assert(b.compiled().contains_key(k));
    }
    names_go_on(a, b, c);
}

proof fn names_go_on(a: Compiler, b: Compiler, c: Compiler)
    requires
        only_names(a, b),
        only_names(b, c),
        compiler::functions_kept(b.functions(), c.functions()),
    ensures
        only_names(a, c),
{
    reveal(only_names);
    assert forall|k: u32| #[trigger] c.functions().contains_key(k) && !a.functions().contains_key(k) implies c.user_names().contains(c.functions()[k].name) by {
        if b.functions().contains_key(k) {
            assert(b.user_names().contains(b.functions()[k].name));
        }
    }
    assert forall|k: u32| #[trigger] c.compiled().contains_key(k) && !a.compiled().contains_key(k) implies c.functions().contains_key(k) && c.user_names().contains(c.functions()[k].name) by {
        if b.compiled().contains_key(k) {
            assert(b.functions().contains_key(k));
            assert(b.user_names().contains(b.functions()[k].name));
        }
    }
}

/// What has been built stays built.
pub proof fn built_stays(a: Compiler, b: Compiler, f: IrFunction, symbol: Seq<char>, names: Seq<Seq<char>>, count: nat, id: u32)
    requires
        continues(a, b),
        is_built(a, f, symbol, names, count, id),
    ensures
        is_built(b, f, symbol, names, count, id),
{
    let code = a.compiled()[id];
    assert(a.functions().contains_key(id));
    let (ents, data, s) = choose|ents: Seq<EntView>, data: Map<u32, DataDecl>, s: SettingView|
        {
            &&& #[trigger] replay::realizes(plan_for(f, names)->Ok_0.ops, ents, code, data, s)
            &&& replay::data_kept(data, a.data())
            &&& is_setting(a, s, names, count)
        };
    assert(replay::data_kept(data, b.data())) by {
        assert forall|k: u32| #[trigger] data.contains_key(k) implies b.data().contains_key(k) && b.data()[k] == data[k] by {
            assert(a.data().contains_key(k));
        }
        assert forall|k: u32| #[trigger] b.data().contains_key(k) && !data.contains_key(k) implies !(b.data()[k].init is Missing) by {
            if a.data().contains_key(k) {
                assert(b.data()[k] == a.data()[k]);
            }
        }
    }
    assert(is_setting(b, s, names, count)) by {
        assert forall|i: int| 0 <= i < s.users.len() implies b.functions().contains_key((#[trigger] s.users[i]).1) && b.functions()[s.users[i].1].name == s.users[i].0 by {
            assert(a.functions().contains_key(s.users[i].1));
        }
    }
    assert(replay::realizes(plan_for(f, names)->Ok_0.ops, ents, b.compiled()[id], data, s));
}

proof fn user_is_named(users: Seq<(Seq<char>, u32)>, name: Seq<char>, i: int)
    requires
        0 <= i <= users.len(),
    ensures
        i <= replay::user_at(users, name, i) <= users.len(),
        replay::user_at(users, name, i) < users.len() ==> users[replay::user_at(users, name, i)].0 == name,
        forall|k: int| i <= k < replay::user_at(users, name, i) ==> (#[trigger] users[k]).0 != name,
    decreases users.len() - i,
{
    if i < users.len() && users[i].0 != name {
        user_is_named(users, name, i + 1);
    }
}

proof fn id_is_found(users: Seq<(Seq<char>, u32)>, id: u32, i: int, at: int)
    requires
        0 <= i <= at < users.len(),
        users[at].1 == id,
    ensures
        i <= Compiler::id_at(users, id, i) <= at,
        users[Compiler::id_at(users, id, i)].1 == id,
    decreases users.len() - i,
{
    if users[i].1 != id {
        id_is_found(users, id, i + 1, at);
    }
}

/// Declares a function and compiles it.
fn compile_named(c: &mut Compiler, f: &IrFunction, symbol: &str, count: usize) -> (r: Result<(), CodegenError>)
    requires
        old(c).wf(),
        emission::function_ok(*f),
    ensures
        final(c).wf(),
        match r {
            Ok(_) => {
                &&& continues(*old(c), *final(c))
                &&& final(c).user_names() == with_name(old(c).user_names(), symbol@)
                &&& old(c).user_names().contains(symbol@) ==> final(c).functions() == old(c).functions()
                &&& exists|id: u32| #[trigger] is_one_more(*old(c), *final(c), id) && is_built(*final(c), *f, symbol@, final(c).user_names(), count as nat, id)
            },
            Err(e) => {
                ||| e@ == ErrorView::Module && is_unwanted(*old(c), *f, symbol@, with_name(old(c).user_names(), symbol@), count as nat)
                ||| is_refused(e@, *old(c), *f, with_name(old(c).user_names(), symbol@), count as nat)
            },
        },
{
    let ghost a = *c;
    let id: u32 = match c.declare_function(symbol, count) {
        Ok(id) => id,
        Err(e) => return Err(e),
    };
    let ghost b = *c;
    proof {
        declared(a, b, symbol@, id);
        let at = replay::user_at(a.users(), symbol@, 0);
        user_is_named(a.users(), symbol@, 0);
        id_is_found(b.users(), id, 0, at);
    }
    let r = c.compile_function(f, id);
    proof {
        let k = Compiler::id_at(b.users(), id, 0);
        assert(compiler::is_program(b.functions(), b.users()[k].1, b.counts()[k] as nat, b.is_wide()));
        assert(b.functions()[id].params.len() == count);
        assert(b.counts()[k] == count);
        let s = b.setting_for(count as nat);
        assert(s.users.map_values(|u: (Seq<char>, u32)| u.0) == b.user_names());
        assert(is_setting(b, s, b.user_names(), count as nat)) by {
            assert forall|i: int| 0 <= i < s.users.len() implies b.functions().contains_key((#[trigger] s.users[i]).1) && b.functions()[s.users[i].1].name == s.users[i].0 by {
                assert(b.users()[i] == s.users[i]);
                assert(compiler::is_program(b.functions(), b.users()[i].1, b.counts()[i] as nat, b.is_wide()));
            }
        }
        if r is Ok {
            let names = c.user_names();
            assert(names == b.user_names());
            let plan = plan_for(*f, names)->Ok_0;
            let ents = choose|ents: Seq<EntView>| #[trigger] replay::realizes(plan.ops, ents, c.compiled()[id], c.data(), s);
            assert(replay::realizes(plan.ops, ents, c.compiled()[id], c.data(), s));
            assert(is_setting(*c, s, names, count as nat)) by {
                assert forall|i: int| 0 <= i < s.users.len() implies c.functions().contains_key((#[trigger] s.users[i]).1) && c.functions()[s.users[i].1].name == s.users[i].0 by {
                    assert(c.users()[i] == s.users[i]);
                    assert(compiler::is_program(c.functions(), c.users()[i].1, c.counts()[i] as nat, c.is_wide()));
                }
            }
            assert(is_code_of(*c, *f, names, count as nat, c.compiled()[id]));
            assert(is_built(*c, *f, symbol@, names, count as nat, id));
            assert(only_names(b, *c)) by {
                reveal(only_names);
                let at = replay::user_at(a.users(), symbol@, 0);
                user_is_named(a.users(), symbol@, 0);
                assert(b.user_names()[at] == symbol@);
            }
            assert(continues(b, *c));
            continues_on(a, b, *c);
            assert(is_one_more(a, *c, id));
        } else if plan_for(*f, b.user_names()) is Ok && replay::is_sound(plan_for(*f, b.user_names())->Ok_0.ops, s) {
            if b.compiled().contains_key(id) {
                reveal(Compiler::knows_code);
                assert(a.compiled().contains_key(id));
                assert(a.functions().contains_key(id));
                assert(a.functions()[id].name == symbol@);
                assert(is_defined(a, symbol@));
            } else {
                assert(is_rejected_in(a, b, *f, symbol@, b.user_names(), count as nat, id, s));
            }
        }
    }
    r
}

/// The module refuses a function under the name: it cannot be declared, it has code already, or the
/// code generator does not take it.
pub open spec fn is_unwanted(a: Compiler, f: IrFunction, symbol: Seq<char>, names: Seq<Seq<char>>, count: nat) -> bool {
    ||| !a.can_declare(symbol, count)
    ||| is_defined(a, symbol)
    ||| is_rejected(a, f, symbol, names, count)
}

/// One more function has been compiled, and it alone may be new.
pub open spec fn is_one_more(a: Compiler, b: Compiler, id: u32) -> bool {
    &&& !a.compiled().contains_key(id)
    &&& forall|k: u32| #[trigger] b.compiled().contains_key(k) ==> k == id || a.compiled().contains_key(k)
    &&& forall|k: u32| #[trigger] b.functions().contains_key(k) && b.functions()[k].definable ==> k == id || (a.functions().contains_key(k) && a.functions()[k].definable)
}

/// What a declaration comes to.
proof fn declared(a: Compiler, b: Compiler, name: Seq<char>, id: u32)
    requires
        a.wf(),
        b.wf(),
        b.is_wide() == a.is_wide(),
        b.bridge_ids() == a.bridge_ids(),
        b.compiled() == a.compiled(),
        b.data() == a.data(),
        b.origin() == a.origin(),
        compiler::functions_kept(a.functions(), b.functions()),
        a.is_linked() ==> b.is_linked(),
        b.functions().remove(id) == a.functions().remove(id),
        b.functions().contains_key(id),
        b.functions()[id].name == name,
        forall|k: u32| #[trigger] a.functions().contains_key(k) && a.functions()[k].name == name ==> k == id,
        ({
            let i = replay::user_at(a.users(), name, 0);
            b.users() == (if i < a.users().len() { a.users().update(i, (name, id)) } else { a.users().push((name, id)) })
        }),
    ensures
        continues(a, b),
        compiler::names_are_unique(a.functions()) ==> compiler::names_are_unique(b.functions()),
        b.user_names() == with_name(a.user_names(), name),
        a.user_names().contains(name) ==> b.functions() == a.functions(),
        forall|k: u32| #[trigger] b.functions().contains_key(k) && b.functions()[k].definable ==> k == id || (a.functions().contains_key(k) && a.functions()[k].definable),
{
    if compiler::names_are_unique(a.functions()) {
        compiler::names_stay_unique(a.functions(), b.functions(), name, id);
    }
    let i = replay::user_at(a.users(), name, 0);
    user_is_named(a.users(), name, 0);
    let at = if i < a.users().len() { i } else { a.users().len() as int };
    if i < a.users().len() {
        assert(a.user_names()[i] == name);
        assert(b.user_names() =~= a.user_names());
        assert(compiler::is_program(a.functions(), a.users()[i].1, a.counts()[i] as nat, a.is_wide()));
        assert(a.functions().contains_key(a.users()[i].1));
        assert(a.users()[i].1 == id);
        assert(a.functions()[id] == b.functions()[id]);
        assert(a.functions().remove(id).insert(id, a.functions()[id]) =~= a.functions());
        assert(b.functions().remove(id).insert(id, b.functions()[id]) =~= b.functions());
    } else {
        assert forall|k: int| 0 <= k < a.user_names().len() implies a.user_names()[k] != name by {
            assert(a.user_names()[k] == a.users()[k].0);
        }
        assert(b.user_names() =~= a.user_names().push(name));
    }
    assert forall|k: u32| #[trigger] b.functions().contains_key(k) && b.functions()[k].definable implies k == id || (a.functions().contains_key(k) && a.functions()[k].definable) by {
        if k != id {
            let was = a.functions().remove(id);
            let is = b.functions().remove(id);
            assert(is.dom().contains(k));
            assert(was.dom().contains(k));
            assert(was[k] == is[k]);
            assert(a.functions().dom().contains(k));
            assert(a.functions()[k] == was[k]);
            assert(b.functions()[k] == is[k]);
        }
    }
    assert(only_names(a, b)) by {
        reveal(only_names);
        assert(b.user_names()[at] == name);
        assert forall|other: Seq<char>| #[trigger] a.user_names().contains(other) implies b.user_names().contains(other) by {
            let k = choose|k: int| 0 <= k < a.user_names().len() && a.user_names()[k] == other;
            assert(b.user_names()[k] == other);
        }
        assert forall|k: u32| #[trigger] b.functions().contains_key(k) && !a.functions().contains_key(k) implies b.user_names().contains(b.functions()[k].name) by {
            if k != id {
                assert(b.functions().remove(id).dom().contains(k));
                assert(a.functions().remove(id).dom().contains(k));
                assert(a.functions().dom().contains(k));
            }
        }
    }
}

/// What can be defined could be before, or bears the name of one of the functions.
pub open spec fn only_these(a: Compiler, b: Compiler, fs: Seq<IrFunction>) -> bool {
    forall|k: u32| #[trigger] b.functions().contains_key(k) && b.functions()[k].definable ==> (a.functions().contains_key(k) && a.functions()[k].definable)
        || is_among(b.functions()[k].name, fs)
}

/// One of the functions is compiled under the name.
pub open spec fn is_among(name: Seq<char>, fs: Seq<IrFunction>) -> bool {
    exists|i: int| 0 <= i < fs.len() && symbol_of(#[trigger] fs[i]) == name
}

proof fn among_more(name: Seq<char>, fs: Seq<IrFunction>, gs: Seq<IrFunction>, f: IrFunction)
    ensures
        is_among(name, fs) || is_among(name, gs) || symbol_of(f) == name ==> is_among(name, (fs + gs).push(f)),
{
    let all = (fs + gs).push(f);
    if is_among(name, fs) {
        let i = choose|i: int| 0 <= i < fs.len() && symbol_of(#[trigger] fs[i]) == name;
        assert(all[i] == fs[i]);
    } else if is_among(name, gs) {
        let i = choose|i: int| 0 <= i < gs.len() && symbol_of(#[trigger] gs[i]) == name;
        let at = fs.len() + i;
        assert(all[at] == gs[i]);
    } else {
        let at = (fs + gs).len() as int;
        assert(all[at] == f);
    }
}

/// The function can be declared under its name.
pub open spec fn is_free(c: Compiler, f: IrFunction) -> bool {
    c.can_declare(symbol_of(f), f.spec_abi_param_count())
}

/// The functions can be declared under the same name.
pub open spec fn are_alike(f: IrFunction, g: IrFunction) -> bool {
    symbol_of(f) == symbol_of(g) ==> f.spec_abi_param_count() == g.spec_abi_param_count()
}

/// All of the functions can be declared: nothing is in the way of one of them, and those of one name
/// take as many parameters.
pub open spec fn can_declare_all(c: Compiler, fs: Seq<IrFunction>) -> bool {
    &&& forall|f: IrFunction| #[trigger] fs.contains(f) ==> is_free(c, f)
    &&& forall|f: IrFunction, g: IrFunction| #[trigger] fs.contains(f) && #[trigger] fs.contains(g) ==> are_alike(f, g)
}

/// The module knows the function under this number.
pub open spec fn is_known_as(c: Compiler, f: IrFunction, k: u32) -> bool {
    &&& c.functions().contains_key(k)
    &&& c.functions()[k].name == symbol_of(f)
    &&& c.functions()[k].params == compiler::pointers(f.spec_abi_param_count(), c.is_wide())
    &&& c.functions()[k].result == Some(backend::machine_ty(ClifTy::Ptr, c.is_wide()))
    &&& c.functions()[k].system_v == backend::convention(c.spec_module(), false)
}

/// The functions have been declared, and nothing else.
pub open spec fn is_declared(a: Compiler, c: Compiler, fs: Seq<IrFunction>) -> bool {
    &&& c.is_wide() == a.is_wide()
    &&& c.origin() == a.origin()
    &&& compiler::functions_kept(a.functions(), c.functions())
    &&& forall|k: u32| #[trigger] c.functions().contains_key(k) ==> a.functions().contains_key(k) || exists|f: IrFunction| #[trigger] fs.contains(f) && is_known_as(c, f, k)
    &&& forall|f: IrFunction| #[trigger] fs.contains(f) ==> exists|k: u32| is_known_as(c, f, k)
}

/// What is free once functions have been declared was free before, and is like each of them.
proof fn free_after(a: Compiler, c: Compiler, fs: Seq<IrFunction>, f: IrFunction)
    requires
        is_declared(a, c, fs),
    ensures
        is_free(c, f) == (is_free(a, f) && forall|g: IrFunction| #[trigger] fs.contains(g) ==> are_alike(g, f)),
{
    let name = symbol_of(f);
    let n = f.spec_abi_param_count();
    let params = compiler::pointers(n, a.is_wide());
    let result = Some(backend::machine_ty(ClifTy::Ptr, a.is_wide()));
    let sv = backend::convention(a.spec_module(), false);
    if is_free(c, f) {
        assert forall|k: u32| #[trigger] a.functions().contains_key(k) implies backend::agrees(a.functions()[k], name, params, result, sv) by {
            assert(c.functions().contains_key(k));
            assert(backend::agrees(c.functions()[k], name, params, result, sv));
        }
        assert forall|g: IrFunction| #[trigger] fs.contains(g) implies are_alike(g, f) by {
            let k = choose|k: u32| is_known_as(c, g, k);
            assert(backend::agrees(c.functions()[k], name, params, result, sv));
            assert(compiler::pointers(g.spec_abi_param_count(), c.is_wide()).len() == g.spec_abi_param_count());
            assert(params.len() == n);
        }
    }
    if is_free(a, f) && forall|g: IrFunction| #[trigger] fs.contains(g) ==> are_alike(g, f) {
        assert forall|k: u32| #[trigger] c.functions().contains_key(k) implies backend::agrees(c.functions()[k], name, params, result, sv) by {
            if a.functions().contains_key(k) {
                assert(backend::agrees(a.functions()[k], name, params, result, sv));
            } else {
                let g = choose|g: IrFunction| #[trigger] fs.contains(g) && is_known_as(c, g, k);
                assert(are_alike(g, f));
            }
        }
    }
}

/// More functions have been declared.
proof fn declared_on(a: Compiler, b: Compiler, c: Compiler, fs: Seq<IrFunction>, gs: Seq<IrFunction>, all: Seq<IrFunction>)
    requires
        is_declared(a, b, fs),
        is_declared(b, c, gs),
        forall|f: IrFunction| #[trigger] all.contains(f) <==> fs.contains(f) || gs.contains(f),
    ensures
        is_declared(a, c, all),
{
    assert forall|k: u32| #[trigger] a.functions().contains_key(k) implies c.functions().contains_key(k) && backend::same_signature(a.functions()[k], c.functions()[k])
        && (a.functions()[k].definable ==> c.functions()[k].definable) by {
        assert(b.functions().contains_key(k));
    }
    assert forall|f: IrFunction, k: u32| is_known_as(b, f, k) implies #[trigger] is_known_as(c, f, k) by {
        assert(b.functions().contains_key(k));
    }
    assert forall|k: u32| #[trigger] c.functions().contains_key(k) && !a.functions().contains_key(k) implies exists|f: IrFunction| #[trigger] all.contains(f) && is_known_as(c, f, k) by {
        if b.functions().contains_key(k) {
            let f = choose|f: IrFunction| #[trigger] fs.contains(f) && is_known_as(b, f, k);
            assert(all.contains(f) && is_known_as(c, f, k));
        } else {
            let f = choose|f: IrFunction| #[trigger] gs.contains(f) && is_known_as(c, f, k);
            assert(all.contains(f));
        }
    }
    assert forall|f: IrFunction| #[trigger] all.contains(f) implies exists|k: u32| is_known_as(c, f, k) by {
        if fs.contains(f) {
            let k = choose|k: u32| is_known_as(b, f, k);
            assert(is_known_as(c, f, k));
        }
    }
}

/// A declaration has been made.
proof fn one_declared(a: Compiler, c: Compiler, f: IrFunction, id: u32)
    requires
        c.is_wide() == a.is_wide(),
        c.origin() == a.origin(),
        compiler::functions_kept(a.functions(), c.functions()),
        c.functions().remove(id) == a.functions().remove(id),
        is_known_as(c, f, id),
    ensures
        is_declared(a, c, seq![f]),
{
    let fs = seq![f];
    assert(fs[0] == f);
    assert forall|k: u32| #[trigger] c.functions().contains_key(k) && !a.functions().contains_key(k) implies exists|g: IrFunction| #[trigger] fs.contains(g) && is_known_as(c, g, k) by {
        if k != id {
            assert(c.functions().remove(id).dom().contains(k));
            assert(a.functions().remove(id).dom().contains(k));
            assert(a.functions().dom().contains(k));
        }
        assert(fs.contains(f) && is_known_as(c, f, k));
    }
    assert forall|g: IrFunction| #[trigger] fs.contains(g) implies exists|k: u32| is_known_as(c, g, k) by {
        assert(g == f);
        assert(is_known_as(c, f, id));
    }
}

/// What can be declared behind other functions.
proof fn all_free_after(a: Compiler, c: Compiler, fs: Seq<IrFunction>, gs: Seq<IrFunction>, all: Seq<IrFunction>)
    requires
        is_declared(a, c, fs),
        can_declare_all(a, fs),
        forall|f: IrFunction| #[trigger] all.contains(f) <==> fs.contains(f) || gs.contains(f),
    ensures
        can_declare_all(c, gs) == can_declare_all(a, all),
{
    if can_declare_all(c, gs) {
        assert forall|f: IrFunction| #[trigger] all.contains(f) implies is_free(a, f) by {
            if gs.contains(f) {
                free_after(a, c, fs, f);
            }
        }
        assert forall|f: IrFunction, g: IrFunction| #[trigger] all.contains(f) && #[trigger] all.contains(g) implies are_alike(f, g) by {
            if fs.contains(f) && gs.contains(g) {
                free_after(a, c, fs, g);
            }
            if gs.contains(f) && fs.contains(g) {
                free_after(a, c, fs, f);
                assert(are_alike(g, f));
            }
        }
    }
    if can_declare_all(a, all) {
        assert forall|f: IrFunction| #[trigger] gs.contains(f) implies is_free(c, f) by {
            assert(all.contains(f));
            assert forall|g: IrFunction| #[trigger] fs.contains(g) implies are_alike(g, f) by {
                assert(all.contains(g));
            }
            free_after(a, c, fs, f);
        }
        assert forall|f: IrFunction, g: IrFunction| #[trigger] gs.contains(f) && #[trigger] gs.contains(g) implies are_alike(f, g) by {
            assert(all.contains(f) && all.contains(g));
        }
    }
}

/// Fewer functions can be declared where all can.
proof fn fewer_can_be_declared(c: Compiler, fs: Seq<IrFunction>, all: Seq<IrFunction>)
    requires
        forall|f: IrFunction| #[trigger] fs.contains(f) ==> all.contains(f),
        can_declare_all(c, all),
    ensures
        can_declare_all(c, fs),
{
}

/// The functions of a list, and those that it holds further back.
proof fn front_contains(fs: Seq<IrFunction>, n: int)
    requires
        0 <= n < fs.len(),
    ensures
        ({
            let inner = inner_first(fs[n].subfunctions@, fs[n].subfunctions@.len() as int);
            let all = inner_first(fs, fs.len() as int);
            &&& forall|f: IrFunction| #[trigger] inner_first(fs, n + 1).contains(f) <==> inner_first(fs, n).push(fs[n]).contains(f) || inner.contains(f)
            &&& forall|f: IrFunction| #[trigger] inner_first(fs, n).push(fs[n]).contains(f) <==> inner_first(fs, n).contains(f) || seq![fs[n]].contains(f)
            &&& forall|f: IrFunction| #[trigger] inner_first(fs, n + 1).contains(f) ==> all.contains(f)
        }),
{
    let before = inner_first(fs, n);
    let inner = inner_first(fs[n].subfunctions@, fs[n].subfunctions@.len() as int);
    let one = seq![fs[n]];
    let some = before.push(fs[n]);
    let next = inner_first(fs, n + 1);
    let all = inner_first(fs, fs.len() as int);
    assert(next == (before + inner).push(fs[n]));
    assert(one[0] == fs[n]);
    assert(some[before.len() as int] == fs[n]);
    assert(next[(before + inner).len() as int] == fs[n]);
    inside(fs, n + 1, fs.len() as int);
    assert forall|f: IrFunction| #[trigger] some.contains(f) <==> before.contains(f) || one.contains(f) by {
        if before.contains(f) {
            let k = choose|k: int| 0 <= k < before.len() && before[k] == f;
            assert(some[k] == f);
        }
        if some.contains(f) && !one.contains(f) {
            let k = choose|k: int| 0 <= k < some.len() && some[k] == f;
            assert(before[k] == f);
        }
    }
    assert forall|f: IrFunction| #[trigger] next.contains(f) <==> some.contains(f) || inner.contains(f) by {
        if before.contains(f) {
            let k = choose|k: int| 0 <= k < before.len() && before[k] == f;
            assert(next[k] == f);
        }
        if inner.contains(f) {
            let k = choose|k: int| 0 <= k < inner.len() && inner[k] == f;
            let at = before.len() + k;
            assert(next[at] == f);
        }
        if next.contains(f) && !one.contains(f) {
            let k = choose|k: int| 0 <= k < next.len() && next[k] == f;
            if k < before.len() {
                assert(before[k] == f);
            } else {
                let at = k - before.len();
                assert(inner[at] == f);
            }
        }
    }
    assert forall|f: IrFunction| #[trigger] next.contains(f) implies all.contains(f) by {
        let k = choose|k: int| 0 <= k < next.len() && next[k] == f;
        assert(all[k] == f);
    }
}

/// Declares functions with their inner functions.
fn declare_all(fs: &Vec<IrFunction>, c: &mut Compiler) -> (r: Result<(), CodegenError>)
    requires
        old(c).wf(),
        all_ok(inner_first(fs@, fs@.len() as int)),
    ensures
        final(c).wf(),
        final(c).compiled() == old(c).compiled(),
        final(c).data() == old(c).data(),
        r is Ok <==> can_declare_all(*old(c), inner_first(fs@, fs@.len() as int)),
        r is Ok ==> is_declared(*old(c), *final(c), inner_first(fs@, fs@.len() as int)),
        match r {
            Ok(_) => {
                &&& continues(*old(c), *final(c))
                &&& final(c).user_names() == with_names(old(c).user_names(), fs@, fs@.len() as int)
                &&& only_these(*old(c), *final(c), inner_first(fs@, fs@.len() as int))
            },
            Err(e) => e@ == ErrorView::Module,
        },
    decreases fs@,
{
    let ghost a = *c;
    proof {
        continues_itself(a);
    }
    let mut i: usize = 0;
    while i < fs.len()
        invariant
            i <= fs@.len(),
            a == *old(c),
            c.wf(),
            all_ok(inner_first(fs@, fs@.len() as int)),
            c.compiled() == a.compiled(),
            c.data() == a.data(),
            continues(a, *c),
            c.user_names() == with_names(a.user_names(), fs@, i as int),
            only_these(a, *c, inner_first(fs@, i as int)),
            is_declared(a, *c, inner_first(fs@, i as int)),
            can_declare_all(a, inner_first(fs@, i as int)),
        decreases fs@.len() - i,
    {
        let ghost b = *c;
        let f = &fs[i];
        let ghost before = inner_first(fs@, i as int);
        let ghost some = before.push(*f);
        let ghost one = seq![*f];
        let ghost next = inner_first(fs@, i + 1);
        let ghost all = inner_first(fs@, fs@.len() as int);
        let ghost inner = inner_first(f.subfunctions@, f.subfunctions@.len() as int);
        proof {
            ok_inside(fs@, i as int);
        }
        let symbol = inner_symbol(f);
        proof {
            front_contains(fs@, i as int);
            all_free_after(a, b, before, one, some);
            assert(one[0] == *f);
            assert(one.contains(*f));
            assert(can_declare_all(b, one) == is_free(b, *f));
            assert forall|g: IrFunction| #[trigger] some.contains(g) implies all.contains(g) by {
                assert(next.contains(g));
            }
        }
        let id: u32 = match c.declare_function(symbol.as_str(), f.abi_param_count()) {
            Ok(id) => id,
            Err(e) => {
                proof {
                    if can_declare_all(a, all) {
                        fewer_can_be_declared(a, some, all);
                    }
                }
                return Err(e);
            },
        };
        proof {
            declared(b, *c, symbol@, id);
            continues_on(a, b, *c);
            one_declared(b, *c, *f, id);
            declared_on(a, b, *c, before, one, some);
            all_free_after(a, *c, some, inner, next);
        }
        let ghost d = *c;
        match declare_all(&f.subfunctions, c) {
            Ok(_) => {},
            Err(e) => {
                proof {
                    if can_declare_all(a, all) {
                        fewer_can_be_declared(a, next, all);
                    }
                }
                return Err(e);
            },
        }
        proof {
            continues_on(a, d, *c);
            declared_on(a, d, *c, some, inner, next);
            assert forall|k: u32| #[trigger] c.functions().contains_key(k) && c.functions()[k].definable implies (a.functions().contains_key(k) && a.functions()[k].definable)
                || is_among(c.functions()[k].name, inner_first(fs@, i + 1)) by {
                let name = c.functions()[k].name;
                among_more(name, inner_first(fs@, i as int), inner, *f);
                if d.functions().contains_key(k) && d.functions()[k].definable {
                    assert(d.functions()[k].name == name);
                    if k != id {
                        assert(b.functions().contains_key(k) && b.functions()[k].definable);
                        assert(b.functions()[k].name == name);
                    }
                }
            }
        }
        i += 1;
    }
    Ok(())
}

/// What can be said of all functions can be said of those inside the one at `i`.
proof fn ok_inside(fs: Seq<IrFunction>, i: int)
    requires
        0 <= i < fs.len(),
        all_ok(inner_first(fs, fs.len() as int)),
    ensures
        all_ok(inner_first(fs, i)),
        all_ok(inner_first(fs[i].subfunctions@, fs[i].subfunctions@.len() as int)),
        emission::function_ok(fs[i]),
        is_countable(fs[i]),
{
    let all = inner_first(fs, fs.len() as int);
    inside(fs, i + 1, fs.len() as int);
    let front = inner_first(fs, i + 1);
    let before = inner_first(fs, i);
    let inner = inner_first(fs[i].subfunctions@, fs[i].subfunctions@.len() as int);
    assert(front == (before + inner).push(fs[i]));
    assert forall|k: int| 0 <= k < before.len() implies emission::function_ok(#[trigger] before[k]) && is_countable(before[k]) by {
        assert(all[k] == before[k]);
    }
    assert forall|k: int| 0 <= k < inner.len() implies emission::function_ok(#[trigger] inner[k]) && is_countable(inner[k]) by {
        let at = before.len() + k;
        assert(all[at] == inner[k]);
    }
    let at = before.len() + inner.len();
    assert(all[at as int] == fs[i]);
}

proof fn inside(fs: Seq<IrFunction>, i: int, n: int)
    requires
        0 <= i <= n <= fs.len(),
    ensures
        inner_first(fs, i).len() <= inner_first(fs, n).len(),
        forall|k: int| 0 <= k < inner_first(fs, i).len() ==> #[trigger] inner_first(fs, n)[k] == inner_first(fs, i)[k],
    decreases n - i,
{
    if i < n {
        inside(fs, i, n - 1);
    }
}

/// Declares the inner functions of a function, so that they can call each other.
pub fn declare_subfunctions(ir_func: &IrFunction, c: &mut Compiler) -> (r: Result<(), CodegenError>)
    requires
        old(c).wf(),
        all_ok(inner_functions(*ir_func)),
    ensures
        final(c).wf(),
        final(c).compiled() == old(c).compiled(),
        final(c).data() == old(c).data(),
        r is Ok <==> can_declare_all(*old(c), inner_functions(*ir_func)),
        match r {
            Ok(_) => {
                &&& continues(*old(c), *final(c))
                &&& final(c).user_names() == with_names(old(c).user_names(), ir_func.subfunctions@, ir_func.subfunctions@.len() as int)
                &&& is_declared(*old(c), *final(c), inner_functions(*ir_func))
                &&& only_these(*old(c), *final(c), inner_functions(*ir_func))
            },
            Err(e) => e@ == ErrorView::Module,
        },
{
    declare_all(&ir_func.subfunctions, c)
}

/// Compiles functions with their inner functions, those inside first.
fn compile_all(fs: &Vec<IrFunction>, c: &mut Compiler) -> (r: Result<(), CodegenError>)
    requires
        old(c).wf(),
        all_ok(inner_first(fs@, fs@.len() as int)),
        knows_all(old(c).user_names(), inner_first(fs@, fs@.len() as int)),
    ensures
        final(c).wf(),
        match r {
            Ok(_) => {
                &&& continues(*old(c), *final(c))
                &&& final(c).user_names() == old(c).user_names()
                &&& final(c).functions() == old(c).functions()
                &&& exists|ids: Seq<u32>| adds(*old(c), *final(c), inner_first(fs@, fs@.len() as int), old(c).user_names(), ids)
            },
            Err(e) => is_error_of(e@, *old(c), inner_first(fs@, fs@.len() as int), old(c).user_names()),
        },
    decreases fs@,
{
    let ghost a = *c;
    let ghost names = c.user_names();
    let ghost all = inner_first(fs@, fs@.len() as int);
    let ghost mut ids: Seq<u32> = Seq::empty();
    proof {
        continues_itself(a);
    }
    let mut i: usize = 0;
    while i < fs.len()
        invariant
            i <= fs@.len(),
            a == *old(c),
            names == a.user_names(),
            all == inner_first(fs@, fs@.len() as int),
            c.wf(),
            all_ok(all),
            knows_all(names, all),
            continues(a, *c),
            c.user_names() == names,
            c.functions() == a.functions(),
            adds(a, *c, inner_first(fs@, i as int), names, ids),
        decreases fs@.len() - i,
    {
        let ghost b = *c;
        let f = &fs[i];
        let ghost before = inner_first(fs@, i as int);
        let ghost inner = inner_first(f.subfunctions@, f.subfunctions@.len() as int);
        proof {
            ok_inside(fs@, i as int);
            inside(fs@, i + 1, fs@.len() as int);
            assert(inner_first(fs@, i + 1) == (before + inner).push(*f));
            assert forall|k: int| 0 <= k < inner.len() implies names.contains(symbol_of(#[trigger] inner[k])) by {
                let at = before.len() + k;
                assert(all[at] == inner[k]);
            }
            let at = (before.len() + inner.len()) as int;
            assert(all[at] == *f);
            assert(names.contains(symbol_of(*f)));
        }
        match compile_all(&f.subfunctions, c) {
            Ok(_) => {},
            Err(e) => {
                proof {
                    error_before(e@, a, b, before, inner, all, names, ids);
                }
                return Err(e);
            },
        }
        let ghost d = *c;
        let ghost more = choose|more: Seq<u32>| adds(b, d, inner, names, more);
        let symbol = inner_symbol(f);
        match compile_named(c, f, symbol.as_str(), f.abi_param_count()) {
            Ok(_) => {},
            Err(e) => {
                proof {
                    let one = seq![*f];
                    let rest = inner + one;
                    assert(one[0] == *f);
                    assert(rest[inner.len() as int] == *f);
                    assert(with_name(names, symbol@) == names);
                    if e@ == ErrorView::Module && is_unwanted(d, *f, symbol@, names, f.spec_abi_param_count()) {
                        assert(d.can_declare(symbol@, f.spec_abi_param_count()) == is_free(d, one[0]));
                        assert(is_module_error(d, one, names));
                    } else {
                        assert(is_refused(e@, d, one[0], names, one[0].spec_abi_param_count()));
                    }
                    error_before(e@, b, d, inner, one, rest, names, more);
                    assert forall|k: int| 0 <= k < rest.len() implies all[before.len() + k] == #[trigger] rest[k] by {
                        let at = before.len() + k;
                        assert(inner_first(fs@, i + 1)[at] == rest[k]);
                    }
                    error_before(e@, a, b, before, rest, all, names, ids);
                }
                return Err(e);
            },
        }
        proof {
            let id = choose|id: u32| #[trigger] is_one_more(d, *c, id) && is_built(*c, *f, symbol@, c.user_names(), f.spec_abi_param_count(), id);
            adds_on(a, b, d, *c, before, inner, *f, names, ids, more, id);
            ids = (ids + more).push(id);
        }
        i += 1;
    }
    Ok(())
}

/// What several steps add.
#[verifier::rlimit(80)]
proof fn adds_on(a: Compiler, b: Compiler, d: Compiler, c: Compiler, before: Seq<IrFunction>, inner: Seq<IrFunction>, f: IrFunction, names: Seq<Seq<char>>, ids: Seq<u32>, more: Seq<u32>, id: u32)
    requires
        continues(a, b),
        continues(b, d),
        continues(d, c),
        adds(a, b, before, names, ids),
        adds(b, d, inner, names, more),
        is_one_more(d, c, id),
        is_built(c, f, symbol_of(f), names, f.spec_abi_param_count(), id),
    ensures
        continues(a, c),
        adds(a, c, (before + inner).push(f), names, (ids + more).push(id)),
{
    continues_on(b, d, c);
    continues_on(a, b, c);
    let fs = (before + inner).push(f);
    let all = (ids + more).push(id);
    let n = ids.len() as int;
    let m = more.len() as int;
    assert forall|i: int| 0 <= i < all.len() implies is_built(c, fs[i], symbol_of(fs[i]), names, fs[i].spec_abi_param_count(), #[trigger] all[i]) by {
        if i < n {
            assert(all[i] == ids[i] && fs[i] == before[i]);
            built_stays(b, c, before[i], symbol_of(before[i]), names, before[i].spec_abi_param_count(), ids[i]);
        } else if i < n + m {
            let j = i - n;
            assert(all[i] == more[j] && fs[i] == inner[j]);
            built_stays(d, c, inner[j], symbol_of(inner[j]), names, inner[j].spec_abi_param_count(), more[j]);
        }
    }
    assert forall|i: int| 0 <= i < all.len() implies !a.compiled().contains_key(#[trigger] all[i]) by {
        if i < n {
            assert(all[i] == ids[i]);
        } else if i < n + m {
            let j = i - n;
            assert(all[i] == more[j]);
            assert(!b.compiled().contains_key(more[j]));
        }
    }
    assert forall|i: int, j: int| 0 <= i < j < all.len() implies all[i] != all[j] by {
        if j < n {
            assert(all[i] == ids[i] && all[j] == ids[j]);
        } else if j < n + m {
            let l = j - n;
            assert(all[j] == more[l]);
            assert(!b.compiled().contains_key(more[l]));
            if i < n {
                assert(all[i] == ids[i]);
                assert(is_built(b, before[i], symbol_of(before[i]), names, before[i].spec_abi_param_count(), ids[i]));
            } else {
                let o = i - n;
                assert(all[i] == more[o]);
            }
        } else {
            if i < n {
                assert(all[i] == ids[i]);
                assert(is_built(b, before[i], symbol_of(before[i]), names, before[i].spec_abi_param_count(), ids[i]));
                assert(d.compiled().contains_key(ids[i]));
            } else {
                let o = i - n;
                assert(all[i] == more[o]);
                assert(is_built(d, inner[o], symbol_of(inner[o]), names, inner[o].spec_abi_param_count(), more[o]));
            }
        }
    }
    assert forall|k: u32| #[trigger] c.compiled().contains_key(k) implies a.compiled().contains_key(k) || all.contains(k) by {
        if k == id {
            assert(all[n + m] == id);
        } else {
            assert(d.compiled().contains_key(k));
            if b.compiled().contains_key(k) {
                if !a.compiled().contains_key(k) {
                    let i = choose|i: int| 0 <= i < ids.len() && ids[i] == k;
                    assert(all[i] == k);
                }
            } else {
                let i = choose|i: int| 0 <= i < more.len() && more[i] == k;
                let at = n + i;
                assert(all[at] == k);
            }
        }
    }
}

/// Compiles the inner functions of a function, which the compiler knows, those inside first.
pub fn compile_subfunctions(ir_func: &IrFunction, c: &mut Compiler) -> (r: Result<(), CodegenError>)
    requires
        old(c).wf(),
        all_ok(inner_functions(*ir_func)),
        knows_all(old(c).user_names(), inner_functions(*ir_func)),
    ensures
        final(c).wf(),
        match r {
            Ok(_) => {
                &&& continues(*old(c), *final(c))
                &&& final(c).user_names() == old(c).user_names()
                &&& final(c).functions() == old(c).functions()
                &&& exists|ids: Seq<u32>| adds(*old(c), *final(c), inner_functions(*ir_func), old(c).user_names(), ids)
            },
            Err(e) => is_error_of(e@, *old(c), inner_functions(*ir_func), old(c).user_names()),
        },
{
    compile_all(&ir_func.subfunctions, c)
}

/// Every name that is taken in is known.
proof fn names_are_known(names: Seq<Seq<char>>, fs: Seq<IrFunction>, n: int)
    requires
        0 <= n <= fs.len(),
    ensures
        forall|name: Seq<char>| #[trigger] names.contains(name) ==> with_names(names, fs, n).contains(name),
        knows_all(with_names(names, fs, n), inner_first(fs, n)),
    decreases fs, n,
{
    if n > 0 {
        let f = fs[n - 1];
        let first = with_names(names, fs, n - 1);
        let next = with_name(first, symbol_of(f));
        let last = with_names(names, fs, n);
        let subs = f.subfunctions@;
        names_are_known(names, fs, n - 1);
        names_are_known(next, subs, subs.len() as int);
        let a = inner_first(fs, n - 1);
        let b = inner_first(subs, subs.len() as int);
        let all = inner_first(fs, n);
        assert forall|name: Seq<char>| #[trigger] first.contains(name) implies next.contains(name) by {
            let k = choose|k: int| 0 <= k < first.len() && first[k] == name;
            assert(next[k] == name);
        }
        assert(next.contains(symbol_of(f))) by {
            if !first.contains(symbol_of(f)) {
                assert(next[first.len() as int] == symbol_of(f));
            }
        }
        assert forall|i: int| 0 <= i < all.len() implies last.contains(symbol_of(#[trigger] all[i])) by {
            if i < a.len() {
                assert(all[i] == a[i]);
                assert(first.contains(symbol_of(a[i])));
                assert(next.contains(symbol_of(a[i])));
            } else if i < a.len() + b.len() {
                let k = i - a.len();
                assert(all[i] == b[k]);
            }
        }
        assert forall|name: Seq<char>| #[trigger] names.contains(name) implies last.contains(name) by {
            assert(first.contains(name));
            assert(next.contains(name));
        }
    }
}

/// The names that the functions of a unit can call: those known before, and those of its inner
/// functions.
pub open spec fn names_inside(names: Seq<Seq<char>>, f: IrFunction) -> Seq<Seq<char>> {
    with_names(names, f.subfunctions@, f.subfunctions@.len() as int)
}

/// What compiling a unit comes to: the code of its inner functions, and of the function itself
/// under the symbol, has been added; or the error says why not.
#[verifier::opaque]
pub open spec fn unit_compiles(r: Result<(), CodegenError>, a: Compiler, b: Compiler, f: IrFunction, symbol: Seq<char>) -> bool {
    let names = names_inside(a.user_names(), f);
    let named = with_name(names, symbol);
    match r {
        Ok(_) => {
            &&& continues(a, b)
            &&& b.user_names() == named
            &&& a.is_whole() && compiler::names_are_unique(a.functions()) ==> b.is_whole()
            &&& exists|ids: Seq<u32>, id: u32| #[trigger] adds_unit(a, b, f, symbol, names, named, ids, id)
        },
        Err(e) => is_unit_error(e@, a, f, symbol),
    }
}

/// The module refuses one of the functions of a unit: it cannot be declared, one of that name has code
/// already or stands in the unit too, or the code generator does not take it.
pub open spec fn is_unwanted_unit(a: Compiler, f: IrFunction, symbol: Seq<char>) -> bool {
    let names = names_inside(a.user_names(), f);
    let fs = inner_functions(f);
    ||| !can_declare_all(a, fs)
    ||| is_doubled(a, fs)
    ||| is_among(symbol, fs)
    ||| exists|i: int| 0 <= i < fs.len() && is_rejected(a, #[trigger] fs[i], symbol_of(fs[i]), names, fs[i].spec_abi_param_count())
    ||| is_unwanted(a, f, symbol, with_name(names, symbol), 0)
}

/// The error of a unit: the module's, or that of one of its functions.
pub open spec fn is_unit_error(e: ErrorView, a: Compiler, f: IrFunction, symbol: Seq<char>) -> bool {
    let names = names_inside(a.user_names(), f);
    let fs = inner_functions(f);
    ||| e == ErrorView::Module && is_unwanted_unit(a, f, symbol)
    ||| exists|i: int| 0 <= i < fs.len() && is_refused(e, a, #[trigger] fs[i], names, fs[i].spec_abi_param_count())
    ||| is_refused(e, a, f, with_name(names, symbol), 0)
}

/// What the module refuses among declared functions of a unit it refuses of the unit.
proof fn inner_error(e: ErrorView, a: Compiler, b: Compiler, f: IrFunction, symbol: Seq<char>)
    requires
        a.wf(),
        continues(a, b),
        b.compiled() == a.compiled(),
        can_declare_all(a, inner_functions(f)),
        is_declared(a, b, inner_functions(f)),
        is_error_of(e, b, inner_functions(f), names_inside(a.user_names(), f)),
    ensures
        is_unit_error(e, a, f, symbol),
{
    let fs = inner_functions(f);
    let names = names_inside(a.user_names(), f);
    if e == ErrorView::Module && is_module_error(b, fs, names) {
        if exists|i: int| 0 <= i < fs.len() && !is_free(b, #[trigger] fs[i]) {
            let i = choose|i: int| 0 <= i < fs.len() && !is_free(b, #[trigger] fs[i]);
            free_after(a, b, fs, fs[i]);
            assert(fs.contains(fs[i]));
        } else if exists|i: int| 0 <= i < fs.len() && is_defined(b, symbol_of(#[trigger] fs[i])) {
            let i = choose|i: int| 0 <= i < fs.len() && is_defined(b, symbol_of(#[trigger] fs[i]));
            known_before(a, b, symbol_of(fs[i]));
            assert(is_doubled(a, fs));
        } else if is_doubled(b, fs) {
            assert(is_doubled(a, fs));
        } else {
            let i = choose|i: int| 0 <= i < fs.len() && is_rejected(b, #[trigger] fs[i], symbol_of(fs[i]), names, fs[i].spec_abi_param_count());
            rejected_before(a, b, fs[i], symbol_of(fs[i]), names, fs[i].spec_abi_param_count());
        }
    } else {
        let i = choose|i: int| 0 <= i < fs.len() && is_refused(e, b, #[trigger] fs[i], names, fs[i].spec_abi_param_count());
        refused_before(e, a, b, fs[i], names, fs[i].spec_abi_param_count());
    }
}

/// What has code once functions have been declared had it before.
proof fn known_before(a: Compiler, b: Compiler, symbol: Seq<char>)
    requires
        a.wf(),
        b.compiled() == a.compiled(),
        compiler::functions_kept(a.functions(), b.functions()),
        is_defined(b, symbol),
    ensures
        is_defined(a, symbol),
{
    reveal(Compiler::knows_code);
    let k = choose|k: u32| #[trigger] b.compiled().contains_key(k) && b.functions()[k].name == symbol;
    assert(a.compiled().contains_key(k));
    assert(a.functions().contains_key(k));
}

/// What the module refuses of the function itself, behind the functions inside it, it refuses of the unit.
proof fn outer_error(a: Compiler, b: Compiler, d: Compiler, f: IrFunction, symbol: Seq<char>, names: Seq<Seq<char>>, ids: Seq<u32>)
    requires
        a.wf(),
        continues(a, b),
        continues(a, d),
        b.compiled() == a.compiled(),
        d.functions() == b.functions(),
        d.is_wide() == b.is_wide(),
        d.origin() == b.origin(),
        is_declared(a, b, inner_functions(f)),
        adds(b, d, inner_functions(f), names, ids),
        is_unwanted(d, f, symbol, with_name(names, symbol), 0),
    ensures
        is_unwanted(a, f, symbol, with_name(names, symbol), 0) || is_among(symbol, inner_functions(f)),
{
    let fs = inner_functions(f);
    if !is_among(symbol, fs) {
        if is_rejected(d, f, symbol, with_name(names, symbol), 0) {
            rejected_before(a, d, f, symbol, with_name(names, symbol), 0);
        } else if is_defined(d, symbol) {
            defined_before(b, d, fs, names, ids, symbol);
            known_before(a, b, symbol);
        } else if a.can_declare(symbol, 0) {
            let params = compiler::pointers(0, a.is_wide());
            let result = Some(backend::machine_ty(ClifTy::Ptr, a.is_wide()));
            let sv = backend::convention(a.spec_module(), false);
            assert forall|k: u32| #[trigger] d.functions().contains_key(k) implies backend::agrees(d.functions()[k], symbol, params, result, sv) by {
                assert(b.functions().contains_key(k));
                if a.functions().contains_key(k) {
                    assert(backend::agrees(a.functions()[k], symbol, params, result, sv));
                } else {
                    let g = choose|g: IrFunction| #[trigger] fs.contains(g) && is_known_as(b, g, k);
                    let i = choose|i: int| 0 <= i < fs.len() && fs[i] == g;
                    assert(symbol_of(fs[i]) != symbol);
                }
            }
            assert(d.can_declare(symbol, 0));
        }
    }
}

/// The code of a unit: that of its inner functions, and that of the function itself, which is none
/// of theirs.
pub open spec fn adds_unit(a: Compiler, b: Compiler, f: IrFunction, symbol: Seq<char>, names: Seq<Seq<char>>, named: Seq<Seq<char>>, ids: Seq<u32>, id: u32) -> bool {
    let fs = inner_functions(f);
    &&& ids.len() == fs.len()
    &&& ids.push(id).no_duplicates()
    &&& forall|i: int| 0 <= i < ids.len() ==> !a.compiled().contains_key(#[trigger] ids[i]) && is_built(b, fs[i], symbol_of(fs[i]), names, fs[i].spec_abi_param_count(), ids[i])
    &&& !a.compiled().contains_key(id)
    &&& is_built(b, f, symbol, named, 0, id)
    &&& forall|k: u32| #[trigger] b.compiled().contains_key(k) ==> a.compiled().contains_key(k) || ids.push(id).contains(k)
}

/// Compiles a function without parameters under the symbol, with its inner functions.
pub fn compile_unit(ir_func: &IrFunction, symbol: &str, c: &mut Compiler) -> (r: Result<(), CodegenError>)
    requires
        old(c).wf(),
        all_ok(inner_functions(*ir_func)),
        emission::function_ok(*ir_func),
    ensures
        final(c).wf(),
        unit_compiles(r, *old(c), *final(c), *ir_func, symbol@),
{
    let ghost a = *c;
    let ghost names = names_inside(a.user_names(), *ir_func);
    let ghost fs = inner_functions(*ir_func);
    proof {
        reveal(unit_compiles);
        names_are_known(a.user_names(), ir_func.subfunctions@, ir_func.subfunctions@.len() as int);
    }
    match declare_subfunctions(ir_func, c) {
        Ok(_) => {},
        Err(e) => return Err(e),
    }
    let ghost b = *c;
    match compile_subfunctions(ir_func, c) {
        Ok(_) => {},
        Err(e) => {
            proof {
                inner_error(e@, a, b, *ir_func, symbol@);
            }
            return Err(e);
        },
    }
    let ghost d = *c;
    let ghost ids = choose|ids: Seq<u32>| adds(b, d, fs, names, ids);
    match compile_named(c, ir_func, symbol, 0) {
        Ok(_) => {},
        Err(e) => {
            proof {
                let named = with_name(names, symbol@);
                continues_on(a, b, d);
                if is_refused(e@, d, *ir_func, named, 0) {
                    refused_before(e@, a, d, *ir_func, named, 0);
                } else {
                    outer_error(a, b, d, *ir_func, symbol@, names, ids);
                }
            }
            return Err(e);
        },
    }
    proof {
        let named = c.user_names();
        let id = choose|id: u32| #[trigger] is_one_more(d, *c, id) && is_built(*c, *ir_func, symbol@, named, 0, id);
        continues_on(a, b, d);
        continues_on(a, d, *c);
        unit_added(a, b, d, *c, *ir_func, symbol@, names, named, ids, id);
        assert(adds_unit(a, *c, *ir_func, symbol@, names, named, ids, id));
        if a.is_whole() && compiler::names_are_unique(a.functions()) {
            unit_is_whole(a, b, d, *c, *ir_func, names, ids, id);
        }
    }
    Ok(())
}

proof fn unit_added(a: Compiler, b: Compiler, d: Compiler, c: Compiler, f: IrFunction, symbol: Seq<char>, names: Seq<Seq<char>>, named: Seq<Seq<char>>, ids: Seq<u32>, id: u32)
    requires
        b.compiled() == a.compiled(),
        continues(d, c),
        adds(b, d, inner_functions(f), names, ids),
        is_one_more(d, c, id),
        is_built(c, f, symbol, named, 0, id),
        continues(b, d),
    ensures
        adds_unit(a, c, f, symbol, names, named, ids, id),
{
    let fs = inner_functions(f);
    let all = ids.push(id);
    assert forall|i: int| 0 <= i < ids.len() implies !a.compiled().contains_key(#[trigger] ids[i]) && is_built(c, fs[i], symbol_of(fs[i]), names, fs[i].spec_abi_param_count(), ids[i]) by {
        built_stays(d, c, fs[i], symbol_of(fs[i]), names, fs[i].spec_abi_param_count(), ids[i]);
    }
    assert forall|i: int, j: int| 0 <= i < j < all.len() implies all[i] != all[j] by {
        if j == ids.len() {
            assert(all[i] == ids[i]);
            assert(is_built(d, fs[i], symbol_of(fs[i]), names, fs[i].spec_abi_param_count(), ids[i]));
        } else {
            assert(all[i] == ids[i] && all[j] == ids[j]);
        }
    }
    assert forall|k: u32| #[trigger] c.compiled().contains_key(k) implies a.compiled().contains_key(k) || all.contains(k) by {
        if k == id {
            assert(all[ids.len() as int] == id);
        } else {
            assert(d.compiled().contains_key(k));
            if !a.compiled().contains_key(k) {
                let i = choose|i: int| 0 <= i < ids.len() && ids[i] == k;
                assert(all[i] == k);
            }
        }
    }
}

proof fn unit_is_whole(a: Compiler, b: Compiler, d: Compiler, c: Compiler, f: IrFunction, names: Seq<Seq<char>>, ids: Seq<u32>, id: u32)
    requires
        a.is_whole(),
        compiler::names_are_unique(a.functions()),
        continues(a, b),
        continues(b, d),
        continues(d, c),
        continues(a, c),
        b.data() == a.data(),
        only_these(a, b, inner_functions(f)),
        compiler::nothing_to_define(b.functions(), d.functions()),
        adds(b, d, inner_functions(f), names, ids),
        is_one_more(d, c, id),
        c.compiled().contains_key(id),
    ensures
        c.is_whole(),
{
    let fs = inner_functions(f);
    assert forall|k: u32| #[trigger] c.functions().contains_key(k) && c.functions()[k].definable implies c.compiled().contains_key(k) by {
        if k != id {
            assert(d.functions().contains_key(k) && d.functions()[k].definable);
            assert(b.functions().contains_key(k) && b.functions()[k].definable);
            if a.functions().contains_key(k) && a.functions()[k].definable {
                assert(a.compiled().contains_key(k));
            } else {
                let name = b.functions()[k].name;
                let i = choose|i: int| 0 <= i < fs.len() && symbol_of(#[trigger] fs[i]) == name;
                assert(is_built(d, fs[i], symbol_of(fs[i]), names, fs[i].spec_abi_param_count(), ids[i]));
                assert(d.functions()[k].name == name);
                assert(k == ids[i]);
                assert(d.compiled().contains_key(k));
            }
        }
    }
    assert forall|k: u32| #[trigger] c.data().contains_key(k) implies !(c.data()[k].init is Missing) by {
        if a.data().contains_key(k) {
            assert(c.data()[k] == a.data()[k]);
        }
    }
}


/// The unit has been compiled: the functions inside it, and the function itself under the symbol.
pub open spec fn unit_is_built(c: Compiler, f: IrFunction, symbol: Seq<char>, before: Seq<Seq<char>>) -> bool {
    let names = names_inside(before, f);
    let fs = inner_functions(f);
    &&& exists|id: u32| #[trigger] is_built(c, f, symbol, with_name(names, symbol), 0, id)
    &&& forall|i: int| 0 <= i < fs.len() ==> #[trigger] is_inside(c, fs[i], names)
}

/// An inner function has been compiled.
pub open spec fn is_inside(c: Compiler, f: IrFunction, names: Seq<Seq<char>>) -> bool {
    exists|id: u32| #[trigger] is_built(c, f, symbol_of(f), names, f.spec_abi_param_count(), id)
}

/// A unit that has been compiled stays so.
pub proof fn unit_stays(a: Compiler, b: Compiler, f: IrFunction, symbol: Seq<char>, before: Seq<Seq<char>>)
    requires
        continues(a, b),
        unit_is_built(a, f, symbol, before),
    ensures
        unit_is_built(b, f, symbol, before),
{
    let names = names_inside(before, f);
    let named = with_name(names, symbol);
    let fs = inner_functions(f);
    let id = choose|id: u32| #[trigger] is_built(a, f, symbol, named, 0, id);
    built_stays(a, b, f, symbol, named, 0, id);
    assert forall|i: int| 0 <= i < fs.len() implies #[trigger] is_inside(b, fs[i], names) by {
        let g = fs[i];
        assert(is_inside(a, g, names));
        let k = choose|k: u32| #[trigger] is_built(a, g, symbol_of(g), names, g.spec_abi_param_count(), k);
        built_stays(a, b, g, symbol_of(g), names, g.spec_abi_param_count(), k);
    }
}

/// The symbol of the program's own unit.
pub open spec fn main_symbol() -> Seq<char> {
    "__cljrs_main"@
}

/// The names known behind the program's own unit and its first `n` namespaces.
pub open spec fn program_names(names: Seq<Seq<char>>, main: IrFunction, deps: Seq<(String, IrFunction)>, n: int) -> Seq<Seq<char>>
    decreases n,
{
    if n <= 0 || n > deps.len() {
        with_name(names_inside(names, main), main_symbol())
    } else {
        with_name(names_inside(program_names(names, main, deps, n - 1), deps[n - 1].1), deps[n - 1].0@)
    }
}

/// The program has been compiled: its own unit, and the units of the first `n` namespaces.
pub open spec fn program_is_built(c: Compiler, names: Seq<Seq<char>>, main: IrFunction, deps: Seq<(String, IrFunction)>, n: int) -> bool {
    &&& unit_is_built(c, main, main_symbol(), names)
    &&& forall|i: int| 0 <= i < n ==> unit_is_built(c, (#[trigger] deps[i]).1, deps[i].0@, program_names(names, main, deps, i))
}

/// Nothing but the module can refuse the unit: its functions are welcome where the names of all of
/// them are known, it takes no parameters, and no block comes to more than can be counted.
pub open spec fn is_welcome_unit(f: IrFunction, symbol: Seq<char>, before: Seq<Seq<char>>) -> bool {
    let fs = inner_functions(f);
    &&& forall|i: int| 0 <= i < fs.len() ==> compiler::is_welcome(#[trigger] fs[i], Seq::empty(), names_inside(before, f))
        && compiler::can_count(fs[i], Seq::empty(), names_inside(before, f), fs[i].spec_abi_param_count())
    &&& compiler::is_welcome(f, Seq::empty(), with_name(names_inside(before, f), symbol))
    &&& compiler::can_count(f, Seq::empty(), with_name(names_inside(before, f), symbol), 0)
}

/// The only error of a welcome unit is that the module refuses one of its functions.
proof fn welcome_unit_error(e: ErrorView, a: Compiler, f: IrFunction, symbol: Seq<char>)
    requires
        is_welcome_unit(f, symbol, a.user_names()),
        is_unit_error(e, a, f, symbol),
    ensures
        e == ErrorView::Module,
        is_unwanted_unit(a, f, symbol),
{
    let fs = inner_functions(f);
    let names = names_inside(a.user_names(), f);
    if exists|i: int| 0 <= i < fs.len() && is_refused(e, a, #[trigger] fs[i], names, fs[i].spec_abi_param_count()) {
        let i = choose|i: int| 0 <= i < fs.len() && is_refused(e, a, #[trigger] fs[i], names, fs[i].spec_abi_param_count());
        assert(compiler::is_welcome(fs[i], Seq::empty(), names));
    }
}

/// A welcome unit is compiled unless the module refuses one of its functions.
pub proof fn welcome_units_are_compiled(r: Result<(), CodegenError>, a: Compiler, b: Compiler, f: IrFunction, symbol: Seq<char>)
    requires
        is_welcome_unit(f, symbol, a.user_names()),
        unit_compiles(r, a, b, f, symbol),
    ensures
        r is Ok || r->Err_0@ == ErrorView::Module && is_unwanted_unit(a, f, symbol),
{
    reveal(unit_compiles);
    if r is Err {
        welcome_unit_error(r->Err_0@, a, f, symbol);
    }
}

/// A program of welcome units is compiled unless the module refuses a function of one of them.
pub proof fn welcome_programs_are_compiled(r: Result<(), CodegenError>, a: Compiler, c: Compiler, main: IrFunction, deps: Seq<(String, IrFunction)>)
    requires
        is_welcome_unit(main, main_symbol(), a.user_names()),
        forall|i: int| 0 <= i < deps.len() ==> is_welcome_unit((#[trigger] deps[i]).1, deps[i].0@, program_names(a.user_names(), main, deps, i)),
        program_compiles(r, a, c, main, deps),
    ensures
        r is Ok || r->Err_0@ == ErrorView::Module && (is_unwanted_unit(a, main, main_symbol())
            || exists|i: int, b: Compiler| 0 <= i < deps.len() && #[trigger] has_compiled(a, b, main, deps, i) && is_unwanted_unit(b, deps[i].1, deps[i].0@)),
{
    reveal(program_compiles);
    if r is Err {
        let e = r->Err_0@;
        if is_unit_error(e, a, main, main_symbol()) {
            welcome_unit_error(e, a, main, main_symbol());
        } else {
            let (i, b) = choose|i: int, b: Compiler| 0 <= i < deps.len() && #[trigger] has_compiled(a, b, main, deps, i) && is_unit_error(e, b, deps[i].1, deps[i].0@);
            program_has_compiled(a, b, main, deps, i);
            assert(is_welcome_unit(deps[i].1, deps[i].0@, b.user_names()));
            welcome_unit_error(e, b, deps[i].1, deps[i].0@);
        }
    }
}

/// A unit can be translated.
pub open spec fn unit_ok(f: IrFunction) -> bool {
    all_ok(inner_functions(f)) && emission::function_ok(f)
}

/// The program's own unit and the units of its first `n` namespaces have been compiled.
#[verifier::opaque]
pub open spec fn has_compiled(a: Compiler, c: Compiler, main: IrFunction, deps: Seq<(String, IrFunction)>, n: int) -> bool {
    &&& continues(a, c)
    &&& c.user_names() == program_names(a.user_names(), main, deps, n)
    &&& program_is_built(c, a.user_names(), main, deps, n)
    &&& a.is_whole() && compiler::names_are_unique(a.functions()) ==> c.is_whole()
}

proof fn main_has_compiled(r: Result<(), CodegenError>, a: Compiler, c: Compiler, main: IrFunction, deps: Seq<(String, IrFunction)>)
    requires
        r is Ok,
        unit_compiles(r, a, c, main, main_symbol()),
    ensures
        has_compiled(a, c, main, deps, 0),
{
    reveal(has_compiled);
    unit_was_added(r, a, c, main, main_symbol());
}

proof fn one_more_has_compiled(r: Result<(), CodegenError>, a: Compiler, b: Compiler, c: Compiler, main: IrFunction, deps: Seq<(String, IrFunction)>, i: int)
    requires
        0 <= i < deps.len(),
        has_compiled(a, b, main, deps, i),
        r is Ok,
        unit_compiles(r, b, c, deps[i].1, deps[i].0@),
    ensures
        has_compiled(a, c, main, deps, i + 1),
{
    reveal(has_compiled);
    let names = a.user_names();
    unit_was_added(r, b, c, deps[i].1, deps[i].0@);
    continues_on(a, b, c);
    unit_stays(b, c, main, main_symbol(), names);
    assert forall|k: int| 0 <= k < i + 1 implies unit_is_built(c, (#[trigger] deps[k]).1, deps[k].0@, program_names(names, main, deps, k)) by {
        if k < i {
            unit_stays(b, c, deps[k].1, deps[k].0@, program_names(names, main, deps, k));
        }
    }
}

proof fn unit_has_failed(e: CodegenError, a: Compiler, c: Compiler, f: IrFunction, symbol: Seq<char>)
    requires
        unit_compiles(Err::<(), CodegenError>(e), a, c, f, symbol),
    ensures
        is_unit_error(e@, a, f, symbol),
{
    reveal(unit_compiles);
}

proof fn program_has_compiled(a: Compiler, c: Compiler, main: IrFunction, deps: Seq<(String, IrFunction)>, n: int)
    requires
        has_compiled(a, c, main, deps, n),
    ensures
        continues(a, c),
        c.user_names() == program_names(a.user_names(), main, deps, n),
        program_is_built(c, a.user_names(), main, deps, n),
        a.is_whole() && compiler::names_are_unique(a.functions()) ==> c.is_whole(),
{
    reveal(has_compiled);
}

/// What compiling a program comes to: its units have been compiled, or the error is that of one of
/// them.
#[verifier::opaque]
pub open spec fn program_compiles(r: Result<(), CodegenError>, a: Compiler, c: Compiler, main: IrFunction, deps: Seq<(String, IrFunction)>) -> bool {
    match r {
        Ok(_) => {
            &&& continues(a, c)
            &&& c.user_names() == program_names(a.user_names(), main, deps, deps.len() as int)
            &&& program_is_built(c, a.user_names(), main, deps, deps.len() as int)
            &&& a.is_whole() && compiler::names_are_unique(a.functions()) ==> c.is_whole()
        },
        Err(e) => is_program_error(e@, a, main, deps),
    }
}

/// The error of a program: that of its own unit, or that of the unit of a namespace, once the units
/// before it have been compiled.
pub open spec fn is_program_error(e: ErrorView, a: Compiler, main: IrFunction, deps: Seq<(String, IrFunction)>) -> bool {
    ||| is_unit_error(e, a, main, main_symbol())
    ||| exists|i: int, b: Compiler| 0 <= i < deps.len() && #[trigger] has_compiled(a, b, main, deps, i) && is_unit_error(e, b, deps[i].1, deps[i].0@)
}

/// Compiles a program: its own unit, and behind it the units that set up the namespaces that it
/// requires, each under its symbol.
pub fn compile_program(c: &mut Compiler, main: &IrFunction, deps: &Vec<(String, IrFunction)>) -> (r: Result<(), CodegenError>)
    requires
        old(c).wf(),
        unit_ok(*main),
        forall|i: int| 0 <= i < deps@.len() ==> unit_ok((#[trigger] deps@[i]).1),
    ensures
        final(c).wf(),
        program_compiles(r, *old(c), *final(c), *main, deps@),
{
    let ghost a = *c;
    let first = compile_unit(main, "__cljrs_main", c);
    proof {
        if first is Ok {
            main_has_compiled(first, a, *c, *main, deps@);
        }
    }
    match first {
        Ok(_) => {},
        Err(e) => {
            proof {
                unit_has_failed(e, a, *c, *main, main_symbol());
                reveal(program_compiles);
            }
            return Err(e);
        },
    }
    let mut i: usize = 0;
    while i < deps.len()
        invariant
            i <= deps@.len(),
            a == *old(c),
            c.wf(),
            forall|k: int| 0 <= k < deps@.len() ==> unit_ok((#[trigger] deps@[k]).1),
            has_compiled(a, *c, *main, deps@, i as int),
        decreases deps@.len() - i,
    {
        let ghost b = *c;
        assert(unit_ok(deps@[i as int].1));
        let next = compile_unit(&deps[i].1, deps[i].0.as_str(), c);
        proof {
            if next is Ok {
                one_more_has_compiled(next, a, b, *c, *main, deps@, i as int);
            }
        }
        match next {
            Ok(_) => {},
            Err(e) => {
                proof {
                    unit_has_failed(e, b, *c, deps@[i as int].1, deps@[i as int].0@);
                    assert(has_compiled(a, b, *main, deps@, i as int));
                    reveal(program_compiles);
                }
                return Err(e);
            },
        }
        i += 1;
    }
    proof {
        program_has_compiled(a, *c, *main, deps@, deps@.len() as int);
        reveal(program_compiles);
    }
    Ok(())
}

proof fn unit_was_added(r: Result<(), CodegenError>, a: Compiler, b: Compiler, f: IrFunction, symbol: Seq<char>)
    requires
        r is Ok,
        unit_compiles(r, a, b, f, symbol),
    ensures
        unit_is_built(b, f, symbol, a.user_names()),
        continues(a, b),
        b.user_names() == with_name(names_inside(a.user_names(), f), symbol),
        a.is_whole() && compiler::names_are_unique(a.functions()) ==> b.is_whole(),
{
    reveal(unit_compiles);
    let names = names_inside(a.user_names(), f);
    let named = with_name(names, symbol);
    let (ids, id) = choose|ids: Seq<u32>, id: u32| #[trigger] adds_unit(a, b, f, symbol, names, named, ids, id);
    let fs = inner_functions(f);
    assert(is_built(b, f, symbol, named, 0, id));
    assert forall|i: int| 0 <= i < fs.len() implies #[trigger] is_inside(b, fs[i], names) by {
        assert(is_built(b, fs[i], symbol_of(fs[i]), names, fs[i].spec_abi_param_count(), ids[i]));
    }
}

/// Whether a unit can be compiled by a compiler, or by none where there is none: its code is there, or
/// there is an error of the unit.
pub open spec fn is_tried_out(r: bool, made: Result<Compiler, CodegenError>, f: IrFunction, symbol: Seq<char>) -> bool {
    match made {
        Ok(a) => if r {
            exists|c: Compiler| #[trigger] unit_is_built(c, f, symbol, a.user_names()) && continues(a, c)
        } else {
            exists|e: ErrorView| #[trigger] is_unit_error(e, a, f, symbol)
        },
        Err(_) => !r,
    }
}

/// Whether a unit can be compiled by the compiler that was set up, if one was: it is tried out, and the
/// compiler is then dropped.
pub fn unit_codegen_ok(made: Result<Compiler, CodegenError>, ir_func: &IrFunction, init_symbol: &str) -> (r: bool)
    requires
        unit_ok(*ir_func),
        made is Ok ==> made->Ok_0.wf(),
    ensures
        is_tried_out(r, made, *ir_func, init_symbol@),
{
    let mut c = match made {
        Ok(c) => c,
        Err(_) => return false,
    };
    let ghost a = c;
    let r = compile_unit(ir_func, init_symbol, &mut c);
    match r {
        Ok(_) => {
            proof {
                unit_was_added(r, a, c, *ir_func, init_symbol@);
                assert(unit_is_built(c, *ir_func, init_symbol@, a.user_names()));
            }
            true
        },
        Err(e) => {
            proof {
                unit_has_failed(e, a, c, *ir_func, init_symbol@);
            }
            false
        },
    }
}

/// Whether a unit can be compiled on this host: it is tried out in a module that is then dropped.
/// Whether there is a compiler for the host is the host's to say; where there is one, the unit is
/// compiled unless it is in error.
pub fn dep_codegen_ok(ir_func: &IrFunction, init_symbol: &str) -> (r: bool)
    requires
        unit_ok(*ir_func),
    ensures
        exists|made: Result<Compiler, CodegenError>| compiler::is_made(made) && #[trigger] is_tried_out(r, made, *ir_func, init_symbol@),
{
    let made = Compiler::new();
    let ghost first = made;
    let r = unit_codegen_ok(made, ir_func, init_symbol);
    assert(compiler::is_made(first) && is_tried_out(r, first, *ir_func, init_symbol@));
    r
}

fn is_inst_ok(inst: &Inst) -> (r: bool)
    ensures
        r == emission::inst_ok(*inst),
{
    match inst {
        Inst::CallKnown(_, kf, args) => match kf {
            KnownFn::AtomSwap => args.len() >= 2,
            KnownFn::WithBindings => args.len() >= 1,
            _ => true,
        },
        Inst::AllocClosure(_, t, _) => t.arity_fn_names.len() != 1 || (t.param_counts.len() >= 1 && t.is_variadic.len() >= 1),
        _ => true,
    }
}

fn is_block_named(blocks: &Vec<Block>, id: BlockId) -> (r: bool)
    ensures
        r == emission::has_block(blocks@, id),
{
    match find_block(blocks, id) {
        Some(_) => true,
        None => {
            proof {
                no_such_block(blocks@, id, 0);
            }
            false
        },
    }
}

proof fn no_such_block(blocks: Seq<Block>, id: BlockId, i: int)
    requires
        0 <= i <= blocks.len(),
        ir::first_block(blocks, id, i) == blocks.len(),
    ensures
        forall|k: int| i <= k < blocks.len() ==> (#[trigger] blocks[k]).id != id,
    decreases blocks.len() - i,
{
    if i < blocks.len() {
        if blocks[i].id != id {
            no_such_block(blocks, id, i + 1);
        }
    }
}

/// Whether a function can be translated.
pub fn is_function_ok(f: &IrFunction) -> (r: bool)
    ensures
        r == emission::function_ok(*f),
{
    if f.blocks.len() == 0 {
        return false;
    }
    let mut j: usize = 0;
    while j < f.blocks.len()
        invariant
            j <= f.blocks@.len(),
            forall|k: int| 0 <= k < j ==> emission::names_blocks(f.blocks@, (#[trigger] f.blocks@[k]).terminator),
            forall|k: int, i: int| 0 <= k < j && 0 <= i < f.blocks@[k].insts@.len() ==> emission::inst_ok(#[trigger] f.blocks@[k].insts@[i]),
        decreases f.blocks@.len() - j,
    {
        let b = &f.blocks[j];
        let named = match &b.terminator {
            Terminator::Jump(t) => is_block_named(&f.blocks, *t),
            Terminator::Branch { cond: _, then_block, else_block } => is_block_named(&f.blocks, *then_block) && is_block_named(&f.blocks, *else_block),
            Terminator::RecurJump { target, args: _ } => is_block_named(&f.blocks, *target),
            _ => true,
        };
        if !named {
            assert(!emission::names_blocks(f.blocks@, f.blocks@[j as int].terminator));
            return false;
        }
        let mut i: usize = 0;
        while i < b.insts.len()
            invariant
                i <= b.insts@.len(),
                j < f.blocks@.len(),
                *b == f.blocks@[j as int],
                forall|k: int| 0 <= k < i ==> emission::inst_ok(#[trigger] f.blocks@[j as int].insts@[k]),
            decreases b.insts@.len() - i,
        {
            if !is_inst_ok(&b.insts[i]) {
                assert(!emission::inst_ok(f.blocks@[j as int].insts@[i as int]));
                return false;
            }
            i += 1;
        }
        j += 1;
    }
    true
}

fn are_all_ok(fs: &Vec<IrFunction>) -> (r: bool)
    ensures
        r == all_ok(inner_first(fs@, fs@.len() as int)),
    decreases fs@,
{
    let ghost all = inner_first(fs@, fs@.len() as int);
    let mut i: usize = 0;
    while i < fs.len()
        invariant
            i <= fs@.len(),
            all == inner_first(fs@, fs@.len() as int),
            all_ok(inner_first(fs@, i as int)),
        decreases fs@.len() - i,
    {
        let f = &fs[i];
        let ghost before = inner_first(fs@, i as int);
        let ghost inner = inner_first(f.subfunctions@, f.subfunctions@.len() as int);
        let n: usize = f.params.len();
        let ok = are_all_ok(&f.subfunctions) && is_function_ok(f) && n < usize::MAX;
        proof {
            if !ok && all_ok(all) {
                ok_inside(fs@, i as int);
            }
            assert(inner_first(fs@, i + 1) == (before + inner).push(*f));
            if ok {
                let next = inner_first(fs@, i + 1);
                assert forall|k: int| 0 <= k < next.len() implies emission::function_ok(#[trigger] next[k]) && is_countable(next[k]) by {
                    if k < before.len() {
                        assert(next[k] == before[k]);
                    } else if k < before.len() + inner.len() {
                        let o = k - before.len();
                        assert(next[k] == inner[o]);
                    }
                }
            }
        }
        if !ok {
            return false;
        }
        i += 1;
    }
    true
}

/// Whether a unit can be translated.
pub fn is_unit_ok(f: &IrFunction) -> (r: bool)
    ensures
        r == unit_ok(*f),
{
    are_all_ok(&f.subfunctions) && is_function_ok(f)
}

} // verus!
