//! What the runtime remembers: interned values, inline caches, hooks and counters.
use crate::bridge;
use crate::bridge::RtFn;
use crate::rt_abi::calls::{rt_throw, Pending};
use crate::text;
use crate::text::{render_decimal, same};
use crate::value::{Value, ValueView};
use vstd::prelude::*;
use vstd::string::*;

verus! {

/// Integers from zero up to this one, which is not among them, are allocated once.
pub const INTERN_LONG_MAX: i64 = 1024;

/// Where a value is allocated.
#[derive(Clone, Copy, Debug, PartialEq, Eq, Structural)]
pub enum Place {
    /// It was allocated once, and is shared.
    Interned,
    /// In the open region, where there is one, else on the heap.
    Region,
    /// On the heap.
    Heap,
}

/// The value is allocated once.
pub open spec fn is_interned(v: ValueView) -> bool {
    match v {
        ValueView::Nil => true,
        ValueView::Bool(_) => true,
        ValueView::Long(n) => 0 <= n < INTERN_LONG_MAX,
        _ => false,
    }
}

/// The value is a collection that may be allocated in a region.
pub open spec fn is_collection(v: ValueView) -> bool {
    v is Vector || v is HashSet || v is SortedSet || v is List || v is Dict || v is Cons
}

/// Where a value is allocated.
pub fn box_or_intern_val(v: &Value) -> (r: Place)
    ensures
        r == (if is_interned(v@) { Place::Interned } else { Place::Heap }),
{
    match v {
        Value::Nil => Place::Interned,
        Value::Bool(_) => Place::Interned,
        Value::Long(n) => if 0 <= *n && *n < INTERN_LONG_MAX { Place::Interned } else { Place::Heap },
        _ => Place::Heap,
    }
}

/// Where the result of a call is allocated: a collection may go into the open region.  A number may
/// outlive the region, and never does.
pub fn box_invoke_result(v: &Value) -> (r: Place)
    ensures
        r == (if is_interned(v@) { Place::Interned } else if is_collection(v@) { Place::Region } else { Place::Heap }),
{
    match v {
        Value::Vector(_) => Place::Region,
        Value::HashSet(_) => Place::Region,
        Value::SortedSet(_) => Place::Region,
        Value::List(_) => Place::Region,
        Value::Dict(_) => Place::Region,
        Value::Cons(_, _) => Place::Region,
        _ => box_or_intern_val(v),
    }
}

/// The symbols of the runtime that compiled code cannot call yet.
pub open spec fn more_symbols() -> Seq<Seq<char>> {
    seq![
        "rt_alength"@,
        "rt_aget_long"@,
        "rt_aget_double"@,
        "rt_aset_long"@,
        "rt_aset_double"@,
        "rt_aget"@,
        "rt_aset"@,
        "rt_unchecked_add"@,
        "rt_unchecked_sub"@,
        "rt_unchecked_mul"@,
        "rt_case_eq"@,
        "rt_scratch_ptr"@,
        "rt_sm_state"@,
        "rt_sm_set_state"@,
        "rt_state_store"@,
        "rt_state_load"@,
        "rt_async_register"@,
        "rt_async_poll_ready"@,
        "rt_async_take_result"@,
        "rt_async_set_result"@,
    ]
}

/// The symbols of the runtime: those of the bridge, and the others.
pub open spec fn anchored() -> Seq<Seq<char>> {
    bridge::rt_order().map_values(|f: RtFn| bridge::rt_symbol(f)) + more_symbols()
}

/// The texts of a list.
pub open spec fn names(ts: Seq<&'static str>) -> Seq<Seq<char>> {
    ts.map_values(|t: &'static str| t@)
}

fn other_symbols() -> (r: Vec<&'static str>)
    ensures
        names(r@) == more_symbols(),
{
    let mut out: Vec<&'static str> = Vec::new();
    out.push("rt_alength");
    out.push("rt_aget_long");
    out.push("rt_aget_double");
    out.push("rt_aset_long");
    out.push("rt_aset_double");
    out.push("rt_aget");
    out.push("rt_aset");
    out.push("rt_unchecked_add");
    out.push("rt_unchecked_sub");
    out.push("rt_unchecked_mul");
    out.push("rt_case_eq");
    out.push("rt_scratch_ptr");
    out.push("rt_sm_state");
    out.push("rt_sm_set_state");
    out.push("rt_state_store");
    out.push("rt_state_load");
    out.push("rt_async_register");
    out.push("rt_async_poll_ready");
    out.push("rt_async_take_result");
    out.push("rt_async_set_result");
    assert(names(out@) =~= more_symbols());
    out
}

/// The symbols that a linked program has to keep: all of the runtime's.
pub fn anchor_rt_symbols() -> (r: Vec<&'static str>)
    ensures
        names(r@) == anchored(),
{
    let order = RtFn::all();
    let mut out: Vec<&'static str> = Vec::new();
    let mut i: usize = 0;
    while i < order.len()
        invariant
            i <= order@.len(),
            order@ == bridge::rt_order(),
            out@.len() == i,
            forall|k: int| 0 <= k < i ==> (#[trigger] out@[k])@ == bridge::rt_symbol(order@[k]),
        decreases order@.len() - i,
    {
        out.push(order[i].symbol());
        i += 1;
    }
    let ghost first = out@;
    let more = other_symbols();
    let mut i: usize = 0;
    while i < more.len()
        invariant
            i <= more@.len(),
            names(more@) == more_symbols(),
            out@ == first + more@.take(i as int),
        decreases more@.len() - i,
    {
        out.push(more[i]);
        assert(more@.take(i + 1) =~= more@.take(i as int).push(more@[i as int]));
        i += 1;
    }
    assert(more@.take(more@.len() as int) =~= more@);
    assert(names(out@) =~= anchored());
    out
}

/// Every function that compiled code can call is kept.
pub proof fn every_bridge_function_is_anchored(f: RtFn)
    ensures
        anchored().contains(bridge::rt_symbol(f)),
{
    let i = bridge::rt_index(f);
    bridge::declared_exactly_once(f, i);
    assert(anchored()[i] == bridge::rt_symbol(f));
}

/// The position, from `i` on, of a text in a table.
pub open spec fn name_at(table: Seq<Seq<char>>, name: Seq<char>, i: int) -> int
    decreases table.len() - i,
{
    if i < 0 || i >= table.len() {
        table.len() as int
    } else if table[i] == name {
        i
    } else {
        name_at(table, name, i + 1)
    }
}

/// The texts of a table.
pub open spec fn table_view(ts: Seq<String>) -> Seq<Seq<char>> {
    ts.map_values(|t: String| t@)
}

/// The number of a name in a table of interned names: that of an earlier occurrence, or a new one.
/// A number that was handed out stays.
pub fn intern_keyword(table: &mut Vec<String>, name: &str) -> (r: usize)
    ensures
        r == name_at(table_view(old(table)@), name@, 0),
        r < final(table)@.len(),
        table_view(final(table)@)[r as int] == name@,
        table_view(final(table)@) == (if r < old(table)@.len() { table_view(old(table)@) } else { table_view(old(table)@).push(name@) }),
{
    let ghost tv = table_view(table@);
    let mut i: usize = 0;
    while i < table.len()
        invariant
            i <= table@.len(),
            tv == table_view(table@),
            tv == table_view(old(table)@),
            table@ == old(table)@,
            name_at(tv, name@, 0) == name_at(tv, name@, i as int),
        decreases table@.len() - i,
    {
        assert(tv[i as int] == table@[i as int]@);
        if same(table[i].as_str(), name) {
            return i;
        }
        i += 1;
    }
    table.push(name.to_owned());
    assert(table_view(table@) =~= tv.push(name@));
    i
}

proof fn name_is_found(table: Seq<Seq<char>>, name: Seq<char>, i: int)
    requires
        0 <= i <= table.len(),
    ensures
        i <= name_at(table, name, i) <= table.len(),
        name_at(table, name, i) < table.len() ==> table[name_at(table, name, i)] == name,
        forall|k: int| i <= k < name_at(table, name, i) ==> #[trigger] table[k] != name,
    decreases table.len() - i,
{
    if i < table.len() && table[i] != name {
        name_is_found(table, name, i + 1);
    }
}

/// A name that has been interned keeps its number, whatever is interned later.
pub proof fn an_interned_name_keeps_its_number(table: Seq<Seq<char>>, name: Seq<char>, other: Seq<char>)
    requires
        table.contains(name),
    ensures
        name_at(table, name, 0) < table.len(),
        name_at(table.push(other), name, 0) == name_at(table, name, 0),
{
    name_is_found(table, name, 0);
    name_is_found(table.push(other), name, 0);
    let k = choose|k: int| 0 <= k < table.len() && table[k] == name;
    let a = name_at(table, name, 0);
    let b = name_at(table.push(other), name, 0);
    assert(table.push(other)[k] == name);
    if a < b {
        assert(table.push(other)[a] == name);
    } else if b < a {
        assert(table[b] == name);
    }
}

/// The key of a pinned name in the table of resolved ones.
pub fn versioned_key(ns: &str, name: &str) -> (r: String)
    ensures
        r@ == ns@ + "/"@ + name@,
{
    ns.to_owned().concat("/").concat(name)
}

/// What a call site remembers of its last dispatch: which function of a protocol was called, in
/// which state of the protocols, for which kind of value, and what ran.
#[derive(Debug)]
pub struct IcEntry {
    pub callee: u64,
    pub generation: u64,
    pub tag: String,
    pub impl_id: u64,
}

/// The entry that a call site can use: it has one, for the same function, and the protocols have not
/// changed since.  A slot holds zero, or the number of an entry and one.
pub open spec fn usable(table: Seq<IcEntry>, slot: usize, callee: u64, generation: u64) -> Option<IcEntry> {
    if slot == 0 || slot > table.len() {
        None
    } else if table[slot - 1].callee == callee && table[slot - 1].generation == generation {
        Some(table[slot - 1])
    } else {
        None
    }
}

/// The entry that a call site can use, if the value that it dispatches on is of the entry's kind.
pub fn ic_candidate(table: &Vec<IcEntry>, slot: usize, callee: u64, generation: u64) -> (r: Option<&IcEntry>)
    ensures
        match r {
            Some(e) => usable(table@, slot, callee, generation) == Some(*e),
            None => usable(table@, slot, callee, generation) is None,
        },
{
    if slot == 0 || slot > table.len() {
        return None;
    }
    let e = &table[slot - 1];
    if e.callee == callee && e.generation == generation { Some(e) } else { None }
}

/// Remembers a dispatch for a call site, and returns its slot: an entry that it has is replaced, and
/// a new one comes behind the others.
pub fn ic_fill(table: &mut Vec<IcEntry>, slot: usize, entry: IcEntry) -> (r: usize)
    requires
        old(table)@.len() < usize::MAX,
    ensures
        slot == 0 ==> r == old(table)@.len() + 1 && final(table)@ == old(table)@.push(entry),
        0 < slot <= old(table)@.len() ==> r == slot && final(table)@ == old(table)@.update(slot - 1, entry),
        slot > old(table)@.len() ==> r == slot && final(table)@ == old(table)@,
{
    if slot == 0 {
        table.push(entry);
        return table.len();
    }
    if slot <= table.len() {
        table.set(slot - 1, entry);
    }
    slot
}

/// What a call site does that has no entry to use: it remembers and calls what the protocol has for
/// the value, or leaves the call to the interpreter where the protocol has nothing.
pub fn rt_call_ic(table: &mut Vec<IcEntry>, slot: usize, resolved: Option<IcEntry>) -> (r: (usize, Option<u64>))
    requires
        old(table)@.len() < usize::MAX,
    ensures
        match resolved {
            Some(entry) => {
                &&& r.1 == Some(entry.impl_id)
                &&& slot == 0 ==> r.0 == old(table)@.len() + 1 && final(table)@ == old(table)@.push(entry)
                &&& 0 < slot <= old(table)@.len() ==> r.0 == slot && final(table)@ == old(table)@.update(slot - 1, entry)
                &&& slot > old(table)@.len() ==> r.0 == slot && final(table)@ == old(table)@
            },
            None => r == (slot, None::<u64>) && final(table)@ == old(table)@,
        },
{
    match resolved {
        Some(entry) => {
            let id: u64 = entry.impl_id;
            (ic_fill(table, slot, entry), Some(id))
        },
        None => (slot, None),
    }
}

/// A call site finds again what it remembered, as long as the protocols do not change.
pub proof fn a_dispatch_is_remembered(table: Seq<IcEntry>, entry: IcEntry, slot: usize)
    requires
        0 < slot <= table.len(),
        table[slot - 1] == entry,
    ensures
        usable(table, slot, entry.callee, entry.generation) == Some(entry),
        forall|generation: u64| generation != entry.generation ==> #[trigger] usable(table, slot, entry.callee, generation) is None,
{
}

/// A hook that is set at most once.
#[derive(Debug)]
pub struct Hook {
    pub id: Option<u64>,
}

/// The hook that is set where `id` comes to `hook`: the first one stays.
pub open spec fn hooked(hook: Option<u64>, id: u64) -> Option<u64> {
    match hook {
        Some(first) => Some(first),
        None => Some(id),
    }
}

/// Sets the hook that is told of closures over compiled code.  The first one stays.
pub fn set_closure_escape_hook(hook: &mut Hook, id: u64)
    ensures
        final(hook).id == hooked(old(hook).id, id),
{
    if hook.id.is_none() {
        hook.id = Some(id);
    }
}

/// The address of the value that stands for a failed guard, where `fresh` is at hand: the first one.
pub open spec fn sentinel_of(sentinel: Option<u64>, fresh: u64) -> u64 {
    match sentinel {
        Some(first) => first,
        None => fresh,
    }
}

/// The value that stands for a failed guard stands at an address, where it has been allocated.
pub open spec fn is_sentinel(sentinel: Option<u64>) -> bool {
    sentinel != Some(0u64)
}

/// The address of the value that stands for a failed guard: it is allocated once, and stays.
pub fn deopt_sentinel_addr(sentinel: &mut Option<u64>, fresh: u64) -> (r: u64)
    requires
        is_sentinel(*old(sentinel)),
        fresh != 0,
    ensures
        r == sentinel_of(*old(sentinel), fresh),
        r != 0,
        *final(sentinel) == Some(r),
        is_sentinel(*final(sentinel)),
{
    match *sentinel {
        Some(first) => first,
        None => {
            *sentinel = Some(fresh);
            fresh
        },
    }
}

/// Every failed guard comes to the same address, whatever else has been allocated in between, and it
/// is one that the first failed guard or the first question for it got.  An ordinary result, which is
/// an allocation of its own, has another.
pub proof fn the_sentinel_stays(sentinel: Option<u64>, first: u64, later: u64, ordinary: u64)
    requires
        is_sentinel(sentinel),
        first != 0,
        ordinary != first,
        sentinel != Some(ordinary),
    ensures
        sentinel_of(Some(sentinel_of(sentinel, first)), later) == sentinel_of(sentinel, first),
        sentinel_of(sentinel, first) != 0,
        sentinel is None ==> sentinel_of(sentinel, first) == first,
        sentinel_of(sentinel, first) != ordinary,
{
}

/// The first hook that is set is the one that every closure over compiled code is told to, whatever
/// is set behind it.
pub proof fn the_first_hook_is_told(first: u64, second: u64)
    ensures
        hooked(hooked(None, first), second) == Some(first),
{
}

/// Counters of what compiled code does.
#[derive(Clone, Copy, Debug, PartialEq, Eq, Structural)]
pub struct JitStats {
    pub boxed_arith_calls: u64,
    pub guard_deopts: u64,
    pub kw_ic_fills: u64,
    pub proto_ic_hits: u64,
    pub proto_ic_misses: u64,
}

/// An event that is counted.
#[derive(Clone, Copy, Debug, PartialEq, Eq, Structural)]
pub enum Event {
    BoxedArith,
    GuardDeopt,
    KeywordFill,
    ProtocolHit,
    ProtocolMiss,
}

impl JitStats {
    /// How often something has happened.
    pub open spec fn spec_count(&self, e: Event) -> u64 {
        match e {
            Event::BoxedArith => self.boxed_arith_calls,
            Event::GuardDeopt => self.guard_deopts,
            Event::KeywordFill => self.kw_ic_fills,
            Event::ProtocolHit => self.proto_ic_hits,
            Event::ProtocolMiss => self.proto_ic_misses,
        }
    }

    /// Counts an event; a counter that is full starts again.
    pub fn bump(&mut self, e: Event)
        ensures
            final(self).spec_count(e) == (if old(self).spec_count(e) == u64::MAX { 0u64 } else { (old(self).spec_count(e) + 1) as u64 }),
            forall|o: Event| o != e ==> #[trigger] final(self).spec_count(o) == old(self).spec_count(o),
    {
        match e {
            Event::BoxedArith => {
                self.boxed_arith_calls = self.boxed_arith_calls.wrapping_add(1);
            },
            Event::GuardDeopt => {
                self.guard_deopts = self.guard_deopts.wrapping_add(1);
            },
            Event::KeywordFill => {
                self.kw_ic_fills = self.kw_ic_fills.wrapping_add(1);
            },
            Event::ProtocolHit => {
                self.proto_ic_hits = self.proto_ic_hits.wrapping_add(1);
            },
            Event::ProtocolMiss => {
                self.proto_ic_misses = self.proto_ic_misses.wrapping_add(1);
            },
        }
    }
}

/// The counters in words.
pub open spec fn snapshot_text(s: JitStats) -> Seq<char> {
    "JIT specialization stats:\n  Boxed arith calls:    "@ + text::decimal(s.boxed_arith_calls as nat) + "\n  Guard deopts:         "@ + text::decimal(s.guard_deopts as nat)
        + "\n  Keyword IC fills:     "@ + text::decimal(s.kw_ic_fills as nat) + "\n  Protocol IC hits:     "@ + text::decimal(s.proto_ic_hits as nat)
        + "\n  Protocol IC misses:   "@ + text::decimal(s.proto_ic_misses as nat) + "\n"@
}

/// The counters in words.
pub fn snapshot(s: &JitStats) -> (r: String)
    ensures
        r@ == snapshot_text(*s),
{
    "JIT specialization stats:\n  Boxed arith calls:    ".to_owned().concat(render_decimal(s.boxed_arith_calls).as_str()).concat("\n  Guard deopts:         ").concat(
        render_decimal(s.guard_deopts).as_str(),
    ).concat("\n  Keyword IC fills:     ").concat(render_decimal(s.kw_ic_fills).as_str()).concat("\n  Protocol IC hits:     ").concat(
        render_decimal(s.proto_ic_hits).as_str(),
    ).concat("\n  Protocol IC misses:   ").concat(render_decimal(s.proto_ic_misses).as_str()).concat("\n")
}

/// A guard that fails: it is counted, and comes to the value that stands for it.
pub fn rt_deopt(stats: &mut JitStats, sentinel: &mut Option<u64>, fresh: u64) -> (r: u64)
    requires
        is_sentinel(*old(sentinel)),
        fresh != 0,
    ensures
        r == sentinel_of(*old(sentinel), fresh),
        r != 0,
        *final(sentinel) == Some(r),
        is_sentinel(*final(sentinel)),
        final(stats).spec_count(Event::GuardDeopt) == (if old(stats).spec_count(Event::GuardDeopt) == u64::MAX { 0u64 } else { (old(stats).spec_count(Event::GuardDeopt) + 1) as u64 }),
        forall|o: Event| o != Event::GuardDeopt ==> #[trigger] final(stats).spec_count(o) == old(stats).spec_count(o),
{
    stats.bump(Event::GuardDeopt);
    deopt_sentinel_addr(sentinel, fresh)
}

/// Whether two values are one: whether they stand at the same address.
pub fn rt_identical(a: u64, b: u64) -> (r: Value)
    ensures
        r@ == ValueView::Bool(a == b),
{
    Value::Bool(a == b)
}

/// What loading a pinned name comes to.
#[derive(Clone, Copy, Debug, PartialEq, Eq, Structural)]
pub enum Pinned {
    /// The name is not pinned: it is loaded as any other.
    Generic,
    /// The value with this number in the table of resolved names.
    Resolved(usize),
    /// The name could not be resolved: the code goes on with nil.
    Missing,
}

/// What a resolver answers.
#[derive(Debug)]
pub enum Answer {
    Found,
    /// It could not be resolved, for this reason.
    Failed(String),
    /// There is nobody to ask.
    Unasked,
}

/// Loads a name at a call site, given whether it is pinned and what the resolver answered.  A name that has been
/// resolved before keeps its value; the slot of the site is filled where there is one, and left for
/// another attempt where there is none.  Where the resolver failed its reason is pending.
pub fn rt_load_global_versioned_ic(table: &mut Vec<String>, ns: &str, name: &str, is_pinned: bool, answer: Answer, slot: &mut usize, pending: &mut Pending) -> (r: Pinned)
    ensures
        ({
            let key = ns@ + "/"@ + name@;
            let at = name_at(table_view(old(table)@), key, 0);
            if !is_pinned {
                r == Pinned::Generic && final(table)@ == old(table)@ && *final(slot) == *old(slot) && *final(pending) == *old(pending)
            } else if at < old(table)@.len() {
                r == Pinned::Resolved(at as usize) && table_view(final(table)@) == table_view(old(table)@) && *final(slot) == at + 1 && *final(pending) == *old(pending)
            } else {
                match answer {
                    Answer::Found => r == Pinned::Resolved(at as usize) && table_view(final(table)@) == table_view(old(table)@).push(key) && *final(slot) == at + 1
                        && *final(pending) == *old(pending),
                    Answer::Failed(why) => r == Pinned::Missing && final(table)@ == old(table)@ && *final(slot) == *old(slot) && final(pending).exception == Some(Value::Str(why)),
                    Answer::Unasked => r == Pinned::Missing && final(table)@ == old(table)@ && *final(slot) == *old(slot) && *final(pending) == *old(pending),
                }
            }
        }),
{
    if !is_pinned {
        return Pinned::Generic;
    }
    let key = versioned_key(ns, name);
    if !is_in_table(table, key.as_str()) {
        match answer {
            Answer::Found => {},
            Answer::Failed(why) => {
                rt_throw(pending, Value::Str(why));
                return Pinned::Missing;
            },
            Answer::Unasked => return Pinned::Missing,
        }
    }
    let n: usize = intern_keyword(table, key.as_str());
    let len: usize = table.len();
    assert(n < len);
    *slot = n + 1;
    Pinned::Resolved(n)
}

fn is_in_table(table: &Vec<String>, name: &str) -> (r: bool)
    ensures
        r == (name_at(table_view(table@), name@, 0) < table@.len()),
{
    let ghost tv = table_view(table@);
    let mut i: usize = 0;
    while i < table.len()
        invariant
            i <= table@.len(),
            tv == table_view(table@),
            name_at(tv, name@, 0) == name_at(tv, name@, i as int),
        decreases table@.len() - i,
    {
        assert(tv[i as int] == table@[i as int]@);
        if same(table[i].as_str(), name) {
            return true;
        }
        i += 1;
    }
    false
}

/// Makes room for `n_bytes` in the buffer of a thread: it grows where it is too small, never
/// shrinks, and keeps what it holds.
pub fn rt_scratch_ptr(buf: &mut Vec<u8>, n_bytes: u32)
    ensures
        final(buf)@.len() == (if old(buf)@.len() < n_bytes { n_bytes as nat } else { old(buf)@.len() }),
        final(buf)@.subrange(0, old(buf)@.len() as int) == old(buf)@,
        forall|k: int| old(buf)@.len() <= k < final(buf)@.len() ==> #[trigger] final(buf)@[k] == 0,
{
    let n: usize = n_bytes as usize;
    while buf.len() < n
        invariant
            n == n_bytes,
            old(buf)@.len() <= buf@.len(),
            buf@.len() <= n || buf@.len() == old(buf)@.len(),
            buf@.subrange(0, old(buf)@.len() as int) == old(buf)@,
            forall|k: int| old(buf)@.len() <= k < buf@.len() ==> #[trigger] buf@[k] == 0,
        decreases n - buf@.len(),
    {
        buf.push(0);
        assert(buf@.subrange(0, old(buf)@.len() as int) =~= old(buf)@);
    }
    assert(buf@.subrange(0, old(buf)@.len() as int) =~= old(buf)@);
}

} // verus!
