//! The state of an async function between two polls, and the regions that compiled code opens.
use crate::value;
use crate::value::{copy_value, Value, ValueView};
use vstd::prelude::*;

verus! {

/// The state of an async function: where it goes on, what it has saved, and what it waits for.
#[derive(Debug)]
pub struct StateMachine {
    pub state: i32,
    pub slots: Vec<Value>,
    pub pending: Value,
}

/// The state of an async function.
pub struct MachineView {
    pub state: i32,
    pub slots: Seq<ValueView>,
    pub pending: ValueView,
}

impl View for StateMachine {
    type V = MachineView;

    open spec fn view(&self) -> MachineView {
        MachineView { state: self.state, slots: value::views(self.slots@), pending: self.pending@ }
    }
}

impl StateMachine {
    /// A machine at its start, with empty slots.
    pub fn new(n_slots: usize) -> (r: StateMachine)
        ensures
            r@.state == 0,
            r@.slots == Seq::new(n_slots as nat, |i: int| ValueView::Nil),
            r@.pending == ValueView::Nil,
    {
        let mut slots: Vec<Value> = Vec::new();
        let mut i: usize = 0;
        assert(value::views(slots@) =~= Seq::new(0, |i: int| ValueView::Nil));
        while i < n_slots
            invariant
                i <= n_slots,
                value::views(slots@) == Seq::new(i as nat, |i: int| ValueView::Nil),
            decreases n_slots - i,
        {
            proof {
                value::views_push(slots@, Value::Nil);
                assert(Seq::new(i as nat, |i: int| ValueView::Nil).push(ValueView::Nil) =~= Seq::new((i + 1) as nat, |i: int| ValueView::Nil));
            }
            slots.push(Value::Nil);
            i += 1;
        }
        StateMachine { state: 0, slots, pending: Value::Nil }
    }
}

/// Where the function goes on.
pub fn rt_sm_state(sm: &StateMachine) -> (r: i32)
    ensures
        r == sm@.state,
{
    sm.state
}

/// Sets where the function goes on.
pub fn rt_sm_set_state(sm: &mut StateMachine, state: i32)
    ensures
        final(sm)@ == (MachineView { state, ..old(sm)@ }),
{
    sm.state = state;
}

/// Saves a value in a slot.
pub fn rt_state_store(sm: &mut StateMachine, slot: u32, v: &Value)
    requires
        slot < old(sm)@.slots.len(),
    ensures
        final(sm)@ == (MachineView { slots: old(sm)@.slots.update(slot as int, v@), ..old(sm)@ }),
{
    let x = copy_value(v);
    proof {
        value::views_at(sm.slots@);
        value::views_at(sm.slots@.update(slot as int, x));
        assert(value::views(sm.slots@.update(slot as int, x)) =~= value::views(sm.slots@).update(slot as int, x@));
    }
    sm.slots.set(slot as usize, x);
}

/// A copy of the value in a slot.
pub fn rt_state_load(sm: &StateMachine, slot: u32) -> (r: Value)
    requires
        slot < sm@.slots.len(),
    ensures
        r@ == sm@.slots[slot as int],
{
    proof {
        value::views_at(sm.slots@);
    }
    copy_value(&sm.slots[slot as usize])
}

/// Sets what the function waits for.
pub fn rt_async_register(sm: &mut StateMachine, v: &Value)
    ensures
        final(sm)@ == (MachineView { pending: v@, ..old(sm)@ }),
{
    sm.pending = copy_value(v);
}

/// What is known of something that is waited for.
#[derive(Debug)]
pub enum Readiness {
    Pending,
    Ready(Value),
    Failed(Value),
}

/// What is known of what the function waits for; a value that is nothing to wait for is ready as it
/// is.
pub open spec fn readiness(future: Option<Readiness>, pending: ValueView) -> (i32, ValueView) {
    match future {
        None => (1i32, pending),
        Some(Readiness::Pending) => (0i32, pending),
        Some(Readiness::Ready(v)) => (1i32, v@),
        Some(Readiness::Failed(e)) => (2i32, e@),
    }
}

/// Whether the function can go on: zero while it waits, one where what it waits for is ready, and
/// two where that failed.  What came of it takes the place of what was waited for.
pub fn rt_async_poll_ready(sm: &mut StateMachine, future: Option<Readiness>) -> (r: i32)
    ensures
        r == readiness(future, old(sm)@.pending).0,
        final(sm)@ == (MachineView { pending: readiness(future, old(sm)@.pending).1, ..old(sm)@ }),
{
    match future {
        None => 1,
        Some(Readiness::Pending) => 0,
        Some(Readiness::Ready(v)) => {
            sm.pending = v;
            1
        },
        Some(Readiness::Failed(e)) => {
            sm.pending = e;
            2
        },
    }
}

/// A copy of what came of what the function waited for.
pub fn rt_async_take_result(sm: &StateMachine) -> (r: Value)
    ensures
        r@ == sm@.pending,
{
    copy_value(&sm.pending)
}

/// Sets the result of the function.
pub fn rt_async_set_result(sm: &mut StateMachine, v: &Value)
    ensures
        final(sm)@ == (MachineView { pending: v@, ..old(sm)@ }),
{
    sm.pending = copy_value(v);
}

/// What was saved in a slot comes back, and saving it leaves the other slots.
pub proof fn what_was_saved_comes_back(slots: Seq<ValueView>, slot: int, v: ValueView, other: int)
    requires
        0 <= slot < slots.len(),
        0 <= other < slots.len(),
    ensures
        slots.update(slot, v)[slot] == v,
        other != slot ==> slots.update(slot, v)[other] == slots[other],
{
}

/// The regions of a thread, the innermost last.
#[derive(Debug)]
pub struct Regions {
    /// Those that compiled code has opened.
    pub open: Vec<u64>,
    /// Those that allocations go to: those of compiled code, and those of the interpreter between
    /// them.
    pub active: Vec<u64>,
}

/// Opens a region: allocations go to it from here on.
pub fn rt_region_start(regions: &mut Regions, handle: u64) -> (r: u64)
    ensures
        r == handle,
        final(regions).open@ == old(regions).open@.push(handle),
        final(regions).active@ == old(regions).active@.push(handle),
{
    regions.open.push(handle);
    regions.active.push(handle);
    handle
}

/// The regions without the innermost.
pub open spec fn without_last(rs: Seq<u64>) -> Seq<u64> {
    if rs.len() == 0 { rs } else { rs.drop_last() }
}

/// Closes the innermost region that compiled code has opened, and returns which that was.
pub fn rt_region_end(regions: &mut Regions) -> (r: Option<u64>)
    ensures
        match r {
            Some(handle) => old(regions).open@.len() > 0 && handle == old(regions).open@.last() && final(regions).open@ == old(regions).open@.drop_last()
                && final(regions).active@ == without_last(old(regions).active@),
            None => old(regions).open@.len() == 0 && final(regions).open@ == old(regions).open@ && final(regions).active@ == old(regions).active@,
        },
{
    match regions.open.pop() {
        Some(handle) => {
            let _ = regions.active.pop();
            Some(handle)
        },
        None => None,
    }
}

/// The lesser of two numbers.
pub open spec fn lesser(a: int, b: int) -> int {
    if a < b { a } else { b }
}

/// How many regions are left active when `closed` are closed and the others are cut to a depth.
pub open spec fn left_active(active: int, closed: int, depth: int) -> int {
    lesser(if closed < active { active - closed } else { 0 }, depth)
}

/// Closes the regions that compiled code has opened above a depth, the innermost first, and returns
/// which those were; what else is active above its own depth goes too.
pub fn unwind_regions_to(regions: &mut Regions, active_depth: usize, depth: usize) -> (r: Vec<u64>)
    ensures
        ({
            let kept = lesser(depth as int, old(regions).open@.len() as int);
            let active = old(regions).active@;
            &&& r@ == old(regions).open@.skip(kept).reverse()
            &&& final(regions).open@ == old(regions).open@.take(kept)
            &&& final(regions).active@ == active.take(left_active(active.len() as int, old(regions).open@.len() - kept, active_depth as int))
        }),
{
    let ghost all = regions.open@;
    let ghost act = regions.active@;
    let ghost kept = lesser(depth as int, all.len() as int);
    let mut closed: Vec<u64> = Vec::new();
    assert(all.skip(all.len() as int).reverse() =~= Seq::empty());
    assert(all.take(all.len() as int) =~= all);
    assert(act.take(act.len() as int) =~= act);
    while regions.open.len() > depth
        invariant
            kept == lesser(depth as int, all.len() as int),
            kept <= regions.open@.len() <= all.len(),
            all == old(regions).open@,
            act == old(regions).active@,
            regions.open@ == all.take(regions.open@.len() as int),
            closed@ == all.skip(regions.open@.len() as int).reverse(),
            regions.active@ == act.take(left_active(act.len() as int, all.len() - regions.open@.len(), act.len() as int)),
        decreases regions.open@.len(),
    {
        let ghost n = regions.open@.len() as int;
        let ghost before = regions.active@;
        match regions.open.pop() {
            Some(handle) => {
                let _ = regions.active.pop();
                closed.push(handle);
                proof {
                    assert(handle == all[n - 1]);
                    assert(regions.open@ =~= all.take(n - 1));
                    assert(all.skip(n - 1).reverse() =~= all.skip(n).reverse().push(all[n - 1]));
                    assert(regions.active@ =~= act.take(left_active(act.len() as int, all.len() - (n - 1), act.len() as int)));
                }
            },
            None => {},
        }
    }
    assert(regions.open@.len() == kept);
    while regions.active.len() > active_depth
        invariant
            act == old(regions).active@,
            all == old(regions).open@,
            regions.open@ == all.take(kept),
            0 <= kept <= all.len(),
            closed@ == all.skip(kept).reverse(),
            regions.active@.len() <= act.len(),
            regions.active@ == act.take(regions.active@.len() as int),
            left_active(act.len() as int, all.len() - kept, active_depth as int) <= regions.active@.len() <= left_active(act.len() as int, all.len() - kept, act.len() as int),
        decreases regions.active@.len(),
    {
        let ghost m = regions.active@.len() as int;
        let _ = regions.active.pop();
        assert(regions.active@ =~= act.take(m - 1));
    }
    closed
}

/// A region that is opened and closed leaves the others as they were.
pub proof fn opening_and_closing_leaves_the_others(open: Seq<u64>, handle: u64)
    ensures
        without_last(open.push(handle)) == open,
        open.push(handle).last() == handle,
{
    assert(open.push(handle).drop_last() =~= open);
}

} // verus!
