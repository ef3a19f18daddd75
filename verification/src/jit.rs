//! Compilation while a program runs: the queue of what is to be compiled, and what a new definition
//! makes stale.
use crate::ir::IrFunction;
use std::sync::Arc;
use vstd::prelude::*;

verus! {

/// How many requests can wait.
pub const QUEUE_CAPACITY: usize = 256;

/// A request to compile.
#[derive(Debug)]
pub enum CompileRequest {
    /// A function, for the runtime with this handle.
    Function { tiers: u64, arity_id: u64, ir_func: Arc<IrFunction> },
    /// A function from a loop header on, for frames that are inside the loop.
    Osr { tiers: u64, arity_id: u64, header: u32, ir_func: Arc<IrFunction> },
}

/// The requests that wait, the oldest first.
#[derive(Debug)]
pub struct Jit {
    capacity: usize,
    waiting: Vec<CompileRequest>,
}

impl View for Jit {
    type V = Seq<CompileRequest>;

    closed spec fn view(&self) -> Seq<CompileRequest> {
        self.waiting@
    }
}

impl Jit {
    /// How many requests can wait.
    pub closed spec fn limit(&self) -> nat {
        self.capacity as nat
    }

    /// No more requests wait than can.
    pub open spec fn wf(&self) -> bool {
        self@.len() <= self.limit()
    }

    /// A queue in which nothing waits.
    pub fn new(capacity: usize) -> (r: Jit)
        ensures
            r.wf(),
            r.limit() == capacity,
            r@ == Seq::<CompileRequest>::empty(),
    {
        Jit { capacity, waiting: Vec::new() }
    }

    /// Puts a request behind the others, unless as many wait as can.
    fn enqueue(&mut self, request: CompileRequest) -> (r: bool)
        requires
            old(self).wf(),
        ensures
            final(self).wf(),
            final(self).limit() == old(self).limit(),
            r == (old(self)@.len() < old(self).limit()),
            final(self)@ == (if r { old(self)@.push(request) } else { old(self)@ }),
    {
        if self.waiting.len() < self.capacity {
            self.waiting.push(request);
            true
        } else {
            false
        }
    }

    /// Asks for a function to be compiled.  Where the queue is full the request is dropped, and the
    /// function is interpreted a while longer.
    pub fn enqueue_function(&mut self, tiers: u64, arity_id: u64, ir_func: Arc<IrFunction>) -> (r: bool)
        requires
            old(self).wf(),
        ensures
            final(self).wf(),
            final(self).limit() == old(self).limit(),
            r == (old(self)@.len() < old(self).limit()),
            final(self)@ == (if r { old(self)@.push((CompileRequest::Function { tiers, arity_id, ir_func })) } else { old(self)@ }),
    {
        self.enqueue(CompileRequest::Function { tiers, arity_id, ir_func })
    }

    /// Asks for a function to be compiled from a loop header on.
    pub fn enqueue_osr(&mut self, tiers: u64, arity_id: u64, header: u32, ir_func: Arc<IrFunction>) -> (r: bool)
        requires
            old(self).wf(),
        ensures
            final(self).wf(),
            final(self).limit() == old(self).limit(),
            r == (old(self)@.len() < old(self).limit()),
            final(self)@ == (if r { old(self)@.push((CompileRequest::Osr { tiers, arity_id, header, ir_func })) } else { old(self)@ }),
    {
        self.enqueue(CompileRequest::Osr { tiers, arity_id, header, ir_func })
    }

    /// Takes the request that has waited longest.
    pub fn next_request(&mut self) -> (r: Option<CompileRequest>)
        requires
            old(self).wf(),
        ensures
            final(self).wf(),
            final(self).limit() == old(self).limit(),
            match r {
                Some(request) => old(self)@.len() > 0 && request == old(self)@[0] && final(self)@ == old(self)@.skip(1),
                None => old(self)@.len() == 0 && final(self)@ == old(self)@,
            },
    {
        if self.waiting.len() == 0 {
            return None;
        }
        let ghost before = self.waiting@;
        let request = self.waiting.remove(0);
        assert(self.waiting@ =~= before.skip(1));
        Some(request)
    }
}

/// The arities among the first `n` of the old definition that the new one does not have.
pub open spec fn superseded_ids(old_ids: Seq<u64>, new_ids: Seq<u64>, n: int) -> Seq<u64>
    decreases n,
{
    if n <= 0 || n > old_ids.len() {
        Seq::empty()
    } else if new_ids.contains(old_ids[n - 1]) {
        superseded_ids(old_ids, new_ids, n - 1)
    } else {
        superseded_ids(old_ids, new_ids, n - 1).push(old_ids[n - 1])
    }
}

fn has_id(ids: &Vec<u64>, id: u64) -> (r: bool)
    ensures
        r == ids@.contains(id),
{
    let mut i: usize = 0;
    while i < ids.len()
        invariant
            i <= ids@.len(),
            forall|k: int| 0 <= k < i ==> #[trigger] ids@[k] != id,
        decreases ids@.len() - i,
    {
        if ids[i] == id {
            return true;
        }
        i += 1;
    }
    false
}

/// The arities whose compiled code a new definition makes stale: those of the old definition that
/// the new one does not have.
pub fn superseded(old_ids: &Vec<u64>, new_ids: &Vec<u64>) -> (r: Vec<u64>)
    ensures
        r@ == superseded_ids(old_ids@, new_ids@, old_ids@.len() as int),
{
    let mut out: Vec<u64> = Vec::new();
    let mut i: usize = 0;
    while i < old_ids.len()
        invariant
            i <= old_ids@.len(),
            out@ == superseded_ids(old_ids@, new_ids@, i as int),
        decreases old_ids@.len() - i,
    {
        if !has_id(new_ids, old_ids[i]) {
            out.push(old_ids[i]);
        }
        i += 1;
    }
    out
}

/// What becomes stale is of the old definition alone, and all of it.
pub proof fn only_the_old_becomes_stale(old_ids: Seq<u64>, new_ids: Seq<u64>, n: int)
    requires
        0 <= n <= old_ids.len(),
    ensures
        forall|id: u64| #[trigger] superseded_ids(old_ids, new_ids, n).contains(id) == (old_ids.take(n).contains(id) && !new_ids.contains(id)),
    decreases n,
{
    if n > 0 {
        only_the_old_becomes_stale(old_ids, new_ids, n - 1);
        let a = superseded_ids(old_ids, new_ids, n - 1);
        let b = superseded_ids(old_ids, new_ids, n);
        let p = old_ids.take(n - 1);
        let q = old_ids.take(n);
        assert(q =~= p.push(old_ids[n - 1]));
        assert forall|id: u64| #[trigger] b.contains(id) == (q.contains(id) && !new_ids.contains(id)) by {
            assert(a.contains(id) == (p.contains(id) && !new_ids.contains(id)));
            if p.contains(id) {
                let k = choose|k: int| 0 <= k < p.len() && p[k] == id;
                assert(q[k] == id);
            }
            if a.contains(id) {
                let k = choose|k: int| 0 <= k < a.len() && a[k] == id;
                assert(b[k] == id);
            }
            if id == old_ids[n - 1] {
                assert(q[n - 1] == id);
                if !new_ids.contains(id) {
                    assert(b[a.len() as int] == id);
                }
            }
            if q.contains(id) && id != old_ids[n - 1] {
                let k = choose|k: int| 0 <= k < q.len() && q[k] == id;
                assert(p[k] == id);
            }
            if b.contains(id) && id != old_ids[n - 1] {
                let k = choose|k: int| 0 <= k < b.len() && b[k] == id;
                assert(a[k] == id);
            }
        }
    }
}

/// A variable that is bound again to what it holds makes nothing stale.
pub proof fn the_same_definition_makes_nothing_stale(ids: Seq<u64>)
    ensures
        superseded_ids(ids, ids, ids.len() as int) == Seq::<u64>::empty(),
{
    nothing_up_to(ids, ids.len() as int);
}

proof fn nothing_up_to(ids: Seq<u64>, n: int)
    requires
        0 <= n <= ids.len(),
    ensures
        superseded_ids(ids, ids, n) == Seq::<u64>::empty(),
    decreases n,
{
    if n > 0 {
        nothing_up_to(ids, n - 1);
        assert(ids.contains(ids[n - 1]));
    }
}

} // verus!
