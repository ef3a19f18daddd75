use cljrs_compiler::ir::{Block, BlockId, Const, Inst, IrFunction, KnownFn, Repr, Terminator, VarId};
use cljrs_compiler::typeinfer::{arith_result, cmp_result, infer, meet};

fn fresh_var(f: &mut IrFunction) -> VarId {
    f.next_var += 1;
    VarId(f.next_var - 1)
}

fn fresh_block(f: &mut IrFunction) -> BlockId {
    f.next_block += 1;
    BlockId(f.next_block - 1)
}

/// (fn [n] (loop [i 0 acc 0] (if (< i n) (recur (+ i 1) (+ acc i)) acc)))
/// with `n` specialized to Long: everything must come out unboxed.
#[test]
fn loop_counter_infers_long_when_param_specialized() {
    let mut f = IrFunction::new(Some("sum".to_string()), None);
    let n = fresh_var(&mut f);
    f.params = vec![("n".to_string(), n)];

    let entry = fresh_block(&mut f);
    let header = fresh_block(&mut f);
    let body = fresh_block(&mut f);
    let exit = fresh_block(&mut f);

    let zero1 = fresh_var(&mut f);
    let zero2 = fresh_var(&mut f);
    let i = fresh_var(&mut f);
    let acc = fresh_var(&mut f);
    let cond = fresh_var(&mut f);
    let one = fresh_var(&mut f);
    let i2 = fresh_var(&mut f);
    let acc2 = fresh_var(&mut f);

    f.blocks.push(Block {
        id: entry,
        phis: vec![],
        insts: vec![
            Inst::Const(zero1, Const::Long(0)),
            Inst::Const(zero2, Const::Long(0)),
        ],
        terminator: Terminator::RecurJump {
            target: header,
            args: vec![zero1, zero2],
        },
    });
    f.blocks.push(Block {
        id: header,
        phis: vec![
            Inst::Phi(i, vec![(entry, zero1), (body, i2)]),
            Inst::Phi(acc, vec![(entry, zero2), (body, acc2)]),
        ],
        insts: vec![Inst::CallKnown(cond, KnownFn::Lt, vec![i, n])],
        terminator: Terminator::Branch {
            cond,
            then_block: body,
            else_block: exit,
        },
    });
    f.blocks.push(Block {
        id: body,
        phis: vec![],
        insts: vec![
            Inst::Const(one, Const::Long(1)),
            Inst::CallKnown(i2, KnownFn::Add, vec![i, one]),
            Inst::CallKnown(acc2, KnownFn::Add, vec![acc, i]),
        ],
        terminator: Terminator::RecurJump {
            target: header,
            args: vec![i2, acc2],
        },
    });
    f.blocks.push(Block {
        id: exit,
        phis: vec![],
        insts: vec![],
        terminator: Terminator::Return(acc),
    });

    let reprs = infer(&f, &[Repr::Long]);
    assert_eq!(reprs.get(&n.0), Some(&Repr::Long));
    assert_eq!(reprs.get(&i.0), Some(&Repr::Long));
    assert_eq!(reprs.get(&acc.0), Some(&Repr::Long));
    assert_eq!(reprs.get(&i2.0), Some(&Repr::Long));
    assert_eq!(reprs.get(&acc2.0), Some(&Repr::Long));
    assert_eq!(reprs.get(&cond.0), Some(&Repr::Bool));

    // Without the specialization seed, `(< i n)` is mixed and the loop
    // phis are still unboxed Long, but the comparison must stay boxed.
    let reprs = infer(&f, &[]);
    assert_eq!(reprs.get(&n.0), None, "unspecialized param must be boxed");
    assert_eq!(reprs.get(&cond.0), None, "cmp with boxed operand stays boxed");
    assert_eq!(reprs.get(&i.0), Some(&Repr::Long));
}

/// A `let`-bound local seeded with a scalar hint is inferred unboxed when
/// the dataflow agrees, and the hint is folded soundly through `meet`.
#[test]
fn local_seed_repr_is_honored() {
    let mut f = IrFunction::new(None, None);
    let x = fresh_var(&mut f);
    let one = fresh_var(&mut f);
    let y = fresh_var(&mut f);
    let entry = fresh_block(&mut f);
    f.blocks.push(Block {
        id: entry,
        phis: vec![],
        insts: vec![
            Inst::Const(x, Const::Long(5)),
            Inst::Const(one, Const::Long(1)),
            Inst::CallKnown(y, KnownFn::Add, vec![x, one]),
        ],
        terminator: Terminator::Return(y),
    });
    // Seed `x` as Long (as a `^long` let-binding would).
    f.local_seed_reprs = vec![(x, Repr::Long)];
    let reprs = infer(&f, &[]);
    assert_eq!(reprs.get(&x.0), Some(&Repr::Long));
    assert_eq!(reprs.get(&y.0), Some(&Repr::Long));
}

/// A phi joining a Long with a Boxed value must come out Boxed.
#[test]
fn mixed_phi_falls_back_to_boxed() {
    let mut f = IrFunction::new(None, None);
    let p = fresh_var(&mut f);
    f.params = vec![("x".to_string(), p)];

    let entry = fresh_block(&mut f);
    let a = fresh_block(&mut f);
    let b = fresh_block(&mut f);
    let join = fresh_block(&mut f);

    let c = fresh_var(&mut f);
    let long_v = fresh_var(&mut f);
    let phi = fresh_var(&mut f);

    f.blocks.push(Block {
        id: entry,
        phis: vec![],
        insts: vec![Inst::CallKnown(c, KnownFn::IsNil, vec![p])],
        terminator: Terminator::Branch {
            cond: c,
            then_block: a,
            else_block: b,
        },
    });
    f.blocks.push(Block {
        id: a,
        phis: vec![],
        insts: vec![Inst::Const(long_v, Const::Long(7))],
        terminator: Terminator::Jump(join),
    });
    f.blocks.push(Block {
        id: b,
        phis: vec![],
        insts: vec![],
        terminator: Terminator::Jump(join),
    });
    f.blocks.push(Block {
        id: join,
        phis: vec![Inst::Phi(phi, vec![(a, long_v), (b, p)])],
        insts: vec![],
        terminator: Terminator::Return(phi),
    });

    let reprs = infer(&f, &[]);
    assert_eq!(reprs.get(&long_v.0), Some(&Repr::Long));
    assert_eq!(reprs.get(&phi.0), None, "phi joining Long with Boxed");
}

#[test]
fn representations_join_in_any_order() {
    let all = [None, Some(Repr::Long), Some(Repr::Double), Some(Repr::Bool), Some(Repr::Boxed)];
    for a in all {
        assert_eq!(meet(a, a), a);
        assert_eq!(meet(None, a), a);
        for b in all {
            assert_eq!(meet(a, b), meet(b, a));
            for c in all {
                assert_eq!(meet(a, meet(b, c)), meet(meet(a, b), c));
            }
        }
    }
    assert_eq!(meet(Some(Repr::Long), Some(Repr::Double)), Some(Repr::Boxed));
}

#[test]
fn a_double_operand_makes_the_result_a_double() {
    assert_eq!(arith_result(Some(Repr::Long), Some(Repr::Long)), Some(Repr::Long));
    assert_eq!(arith_result(Some(Repr::Long), Some(Repr::Double)), Some(Repr::Double));
    assert_eq!(arith_result(Some(Repr::Bool), Some(Repr::Long)), Some(Repr::Boxed));
    assert_eq!(arith_result(None, Some(Repr::Long)), None);
    assert_eq!(cmp_result(Some(Repr::Double), Some(Repr::Long)), Some(Repr::Bool));
    assert_eq!(cmp_result(Some(Repr::Boxed), Some(Repr::Long)), Some(Repr::Boxed));
}

/// `(+ (+ p 1) q)` in one block.
fn sum_of_two(seed: Vec<(VarId, Repr)>) -> (IrFunction, VarId, VarId) {
    let mut f = IrFunction::new(None, None);
    let p = fresh_var(&mut f);
    let q = fresh_var(&mut f);
    f.params = vec![("p".to_string(), p), ("q".to_string(), q)];
    let one = fresh_var(&mut f);
    let inner = fresh_var(&mut f);
    let outer = fresh_var(&mut f);
    let entry = fresh_block(&mut f);
    f.blocks.push(Block {
        id: entry,
        phis: vec![],
        insts: vec![
            Inst::Const(one, Const::Long(1)),
            Inst::CallKnown(inner, KnownFn::Add, vec![p, one]),
            Inst::CallKnown(outer, KnownFn::Add, vec![inner, q]),
        ],
        terminator: Terminator::Return(outer),
    });
    f.local_seed_reprs = seed;
    (f, inner, outer)
}

#[test]
fn more_specialization_keeps_what_was_unboxed() {
    let (f, inner, outer) = sum_of_two(Vec::new());
    let less = infer(&f, &[Repr::Long]);
    let more = infer(&f, &[Repr::Long, Repr::Double]);
    assert_eq!(less.get(&inner.0), Some(&Repr::Long));
    assert_eq!(less.get(&outer.0), None);
    assert_eq!(more.get(&inner.0), Some(&Repr::Long));
    assert_eq!(more.get(&outer.0), Some(&Repr::Double));
    for (v, r) in &less {
        assert_eq!(more.get(v), Some(r));
    }
}

#[test]
fn a_hint_confirms_and_does_not_force() {
    let hint = |r: Repr| infer(&sum_of_two(vec![(VarId(3), r)]).0, &[Repr::Long]);
    assert_eq!(hint(Repr::Long).get(&3), Some(&Repr::Long));
    assert_eq!(hint(Repr::Double).get(&3), None);
    let boxed = infer(&sum_of_two(vec![(VarId(3), Repr::Long)]).0, &[]);
    assert_eq!(boxed.get(&3), None);
    for c in [Const::Str("s".to_string()), Const::Double(1.5f64.to_bits())] {
        let mut f = IrFunction::new(None, None);
        let x = fresh_var(&mut f);
        let entry = fresh_block(&mut f);
        f.blocks.push(Block { id: entry, phis: vec![], insts: vec![Inst::Const(x, c)], terminator: Terminator::Return(x) });
        f.local_seed_reprs = vec![(x, Repr::Long)];
        assert_eq!(infer(&f, &[]).get(&x.0), None);
    }
}
