# cljrs_compiler

The compiler backend of a Clojure on Rust, written in Verus: what it computes is stated in contracts and proved.

- `src/` is the library.  Forms are lowered to an intermediate representation (`anf`, `lowered`), whose values get machine
  representations (`typeinfer`, `soundness`, `raw`).  A function is turned into a plan of machine instructions (`emission`, `codegen`),
  which is carried out on a Cranelift module (`replay`, `backend`, `compiler`); that it can be is proved in `feasible` and
  `compilable`.  Units and programs are compiled into one object
  (`unit`, `program`, `passes`, `escape`), and linked by a generated project (`source`, `aot`, `harness`, `template`, `extensions`,
  `native_dep`).  `rt_abi` is what compiled code calls, and `jit` the queue of compilation at run time.
- `app/` is ordinary Rust around it: files, processes, threads, pointers and floating point.
- `tests/` are the tests of the library.
