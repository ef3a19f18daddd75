//! Ahead-of-time and just-in-time compilation of Clojure functions to native code.
pub mod text;
pub mod ir;
pub mod typeinfer;
pub mod soundness;
pub mod raw;
pub mod bridge;
pub mod clif;
pub mod emission;
pub mod backend;
pub mod codegen;
pub mod execution;
pub mod executed;
pub mod double;
pub mod value;
pub mod ir_convert;
pub mod encoding;
pub mod form;
pub mod anf;
pub mod lowered;
pub mod names;
pub mod meaning;
pub mod preserved;
pub mod replay;
pub mod compiler;
pub mod dangling;
pub mod escape;
pub mod native_dep;
pub mod passes;
pub mod direct_calls;
pub mod source;
pub mod feasible;
pub mod compilable;
pub mod unit;
pub mod program;
pub mod template;
pub mod harness;
pub mod aot;
pub mod extensions;
pub mod jit;
pub mod rt_abi;
