//! What compiled code asks of the runtime.
pub mod equality;
pub mod numbers;
pub mod arithmetic;
pub mod collections;
pub mod sequences;
pub mod membership;
pub mod building;
pub mod arrays;
pub mod calls;
pub mod caches;
pub mod machine;
pub mod globals;
pub mod constants;
pub mod core_calls;
pub mod state;
