//! A register-accumulator bytecode virtual machine whose call frames, named
//! bindings and nested objects all live inside one flat, growable byte arena,
//! addressed by 32-bit byte offsets.
//!
//! The crate is organised bottom-up:
//! - [`insn`]: the 32-bit instruction word encoding;
//! - [`item`]: the tagged item headers stored in an object's body;
//! - [`mem`]: the arena with little-endian 32-bit loads and stores;
//! - [`obj`]: offset-based accessors for the fixed object header fields;
//! - [`model`]: the mathematical model: well-formedness of the frame chain,
//!   name lookup, and the one-instruction transition function;
//! - [`machine`]: the executable machine, verified against the model;
//! - [`laws`]: proved laws relating encoding, growth, push/pop and lookup.

pub mod insn;
pub mod item;
pub mod mem;
pub mod obj;
pub mod model;
pub mod machine;
pub mod laws;
