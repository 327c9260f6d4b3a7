//! A small compiler from a toy expression language to AArch64-style assembly.
//!
//! The pipeline is: `parser::parse` (source text to declarations),
//! `collect_strings::collect_strings` (string literals moved into a table),
//! `lowerer::lower` (expressions to instructions over virtual registers) and
//! `regalloc::regalloc` (virtual registers to machine registers). The module
//! `semantics` gives the programs a meaning, and `correctness` proves that the
//! pipeline keeps it.
pub mod collect_strings;
pub mod correctness;
pub mod lowerer;
pub mod parser;
pub mod regalloc;
pub mod semantics;
pub mod text;
pub mod types;
pub mod vreg_map;

pub use collect_strings::collect_strings;
pub use lowerer::{is_lowerable, lower};
pub use parser::{parse, try_parse, ParseFault};
pub use regalloc::{counts_fit_all, regalloc};
pub use types::{Binop, Ctx, Decl, Error, Expr, Fn, Inst, Reg, VReg};
