pub mod ast;
pub mod binop;
pub mod ctx;
pub mod error;
pub mod func;
pub mod inst;
pub mod reg;
pub mod vreg;

pub use ast::{Decl, DeclModel, Expr, ExprModel};
pub use binop::Binop;
pub use ctx::{Ctx, CtxModel};
pub use error::Error;
pub use func::{Fn, FnModel};
pub use inst::Inst;
pub use reg::Reg;
pub use vreg::{VReg, VRegModel};
