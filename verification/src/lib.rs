pub mod compiler;
pub mod driver;

pub use compiler::error::{ErrorReporter, LoxError, LoxErrorKind};
pub use compiler::expr::{Expr, Object};
pub use compiler::interpreter::Interpreter;
pub use compiler::parser::Parser;
pub use compiler::scanner::Scanner;
pub use compiler::stmt::Stmt;
pub use driver::Lox;
