pub mod ast_printer;
pub mod control_flow;
pub mod env;
pub mod error;
pub mod expr;
pub mod grammar;
pub mod interpreter;
pub mod lox_function;
pub mod natives;
pub mod number;
pub mod operators;
pub mod parser;
pub mod resolver;
pub mod scanner;
pub mod semantics;
pub mod stmt;
pub mod text;
pub mod token;

pub use ast_printer::AstPrinter;
pub use control_flow::ControlFlow;
pub use env::Env;
pub use error::{ErrorReporter, LoxError, LoxErrorKind};
pub use expr::Expr;
pub use interpreter::Interpreter;
pub use parser::Parser;
pub use resolver::Resolver;
pub use scanner::Scanner;
pub use stmt::Stmt;
pub use token::Token;
