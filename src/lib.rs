pub mod operand;
pub mod postfix;
pub mod laws;
pub mod text;

pub use operand::{ExprError, Lexeme, Node, NodeView, Operand, OperandView, Priority, Tree, Type};
pub use postfix::{parse_tree, to_postfix};
pub use text::split_line;
