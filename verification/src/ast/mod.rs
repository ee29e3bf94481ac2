//! The syntax tree that the parser builds and the code generator reads.

pub mod node;

pub use node::Assignment;
pub use node::Binary;
pub use node::BinaryOperator;
pub use node::Call;
pub use node::Expression;
pub use node::FString;
pub use node::FStringPart;
pub use node::FStringPartView;
pub use node::Function;
pub use node::Identifier;
pub use node::If;
pub use node::Literal;
pub use node::LiteralValue;
pub use node::LiteralView;
pub use node::Node;
pub use node::NodeView;
pub use node::Program;
pub use node::Return;
pub use node::Unary;
pub use node::UnaryOperator;
pub use node::While;
