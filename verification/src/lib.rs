pub mod cast;
pub mod lower;
pub mod normalize;
pub mod span;
pub mod syntax;
pub mod text;
pub mod analysis;
pub mod simplified_ast;
