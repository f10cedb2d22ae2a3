//! Query selectors: the expression, its parser, and the iterator over matching nodes.

pub mod iter;
pub mod iterable;
pub mod parser;
pub mod selector;

pub use iter::QuerySelectorIterator;
pub use iterable::QueryIterable;
pub use parser::Parser;
pub use selector::Selector;
