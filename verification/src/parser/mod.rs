//! The tokenizer, the node arena it fills, and the types of the nodes.

pub mod base;
pub mod constants;
pub mod handle;
pub mod index;
pub mod markup;
pub mod model;
pub mod options;
pub mod tag;

pub use base::Parser;
pub use base::Tree;
pub use base::ClassVec;
pub use base::HTMLVersion;
pub use handle::InnerNodeHandle;
pub use handle::NodeHandle;
pub use options::ParserOptions;
pub use tag::Attributes;
pub use tag::Children;
pub use tag::ChildrenMut;
pub use tag::HTMLTag;
pub use tag::Node;
pub use tag::RawAttributesMap;
pub use tag::RawChildren;
