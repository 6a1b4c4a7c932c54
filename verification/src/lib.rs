//! Trees of errors: a generalization of a linear error chain to a structure
//! where any node may have multiple independent causes.
//!
//! The crate models error nodes behind the [`error_tree::ErrorTree`]
//! capability, renders any such tree to an indented text form whose shape
//! depends on local fan-out ([`display`]), mirrors trees into an owned,
//! display-string-only canonical form ([`string_tree`], [`tree`]), and
//! encodes that form to a wire text that round-trips losslessly ([`codec`]).

pub mod adapter;
pub use adapter::Ser;
pub use chain::Chain;
pub use codec::DecodeError;
pub use compat::ErrorTreeWrapper;
pub use compat::ErrorWrapper;
pub use display::DisplayKind;
pub use display::ErrorTreeDisplay;
pub use display::ErrorTreeExt;
pub use display::ErrorTreeSourceDisplay;
pub use error_tree::ErrorTree;
pub use error_tree::ErrorTreeSource;
pub use mishap::Mishap;
pub use string_tree::StringErrorTree;
pub use tree::SerdeErrorTree;
pub use wrapped::Sealed;
pub use wrapped::WrapAnyhow;
pub use wrapped::WrapAnyhows;
pub use wrapped::WrapError;
pub use wrapped::WrapErrorTree;
pub use wrapped::WrapErrorTrees;
pub use wrapped::WrapErrors;
pub mod chain;
pub mod codec;
pub mod compat;
pub mod display;
pub mod error_tree;
pub mod mishap;
pub mod model;
pub mod string_tree;
pub mod testdata;
pub mod tree;
pub mod wrapped;
