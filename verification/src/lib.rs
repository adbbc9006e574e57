//! The relayout core of a markup compiler.
//!
//! Layout is run again and again until what it asked about the previous
//! pass holds of the pass just made. Three things make that work: spans
//! that address syntax nodes, identities of call sites that come out the
//! same in every pass, and an index of the placed content that remembers
//! what was asked of it.

pub mod content;
pub mod fingerprint;
pub mod frame;
pub mod geom;
pub mod introspect;
pub mod span;
pub mod stable;
pub mod typeset;

pub use content::{Content, Location, Selector};
pub use frame::{Document, Element, Frame, Group, Meta};
pub use geom::{Point, Transform};
pub use introspect::Introspector;
pub use span::{SourceId, Span, Spanned};
pub use stable::{StabilityProvider, StableId};
pub use typeset::{typeset, Vt, World};
