//! A local helper daemon's core for an input-method engine: immutable
//! candidate stores built by verified parsing and merge rules, a language
//! register, a filterable picker session, and a strictly sequential
//! one-byte-tag protocol dispatcher. The socket transport and the widget
//! toolkit around it live outside this crate.

use vstd::prelude::*;

pub mod dispatch;
pub mod emoji;
pub mod icon;
pub mod picker;
pub mod store;
pub mod text;

pub use dispatch::Dispatcher;
pub use dispatch::Outcome;
pub use emoji::merge_annotations;
pub use icon::IconState;
pub use icon::Lang;
pub use picker::PickerSession;
pub use picker::label_of;
pub use store::CandidateEntry;
pub use store::KeyedStore;

verus! {

} // verus!
