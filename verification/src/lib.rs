//! An ordered key/value parameter store for threading data between the stages
//! of a text-generation pipeline.
//!
//! A [`Parameters`] value maps string keys to parameter values; the reserved
//! key `"text"` is the conventional default slot for single-value use. All
//! mutators are copy-on-write: each returns a fresh store and leaves the
//! receiver untouched. The store projects into a `tera::Context` so a template
//! engine can consume it.

pub mod laws;
pub mod params;
pub mod render;
pub mod value;

pub use params::Parameters;
pub use value::Param;
pub use value::ParamFull;
pub use value::StringParam;
