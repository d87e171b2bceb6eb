//! Human-readable slug phrases built from an adjective and a noun vocabulary,
//! enumerated without repetition by an offset-staggered odometer.

mod arith;
pub mod count;
pub mod error;
pub mod odometer;
pub mod phrase;
pub mod selector;
pub mod slugs;
pub mod uniqueness;
pub mod words;

pub use count::combinations;
pub use error::GeneralException;

pub use selector::WordSelector;
pub use slugs::{create_phrases, get_slug, random_slugs};
pub use words::get_words;
