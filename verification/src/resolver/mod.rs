pub mod fuzzy;
pub mod index;
pub mod pipeline;
pub mod selectors;
