pub mod answers;
pub mod dispatch;
pub mod documents;
pub mod format;
pub mod model;
pub mod mutation;
pub mod query;
pub mod requests;
pub mod resolution;
pub mod verbs;
