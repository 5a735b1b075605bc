pub mod types;
pub mod edit_laws;
pub mod workspace_edit;
