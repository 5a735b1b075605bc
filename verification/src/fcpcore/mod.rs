pub mod verb_registry;
