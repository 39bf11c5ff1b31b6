pub mod laws;
pub mod migrator;
pub mod schema;
pub mod sorter;
pub mod store;
