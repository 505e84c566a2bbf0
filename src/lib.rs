pub mod errors;
pub mod tile_copier;
pub mod diff;
pub mod schema;
pub mod validate;
pub mod cli;
