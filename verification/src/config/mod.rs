// Configuration model, loading of domain values, validation and schema.

pub mod load;
pub mod schema;
pub mod types;
pub mod validate;
