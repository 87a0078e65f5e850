pub mod schema;
pub mod value;
