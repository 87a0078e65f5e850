pub mod keys;
pub mod node;
pub mod tree;
pub mod walk;
pub mod order;
pub mod laws;
pub mod cursor;
