pub mod expr;
pub mod fts;
pub mod planner;
pub mod rls;
pub mod select;
