pub mod page;
pub mod pager;
