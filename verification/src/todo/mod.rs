//! A to-do list: its entries, the list, and the operations of its menu.

pub mod db;
pub mod menu;
pub mod todo;
