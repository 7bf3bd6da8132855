pub mod queue;
pub mod laws;
pub mod linked_list;
pub mod vec;
pub mod bstree;
