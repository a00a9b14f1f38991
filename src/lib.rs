pub mod buffer_pool;
pub mod disk;
pub mod page;
pub mod replacer;
pub mod laws;
