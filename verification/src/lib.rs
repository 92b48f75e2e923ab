pub mod size;
pub mod inplace_cell;
pub mod uuid;
pub mod error;
pub mod value;
pub mod entity;
pub mod handle;
pub mod pool;
pub mod manager;
pub mod transformer;
