//! The two store components: keyed documents and the byte cache.

pub mod cache;
pub mod inventory;

pub use cache::{ImageStore, RoleStore};
pub use inventory::{FreezersStore, ProductsStore};
