//! Memory mappings: which part of a memory object is seen at which addresses.
pub mod mapping;
pub mod options;
pub mod pages;
pub mod perms;
pub mod space;
pub mod trim;
pub mod usize_set;
pub mod vm_mapping;
pub mod vmar;
pub mod vmo;
