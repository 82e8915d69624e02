//! Descriptors, remote paging and caller state of a remote-fork service.
//!
//! A parent process publishes a descriptor of its address space; a child adopts
//! it and fetches each page on demand with one-sided RDMA reads.

pub mod codec;
pub mod vma;
pub mod rdma;
pub mod reg;
pub mod fast_descriptors;
pub mod page_table;
pub mod descriptors;
pub mod remote_mapping;
pub mod child;
pub mod shadow_process_service;
pub mod rpc;
pub mod conn;
pub mod core_syscall_handler;
