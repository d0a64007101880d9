//! Capability virtual machine and the guest kernel under it.

pub mod abi;
pub mod cap;
pub mod error;
pub mod hash;
pub mod ring;
pub mod rpc;
pub mod table;
pub mod exec;
pub mod mem;
pub mod cache;
pub mod callstack;
pub mod frame;
pub mod image_cache;
pub mod kernel_assist;
pub mod vm;
pub mod vm_laws;
pub mod ecall;
pub mod kernel;
pub mod guest_build;
pub mod local;
pub mod local_laws;
pub mod boundary_laws;
