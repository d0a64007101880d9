//! The guest kernel: the call loop that runs instances in their own address
//! spaces, with gas meters, yields and single-owner instances.
pub mod arena_laws;
pub mod bump;
pub mod call_laws;
pub mod call_loop;
pub mod caps;
pub mod cost_laws;
pub mod dispatch;
pub mod entry;
pub mod fault;
pub mod flag;
pub mod frame;
pub mod gas;
pub mod image_mem;
pub mod mem_laws;
pub mod jit_cache;
pub mod key;
pub mod lane;
pub mod laws;
pub mod map_laws;
pub mod materialize;
pub mod page_alloc;
pub mod paging;
pub mod poll_laws;
pub mod pool;
pub mod probe;
pub mod pvm;
pub mod ring3;
pub mod runtime;
pub mod scheduler;
pub mod segments;
pub mod stack;
pub mod touch_laws;
pub mod transfer;
pub mod turn_laws;
pub mod walk;
pub mod yields;
