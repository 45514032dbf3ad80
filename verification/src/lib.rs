//! A vhost-user block device: virtqueue handling, the vhost-user protocol
//! state of the device, and the arithmetic of the raw image backends.
pub mod backend;
pub mod backend_raw;
pub mod backend_raw_async;
pub mod block;
pub mod block_laws;
pub mod error;
pub mod memory;
pub mod message;
pub mod number;
pub mod queue;
pub mod queue_laws;
pub mod serve_laws;
pub mod vring;
pub mod vring_laws;
