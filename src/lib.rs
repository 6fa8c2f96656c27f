//! A MessagePack-RPC message codec: typed requests and responses are encoded
//! as positional arrays, and decoded by dispatching on the method name that the
//! request itself carries.

pub mod laws;
pub mod message;
pub mod method;
pub mod profile;
pub mod wire;
