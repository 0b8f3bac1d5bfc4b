pub mod ack;
pub mod constants;
pub mod datagram;
pub mod frame;
pub mod primitives;
pub mod reliability;
pub mod sequence24;
