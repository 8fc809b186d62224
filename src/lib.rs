//! Connection-lifecycle observation: a tracker that reduces link-layer frames to
//! flow events, a self-describing binary codec for those events, and the
//! decisions of a fan-out transport that relays them to collectors.
pub mod codec;
pub mod model;
pub mod packet;
pub mod tracker;
pub mod transport;
