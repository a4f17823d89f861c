//! Coordination core for a shared, real-time estimation ("planning poker")
//! session: one room document per identifier tracks membership, per-member
//! votes, a reveal flag and per-member liveness stamps. The room state
//! machine, the keyed room store and the coordinator that maps each intent
//! to one atomic store mutation are verified; transport and durable-storage
//! adapters live outside this crate.

pub mod clock;
pub mod coordinator;
pub mod room;
pub mod store;
pub mod votes;

pub use clock::millis_since_epoch;
pub use coordinator::Coordinator;
pub use coordinator::PokerError;
pub use room::Member;
pub use room::PokerRoom;
pub use store::RoomStore;
pub use votes::parse_vote;
