//! A counting semaphore for cooperatively scheduled work.
//!
//! The library holds the semaphore's shared state as plain data: the number
//! of permits still free and the first-in, first-out queue of suspended
//! requesters, each with the wake handle that resumes it. Every operation on
//! that state is a verified function; a caller keeps the state behind one
//! lock and performs each operation while holding it.
pub mod queue;
pub mod state;
pub mod acquisition;
pub mod laws;

pub use acquisition::{Acquisition, Phase};
pub use state::SemState;
