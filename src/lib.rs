//! Queue orchestration for a chat-driven media player: time display,
//! request classification, the per-session track queue, the playlist
//! resolution scheduler and the session controller.
pub mod classify;
pub mod dice;
pub mod monitoring;
pub mod queue;
pub mod scheduler;
pub mod session;
pub mod shuffle;
pub mod time_format;
