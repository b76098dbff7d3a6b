//! A real-time chat relay core: a session registry with room membership and
//! broadcast fan-out, a JSON command codec, and a per-connection protocol
//! state machine.  All decisions are made here as verified functions on plain
//! values; the transport loop that performs the actual I/O lives outside the
//! library and merely feeds events in and carries actions out.

pub mod messages;
pub mod registry;
pub mod session;
