//! The core of an agent pipe.
//!
//! The pipe keeps agents running and relays messages to them over Unix
//! sockets, in two ways. The request/reply side serializes turns on the stream
//! of one persistent agent ([`daemon`], [`worker`], [`client`]). The transport
//! side relays raw ACP, the newline-delimited JSON-RPC of agent clients, between
//! a leased client and an agent out of a warm pool ([`relay`], [`drain`],
//! [`lease`], [`supervisor`], [`control`]).
//!
//! Nothing here reads or writes a socket, a file or a clock. The program around
//! the library does that, hands in what it read and what time it is, and
//! performs what the library decides. Times are milliseconds since some fixed
//! moment.
//!
//! What holds of the library as a whole is stated as proof functions whose
//! names begin with `law_`: of framing in [`acp`], of what a message says in
//! [`reading`], of forwarding in [`fairness`], of routing and of open ids in
//! [`delivery`] and [`tracking`], of the lease in [`lease`], of turns and
//! replies in [`alignment`] and [`answering`], of agents and their names in
//! [`supervisor`], [`pooling`] and [`recipe`], of arguments, sockets and paths
//! in [`launching`] and [`protocol`], and of text in [`text`] and [`json`].

pub mod acp;
pub mod alignment;
pub mod answering;
pub mod client;
pub mod control;
pub mod daemon;
pub mod delivery;
pub mod drain;
pub mod fairness;
pub mod json;
pub mod launching;
pub mod lease;
pub mod names;
pub mod pooling;
pub mod protocol;
pub mod queue;
pub mod reading;
pub mod recipe;
pub mod relay;
pub mod supervisor;
pub mod table;
pub mod text;
pub mod tracking;
pub mod worker;
