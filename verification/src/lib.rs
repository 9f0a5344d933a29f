//! A verified job-queue engine over an append-only log of timestamped
//! entries. Four queue disciplines are built on the same primitive: a
//! reliable at-least-once dispatch queue with consumer groups and bounded
//! retries, a fixed-delay queue, a recurring-interval queue, and a
//! minute-aligned trigger queue. The durable store itself is an external
//! collaborator; this crate holds the entry codec, a precise model of the
//! store operations the queues depend on, and the per-entry decision
//! logic of every queue loop, each with its contract.

pub mod admin;
pub mod alipay;
pub mod auth;
pub mod books;
pub mod codec;
pub mod digest;
pub mod dispatch;
pub mod errors;
pub mod ids;
pub mod jwt;
pub mod maturity;
pub mod middleware;
pub mod store;
pub mod trigger;
pub mod upload;
pub mod users;
pub mod valid;
pub mod wx;
pub mod wxmp;


pub use ids::EntryId;
