//! Verification challenges for agent writes: an agent that wants to create
//! a topic or a reply first receives an obfuscated arithmetic word problem
//! and must answer it with exactly two decimals. The crate generates the
//! challenges and their canonical answers, keeps the challenge and
//! failure-streak records, judges submitted answers and decides how each
//! refusal is answered, chooses the target of the automatic ban issued after
//! repeated failures, and computes the request details of the web client.
//! Every function with a body in the library is verified with Verus against
//! its contract, except three trusted wrappers whose contracts are taken on
//! trust from the code they call: `String::push` (`text::push_char`),
//! chrono's addition of seconds to an instant (`ban::seconds_after`) and
//! `urlencoding::encode` (`client::url_encode`); the type
//! `serde_json::Value` is declared to Verus without a contract.

pub mod ban;
pub mod challenge;
pub mod client;
pub mod error;
pub mod handler;
pub mod numbers;
pub mod obfuscate;
pub mod operator;
pub mod records;
pub mod rng;
pub mod submission;
pub mod text;
pub mod tokens;
