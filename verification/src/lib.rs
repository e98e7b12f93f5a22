//! Turns the messages seen by a telemetry agent into flat JSON payloads and
//! decides how they are delivered.
//!
//! A message goes through [`message::handle_message`], which flattens its address, its
//! properties and its payload ([`flatten`]) and takes the identifiers in them apart
//! ([`adjust`]). The payloads that come of it are sent as [`delivery`] says.

pub mod adjust;
pub mod adjust_laws;
pub mod agent;
pub mod codec;
pub mod delivery;
pub mod delivery_laws;
pub mod flatten;
pub mod flatten_laws;
pub mod http;
pub mod json;
pub mod message;
pub mod message_laws;
pub mod outcome_laws;
pub mod sent_laws;
pub mod text;
pub mod text_laws;
pub mod token;
pub mod user_agent;
