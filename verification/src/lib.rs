//! Host telemetry over a publish-only MQTT session.
//!
//! The crate decides; its caller talks to the world. The caller reads what the host
//! says of itself, opens the transport and reads its events; the crate says what the
//! session does on each event ([`mqtt`]), what is published once at the start
//! ([`inventory`]) and on every tick ([`live`]), under which topic ([`topic`]) and with
//! which text ([`uptime`], [`moment`], [`text`], [`listing`]).

pub mod cli;
pub mod inventory;
pub mod listing;
pub mod live;
pub mod moment;
pub mod mqtt;
pub mod order;
pub mod publication;
pub mod rounding;
pub mod text;
pub mod topic;
pub mod uptime;

pub use inventory::on_start;
pub use live::on_loop;
pub use uptime::format_uptime;
