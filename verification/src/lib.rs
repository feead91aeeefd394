//! The verified core of a small UPnP media server.
pub mod browse;
pub mod browse_laws;
pub mod browse_state_laws;
pub mod conditional;
pub mod directory;
pub mod header_values;
pub mod listing_laws;
pub mod message_laws;
pub mod natural;
pub mod net;
pub mod order_laws;
pub mod outside;
pub mod query;
pub mod query_laws;
pub mod reply;
pub mod serve;
pub mod serve_laws;
pub mod ssdp;
pub mod ssdp_laws;
pub mod state;
pub mod stream;
pub mod text;
pub mod text_laws;
pub mod title_laws;
pub mod types;
pub mod view_laws;
