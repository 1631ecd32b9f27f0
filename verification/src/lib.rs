//! Verified core of a Pyde node: the rules and the bookkeeping behind the
//! network loop, the chain sync, the state cache and the JSON-RPC surface.
pub mod buffers;
pub mod codec_laws;
pub mod dashboard;
pub mod events;
pub mod event_laws;
pub mod hexcodec;
pub mod keymap;
pub mod manager_laws;
pub mod mempool;
pub mod node;
pub mod node_laws;
pub mod peer_book;
pub mod rate_limit;
pub mod receipt_store;
pub mod request_laws;
pub mod rpc;
pub mod rpc_laws;
pub mod rpc_views;
pub mod serve;
pub mod setup_laws;
pub mod slot_clock;
pub mod startup;
pub mod state_laws;
pub mod state_manager;
pub mod store_laws;
pub mod sync;
pub mod sync_laws;
pub mod text;
pub mod view_laws;
pub mod words;
