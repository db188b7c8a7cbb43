//! An offline-first mail synchronisation engine: the local store, the sync
//! decisions and the draft pipeline, each stated and proved.

pub mod ids;
pub mod table;
pub mod model;
pub mod store;

pub mod push;
pub mod query_state;
pub mod syncer;
pub mod connection;
pub mod multiplexer;
pub mod query;
pub mod email_sync;
pub mod watch_emails;
pub mod mailbox_list;
pub mod supervision;
pub mod drafts;
pub mod blob;
pub mod threads;
pub mod email_query;
pub mod order;
pub mod html;
