//! The rules of a database server's management console.
//!
//! Every decision the console takes stands here: who may do what to the
//! team, which token is good, what a page shows, how text reaches a browser.
//! The functions take plain values and give plain values back. Reading a
//! request, asking the database and sending the answer is left to the
//! program around them.

pub mod admin_mcp_pat;
pub mod admin_pat;
pub mod admin_profile;
pub mod admin_rooms;
pub mod admin_team;
pub mod admin_tokens;
pub mod audit;
pub mod audit_note;
pub mod backups;
pub mod browse;
pub mod cli_device;
pub mod clock;
pub mod collection_list;
pub mod cron_admin;
pub mod crypto;
pub mod docs;
pub mod format;
pub mod frame_guard;
pub mod functions_admin;
pub mod html;
pub mod i18n;
pub mod json;
pub mod locale_layer;
pub mod oauth_clients_admin;
pub mod oauth_login;
pub mod oauth_server;
pub mod paging;
pub mod pat_evict;
pub mod public_files;
pub mod quota_admin;
pub mod reply;
pub mod request_janitor;
pub mod rounding;
pub mod routes;
pub mod rpc_admin;
pub mod script_json;
pub mod signed_bytes;
pub mod sorting;
pub mod stats;
pub mod svg_charts;
pub mod text;
pub mod url;
