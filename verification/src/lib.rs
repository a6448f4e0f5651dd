//! Verified workflows and text rules of a Knowledge-Brain vault library.

pub mod text;
pub mod bm25;
pub mod managed_markdown;
pub mod extract;
pub mod xml;
pub mod docx;
pub mod error;
pub mod sync;
pub mod user_dirs;
pub mod skill_hosts;
pub mod update_store;
pub mod update_plan;
pub mod source_io;
pub mod doctor;
pub mod status;
pub mod archive;
pub mod html;
pub mod epub;
pub mod lock;
pub mod skill_assets;
pub mod source_verify;
pub mod review;
pub mod discovery;
pub mod config;
pub mod requests;
pub mod template;
pub mod template_state;
pub mod vault_upgrade;
pub mod init;
pub mod vault;
pub mod skill_plan;
pub mod search;
pub mod resource_read;
pub mod lint;
pub mod registry;
pub mod knowledge_apply;
pub mod operation_events;
pub mod backup;
pub mod operation_summary;
pub mod knowledge_plan;
pub mod adopt;
pub mod source_apply;
