//! Verified core of the FM Tester API workbench: collection trees and their
//! storage, variables and request preparation, validation rules, the state
//! a request script works on, event streams, load-test requests,
//! orchestrations, backups and the encryption of secrets.

pub mod text;
pub mod models;
pub mod collection_tree;
pub mod ids;
pub mod validation;
pub mod workspace_data;
pub mod variables;
pub mod http;
pub mod orchestration;
pub mod scripts;
pub mod ai;
pub mod chat;
pub mod app_config;
pub mod history;
pub mod response;
pub mod request_body;
pub mod sse;
pub mod script_runtime;
pub mod encryption;
pub mod collection_store;
pub mod ai_stream;
pub mod data_dir;
pub mod backup;
pub mod ws;
pub mod logging;
pub mod stress;
pub mod http_client;
pub mod script_vars;
pub mod script_session;
pub mod script_tools;
pub mod xml_json;
pub mod cron;
pub mod json_schema;
pub mod read_back;
