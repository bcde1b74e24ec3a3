//! Saved response snapshots.

use vstd::prelude::*;
use crate::models::{SavedResponse, SavedResponseIndexEntry};
use crate::ids::{generate_id, is_id_with_prefix, is_rfc3339_text, local_now_rfc3339};

verus! {

/// Ids and records of saved responses.
pub struct ResponseDomainService;

impl ResponseDomainService {
    /// A fresh response id (`resp_...`).
    pub fn generate_id() -> (r: String)
        ensures
            is_id_with_prefix(r@, "resp"@),
    {
        generate_id("resp")
    }

    /// The local time now, as RFC 3339 text.
    pub fn generate_timestamp() -> (r: String)
        ensures
            is_rfc3339_text(r@),
    {
        local_now_rfc3339()
    }

    /// A saved response with a fresh id, stamped now.
    pub fn create_saved_response(name: String, api_id: Option<String>, doc_content: String) -> (s: SavedResponse)
        ensures
            is_id_with_prefix(s.id@, "resp"@),
            s.name == name,
            s.api_id == api_id,
            s.doc_content == doc_content,
            is_rfc3339_text(s.created_at@),
    {
        let id = Self::generate_id();
        let created_at = Self::generate_timestamp();
        SavedResponse { id, name, created_at, api_id, doc_content }
    }

    /// The list entry of a saved response.
    pub fn create_index_entry(saved_response: &SavedResponse) -> (e: SavedResponseIndexEntry)
        ensures
            e.id == saved_response.id,
            e.name == saved_response.name,
            e.created_at == saved_response.created_at,
            e.api_id == saved_response.api_id,
    {
        SavedResponseIndexEntry {
            id: saved_response.id.clone(),
            name: saved_response.name.clone(),
            created_at: saved_response.created_at.clone(),
            api_id: saved_response.api_id.clone(),
        }
    }
}

} // verus!
