//! The request history.

use vstd::prelude::*;
use crate::models::{Header, FormField};
use crate::ids::{generate_id, is_id_with_prefix, is_rfc3339_text, local_now_rfc3339};

verus! {

/// A response as the history keeps it.
#[derive(Debug)]
pub struct HttpResponse {
    pub status: u16,
    pub status_text: String,
    pub headers: Vec<(String, String)>,
    pub body: String,
    pub time: u64,
    pub size: u64,
}

/// One sent request and its response.
#[derive(Debug)]
pub struct HistoryEntry {
    pub id: String,
    pub method: String,
    pub url: String,
    pub resolved_url: String,
    pub headers: Vec<Header>,
    pub body: Option<String>,
    pub body_type: Option<String>,
    pub form_fields: Option<Vec<FormField>>,
    pub status: u16,
    pub status_text: String,
    pub response_headers: Vec<(String, String)>,
    pub response_body: String,
    pub time: u64,
    pub size: u64,
    pub created_at: String,
    pub api_id: Option<String>,
    pub api_name: Option<String>,
}

pub(crate) fn clone_pairs(v: &Vec<(String, String)>) -> (r: Vec<(String, String)>)
    ensures
        r@ == v@,
{
    let mut r: Vec<(String, String)> = Vec::new();
    for i in 0..v.len()
        invariant
            r@ == v@.take(i as int),
    {
        let p = (v[i].0.clone(), v[i].1.clone());
        r.push(p);
        assert(v@.take(i + 1) =~= v@.take(i as int).push(v@[i as int]));
    }
    assert(v@.take(v@.len() as int) =~= v@);
    r
}

/// Ids and records of the history.
pub struct HistoryDomainService;

impl HistoryDomainService {
    /// A fresh history id (`hist_...`).
    pub fn generate_id() -> (r: String)
        ensures
            is_id_with_prefix(r@, "hist"@),
    {
        generate_id("hist")
    }

    /// The local time now, as RFC 3339 text.
    pub fn generate_timestamp() -> (r: String)
        ensures
            is_rfc3339_text(r@),
    {
        local_now_rfc3339()
    }

    /// A history record of a request and its response, stamped now.
    pub fn create_history_entry(
        method: String,
        url: String,
        resolved_url: String,
        headers: Vec<Header>,
        body: Option<String>,
        body_type: Option<String>,
        form_fields: Option<Vec<FormField>>,
        response: &HttpResponse,
        api_id: Option<String>,
        api_name: Option<String>,
    ) -> (e: HistoryEntry)
        ensures
            is_id_with_prefix(e.id@, "hist"@),
            e.method == method,
            e.url == url,
            e.resolved_url == resolved_url,
            e.headers == headers,
            e.body == body,
            e.body_type == body_type,
            e.form_fields == form_fields,
            e.status == response.status,
            e.status_text == response.status_text,
            e.response_headers@ == response.headers@,
            e.response_body == response.body,
            e.time == response.time,
            e.size == response.size,
            e.api_id == api_id,
            e.api_name == api_name,
            is_rfc3339_text(e.created_at@),
    {
        let id = Self::generate_id();
        let created_at = Self::generate_timestamp();
        HistoryEntry {
            id,
            method,
            url,
            resolved_url,
            headers,
            body,
            body_type,
            form_fields,
            status: response.status,
            status_text: response.status_text.clone(),
            response_headers: clone_pairs(&response.headers),
            response_body: response.body.clone(),
            time: response.time,
            size: response.size,
            created_at,
            api_id,
            api_name,
        }
    }
}

/// A stored history row, its JSON columns already read: the status, time
/// and size as the database holds them.
#[derive(Debug)]
pub struct HistoryRow {
    pub id: String,
    pub method: String,
    pub url: String,
    pub resolved_url: String,
    pub status: i32,
    pub status_text: String,
    pub response_body: String,
    pub time: i32,
    pub size: i32,
    pub created_at: String,
    pub body: Option<String>,
    pub body_type: Option<String>,
    pub api_id: Option<String>,
    pub api_name: Option<String>,
}

/// The entry a stored row stands for: the numbers converted as Rust's `as`
/// does, and an empty list of form fields read as none.
pub fn reconstruct_entry(
    row: HistoryRow,
    headers: Vec<Header>,
    response_headers: Vec<(String, String)>,
    form_fields: Vec<FormField>,
) -> (e: HistoryEntry)
    ensures
        e.id == row.id && e.method == row.method && e.url == row.url && e.resolved_url == row.resolved_url,
        e.headers == headers,
        e.body == row.body && e.body_type == row.body_type,
        e.form_fields == (if form_fields@.len() == 0 { None } else { Some(form_fields) }),
        e.status == row.status as u16,
        e.status_text == row.status_text,
        e.response_headers == response_headers,
        e.response_body == row.response_body,
        e.time == row.time as u64,
        e.size == row.size as u64,
        e.created_at == row.created_at,
        e.api_id == row.api_id && e.api_name == row.api_name,
{
    let fields = if form_fields.len() == 0 {
        None
    } else {
        Some(form_fields)
    };
    HistoryEntry {
        id: row.id,
        method: row.method,
        url: row.url,
        resolved_url: row.resolved_url,
        headers,
        body: row.body,
        body_type: row.body_type,
        form_fields: fields,
        status: row.status as u16,
        status_text: row.status_text,
        response_headers,
        response_body: row.response_body,
        time: row.time as u64,
        size: row.size as u64,
        created_at: row.created_at,
        api_id: row.api_id,
        api_name: row.api_name,
    }
}

} // verus!
