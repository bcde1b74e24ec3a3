//! Where the application keeps its files, below the data directory next to
//! the executable (`./data`) and the configuration directory (`./config`).

use vstd::prelude::*;
use crate::text::{chars_of, string_of, append_chars};

verus! {

/// `Path::join` on Unix: an absolute part replaces the path; otherwise it
/// is added after a `/` (none is added when the path already ends with one
/// or is empty).
pub open spec fn join_path(base: Seq<char>, part: Seq<char>) -> Seq<char> {
    if part.len() > 0 && part[0] == '/' {
        part
    } else if base.len() == 0 || base.last() == '/' {
        base + part
    } else {
        base + seq!['/'] + part
    }
}

/// Joins a path and a part.
pub fn join(base: &str, part: &str) -> (r: String)
    ensures
        r@ == join_path(base@, part@),
{
    let b = chars_of(base);
    let p = chars_of(part);
    if p.len() > 0 && p[0] == '/' {
        return string_of(&p);
    }
    let mut out = b;
    if out.len() > 0 && out[out.len() - 1] != '/' {
        out.push('/');
    }
    append_chars(&mut out, &p);
    string_of(&out)
}

/// The directory of a workspace: `<data>/<workspace_id>`.
pub fn get_workspace_dir(data_dir: &str, workspace_id: &str) -> (r: String)
    ensures
        r@ == join_path(data_dir@, workspace_id@),
{
    join(data_dir, workspace_id)
}

/// The database of a workspace: `<data>/<workspace_id>/data.db`.
pub fn get_workspace_db_path(data_dir: &str, workspace_id: &str) -> (r: String)
    ensures
        r@ == join_path(join_path(data_dir@, workspace_id@), "data.db"@),
{
    let d = get_workspace_dir(data_dir, workspace_id);
    join(d.as_str(), "data.db")
}

/// The global configuration: `<data>/config.json`.
pub fn get_config_path(data_dir: &str) -> (r: String)
    ensures
        r@ == join_path(data_dir@, "config.json"@),
{
    join(data_dir, "config.json")
}

/// The environment file: `<config>/config.env`.
pub fn get_config_env_path(config_dir: &str) -> (r: String)
    ensures
        r@ == join_path(config_dir@, "config.env"@),
{
    join(config_dir, "config.env")
}

/// The log directory: `<data>/logs`.
pub fn get_logs_dir(data_dir: &str) -> (r: String)
    ensures
        r@ == join_path(data_dir@, "logs"@),
{
    join(data_dir, "logs")
}

/// The encryption key, kept with the databases: `<data>/.encryption_key`.
pub fn get_key_path(data_dir: &str) -> (r: String)
    ensures
        r@ == join_path(data_dir@, ".encryption_key"@),
{
    join(data_dir, ".encryption_key")
}

/// A workspace's database lies inside the data directory: for a relative
/// workspace id, its path begins with the data directory.
pub proof fn lemma_db_path_inside(data_dir: Seq<char>, workspace_id: Seq<char>)
    requires
        !(workspace_id.len() > 0 && workspace_id[0] == '/'),
    ensures
        join_path(join_path(data_dir, workspace_id), "data.db"@).take(data_dir.len() as int) == data_dir,
{
    reveal_strlit("data.db");
    let d = join_path(data_dir, workspace_id);
    assert(d.take(data_dir.len() as int) =~= data_dir);
    let f = join_path(d, "data.db"@);
    assert(f.take(data_dir.len() as int) =~= data_dir);
}

} // verus!
