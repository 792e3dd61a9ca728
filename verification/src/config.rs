//! Service settings and their defaults.

use vstd::prelude::*;

use crate::text::{owned, push_str_chars, string_from_chars};

verus! {

/// The database URL when none is configured: the local development database,
/// reached as the given user ("postgres" when none is known).
pub fn default_database_url(username: Option<String>) -> (r: String)
    ensures
        r@ == "postgres://"@ + (match username {
            Some(u) => u@,
            None => "postgres"@,
        }) + "@127.0.0.1:28818/postgres"@,
{
    let user = match username {
        Some(u) => u,
        None => owned("postgres"),
    };
    let mut out: Vec<char> = Vec::new();
    push_str_chars(&mut out, "postgres://");
    push_str_chars(&mut out, user.as_str());
    push_str_chars(&mut out, "@127.0.0.1:28818/postgres");
    string_from_chars(out.as_slice())
}

/// A setting: its configured value, else the default.
pub fn setting_or(value: Option<String>, default: &str) -> (r: String)
    ensures
        r@ == match value {
            Some(v) => v@,
            None => default@,
        },
{
    match value {
        Some(v) => v,
        None => owned(default),
    }
}

/// Address of the ingest worker as the studio server and the CLI reach it.
pub open spec fn spec_default_ingest_url() -> Seq<char> {
    "http://127.0.0.1:8082"@
}

/// Address of the ingest worker as the studio server and the CLI reach it.
pub fn default_ingest_url() -> (r: String)
    ensures
        r@ == spec_default_ingest_url(),
{
    owned("http://127.0.0.1:8082")
}

/// Address the studio server listens on.
pub fn default_studio_listen() -> (r: String)
    ensures
        r@ == "127.0.0.1:8080"@,
{
    owned("127.0.0.1:8080")
}

/// Address the ingest worker listens on.
pub fn default_worker_listen() -> (r: String)
    ensures
        r@ == "127.0.0.1:8082"@,
{
    owned("127.0.0.1:8082")
}

/// Directory where downloaded shards are cached.
pub fn default_cache_dir() -> (r: String)
    ensures
        r@ == ".cache/lichess"@,
{
    owned(".cache/lichess")
}

/// Connections the studio server's database pool holds at most.
pub const POOL_MAX_SIZE: usize = 16;

} // verus!
