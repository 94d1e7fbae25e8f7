use vstd::prelude::*;

verus! {

/// Endpoint used when no store endpoint is configured.
pub open spec fn default_endpoint_text() -> Seq<char> {
    "mongodb://localhost:27017"@
}

/// Database name used when none is configured.
pub open spec fn default_db_name_text() -> Seq<char> {
    "life_track"@
}

/// The endpoint the connection manager must use: the configured value when
/// one is present, the well-known local default otherwise.
pub fn effective_endpoint(configured: Option<String>) -> (r: String)
    ensures
        match configured {
            Some(uri) => r == uri,
            None => r@ == default_endpoint_text(),
        },
{
    match configured {
        Some(uri) => uri,
        None => String::from_str("mongodb://localhost:27017"),
    }
}

/// The database name the connection manager must use: the configured value
/// when one is present, the fixed application name otherwise.
pub fn effective_db_name(configured: Option<String>) -> (r: String)
    ensures
        match configured {
            Some(name) => r == name,
            None => r@ == default_db_name_text(),
        },
{
    match configured {
        Some(name) => name,
        None => String::from_str("life_track"),
    }
}

/// Name of the task collection in the store.
pub fn todos_collection_name() -> (r: String)
    ensures
        r@ == "todos"@,
{
    String::from_str("todos")
}

/// Name of the note collection in the store.
pub fn ideas_collection_name() -> (r: String)
    ensures
        r@ == "ideas"@,
{
    String::from_str("ideas")
}

} // verus!
