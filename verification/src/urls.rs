//! The addresses under which the coordinator and the chunk servers are reached.

use vstd::prelude::*;

use crate::foreign::{id_text, id_to_text};

verus! {

/// Joins two texts.
pub fn join2(first: &str, second: &str) -> (text: String)
    ensures
        text@ == first@ + second@,
{
    let mut text = String::from_str(first);
    text.append(second);
    text
}

/// Joins three texts.
pub fn join3(first: &str, second: &str, third: &str) -> (text: String)
    ensures
        text@ == first@ + second@ + third@,
{
    let mut text = String::from_str(first);
    text.append(second);
    text.append(third);
    text
}

/// Where the coordinator at `meta_url` serves the namespace.
pub fn files_url(meta_url: &str) -> (url: String)
    ensures
        url@ == meta_url@ + "/api/files"@,
{
    join2(meta_url, "/api/files")
}

/// Where the coordinator serves the node at `path`.
pub fn file_url(meta_url: &str, path: &str) -> (url: String)
    ensures
        url@ == meta_url@ + "/api/files?path="@ + path@,
{
    join3(meta_url, "/api/files?path=", path)
}

/// Where the coordinator takes a new node whose path is `path`.
pub fn create_url(meta_url: &str, path: &str) -> (url: String)
    ensures
        url@ == meta_url@ + "/api/files/upload?path="@ + path@,
{
    join3(meta_url, "/api/files/upload?path=", path)
}

/// Where the coordinator lists the live servers.
pub fn servers_url(meta_url: &str) -> (url: String)
    ensures
        url@ == meta_url@ + "/api/servers"@,
{
    join2(meta_url, "/api/servers")
}

/// Where the coordinator gives the record of the server `server_id`.
pub fn server_url(meta_url: &str, server_id: u128) -> (url: String)
    ensures
        url@ == meta_url@ + "/api/servers/"@ + id_text(server_id),
{
    join3(meta_url, "/api/servers/", id_to_text(server_id).as_str())
}

/// Where the coordinator lists the chunk records of the file `file_id`.
pub fn chunks_url(meta_url: &str, file_id: u128) -> (url: String)
    ensures
        url@ == meta_url@ + "/api/chunks/file/"@ + id_text(file_id),
{
    join3(meta_url, "/api/chunks/file/", id_to_text(file_id).as_str())
}

/// Where the coordinator takes the pings of the chunk servers.
pub fn ping_url(meta_url: &str) -> (url: String)
    ensures
        url@ == meta_url@ + "/api/ping"@,
{
    join2(meta_url, "/api/ping")
}

/// Where the coordinator takes the report that a chunk has been stored.
pub fn completed_url(meta_url: &str) -> (url: String)
    ensures
        url@ == meta_url@ + "/api/chunk/completed"@,
{
    join2(meta_url, "/api/chunk/completed")
}

/// Where the chunk server at `address` takes chunks.
pub fn chunk_upload_url(address: &str) -> (url: String)
    ensures
        url@ == address@ + "/api/upload"@,
{
    join2(address, "/api/upload")
}

/// Where the chunk server at `address` serves the chunk stored as `chunk_name`.
pub fn chunk_download_url(address: &str, chunk_name: &str) -> (url: String)
    ensures
        url@ == address@ + "/api/download/"@ + chunk_name@,
{
    join3(address, "/api/download/", chunk_name)
}

} // verus!
