//! The operations of the coordinator on its registries and its namespace.

use std::collections::HashMap;
use vstd::prelude::*;
use vstd::std_specs::iter::IteratorSpec;

use crate::errors::{Error, ErrorView};
use crate::foreign::now_millis;
use crate::model::{
    Chunk, ChunkServer, ChunkServerView, File, FileInfo, FileInfoView, FileMetadata, FileView, Tree,
};
use crate::namespace::{parent_of, parent_path, segments};

verus! {

broadcast use vstd::std_specs::hash::group_hash_axioms;

/// The chunk servers that the coordinator has heard of, by identifier.
pub type ChunkServersMap = HashMap<u128, ChunkServer>;

/// The files that the coordinator records, by identifier.
pub type FilesMap = HashMap<u128, File>;

/// The chunk records that the coordinator holds, by identifier.
pub type ChunksMap = HashMap<u128, Chunk>;

/// The namespace: the root directory with all that lies below it.
pub type FileMetadataTree = FileMetadata;

/// Whether `listed` names the entries of `map` under the keys in `ids`, each once, in some order.
pub open spec fn enumerates<V>(map: Map<u128, V>, ids: Set<u128>, listed: Seq<V>) -> bool {
    exists|keys: Seq<u128>| is_enumeration(map, ids, listed, keys)
}

/// Whether `keys` holds each key in `ids` once and `listed` the entries of `map` under them.
pub open spec fn is_enumeration<V>(
    map: Map<u128, V>,
    ids: Set<u128>,
    listed: Seq<V>,
    keys: Seq<u128>,
) -> bool {
    &&& keys.no_duplicates()
    &&& keys.to_set() == ids
    &&& keys.len() == listed.len()
    &&& forall|i: int| 0 <= i < keys.len() ==> #[trigger] listed[i] == map[keys[i]]
}

/// The keys of a map, each once, in the order in which the map hands them out.
pub fn keys_of<V>(map: &HashMap<u128, V>) -> (keys: Vec<u128>)
    ensures
        keys@.no_duplicates(),
        keys@.to_set() == map@.dom(),
{
    let mut keys: Vec<u128> = Vec::new();
    let ghost all: Seq<u128> = map.keys().remaining().unref();
    for key in it: map.keys()
        invariant
            it.seq().unref() == all,
            keys@ == all.take(it.index()),
    {
        keys.push(*key);
        assert(keys@ =~= all.take(it.index() + 1));
    }
    assert(keys@ =~= all);
    keys
}

/// What the server records of a registry say.
pub open spec fn servers_view(servers: Map<u128, ChunkServer>) -> Map<u128, ChunkServerView> {
    servers.map_values(|server: ChunkServer| server@)
}

/// What the file records of a registry say.
pub open spec fn files_view(files: Map<u128, File>) -> Map<u128, FileView> {
    files.map_values(|file: File| file@)
}

/// What a list of server records says.
pub open spec fn server_views(servers: Seq<ChunkServer>) -> Seq<ChunkServerView> {
    servers.map_values(|server: ChunkServer| server@)
}

/// The identifiers of the servers that are live at the time `now`.
pub open spec fn live_ids(servers: Map<u128, ChunkServerView>, now: i64) -> Set<u128> {
    Set::new(|id: u128| servers.contains_key(id) && servers[id].is_live(now))
}

/// The identifiers of the chunk records that belong to the file `file_id`.
pub open spec fn chunk_ids_of(chunks: Map<u128, Chunk>, file_id: u128) -> Set<u128> {
    Set::new(|id: u128| chunks.contains_key(id) && chunks[id].file_id == file_id)
}

/// The registry of servers after a ping with `payload` at the time `now`. A
/// server that is not known yet is recorded as the payload gives it; a known
/// one keeps its record. Either way its latest ping becomes `now`.
pub open spec fn ping(
    servers: Map<u128, ChunkServerView>,
    payload: ChunkServerView,
    now: i64,
) -> Map<u128, ChunkServerView> {
    let known = if servers.contains_key(payload.id) {
        servers[payload.id]
    } else {
        payload
    };
    servers.insert(payload.id, ChunkServerView { latest_ping_time: now, ..known })
}

/// Whether the registry already holds exactly this chunk record.
pub open spec fn is_recorded(chunks: Map<u128, Chunk>, chunk: Chunk) -> bool {
    chunks.contains_key(chunk.id) && chunks[chunk.id] == chunk
}

/// The files and the chunk records after `chunk` has been reported as stored.
/// Nothing changes where its file is unknown, or where the very same record
/// is held already. Otherwise the record is kept under its identifier, in the
/// place of an older one if there is one, and the file counts one more chunk.
pub open spec fn chunk_completed(
    files: Map<u128, FileView>,
    chunks: Map<u128, Chunk>,
    chunk: Chunk,
) -> (Map<u128, FileView>, Map<u128, Chunk>) {
    if !files.contains_key(chunk.file_id) || is_recorded(chunks, chunk) {
        (files, chunks)
    } else {
        (
            files.insert(chunk.file_id, files[chunk.file_id].chunk_completed()),
            chunks.insert(chunk.id, chunk),
        )
    }
}

/// The files after `node` has been created: a file node is recorded under
/// the identifier of its file, a directory node leaves the files as they are.
pub open spec fn file_recorded(files: Map<u128, FileView>, node: Tree) -> Map<u128, FileView> {
    match node.file_info {
        FileInfoView::File(file) => files.insert(file.id, file),
        FileInfoView::Directory(_) => files,
    }
}

/// Every server is recorded under its own identifier.
pub open spec fn servers_keyed(servers: Map<u128, ChunkServerView>) -> bool {
    forall|id: u128| servers.contains_key(id) ==> (#[trigger] servers[id]).id == id
}

/// Every file record keeps its counter within the number of its chunks, and
/// a completed one has all of its chunks counted.
pub open spec fn files_wf(files: Map<u128, FileView>) -> bool {
    forall|id: u128| files.contains_key(id) ==> (#[trigger] files[id]).wf()
}

/// Every chunk record belongs to a file that is recorded.
pub open spec fn chunks_reference_files(chunks: Map<u128, Chunk>, files: Map<u128, FileView>) -> bool {
    forall|id: u128| chunks.contains_key(id) ==> files.contains_key((#[trigger] chunks[id]).file_id)
}

/// The path that a request names, and the root where it names none.
pub open spec fn path_or_root(path: Option<&str>) -> Seq<char> {
    match path {
        Some(path) => path@,
        None => Seq::empty(),
    }
}

/// The state of a coordinator: its three registries and the namespace.
#[derive(Debug)]
pub struct Coordinator {
    pub servers: ChunkServersMap,
    pub files: FilesMap,
    pub chunks: ChunksMap,
    pub tree: FileMetadataTree,
}

/// The state in which a coordinator starts: it knows no server, no file and
/// no chunk, and its namespace is a root directory without children.
pub fn rocket() -> (state: Coordinator)
    ensures
        state.servers@ == Map::<u128, ChunkServer>::empty(),
        state.files@ == Map::<u128, File>::empty(),
        state.chunks@ == Map::<u128, Chunk>::empty(),
        state.tree@ == (Tree {
            file_info: FileInfoView::Directory(Seq::empty()),
            children: Seq::empty(),
        }),
        servers_keyed(servers_view(state.servers@)),
        files_wf(files_view(state.files@)),
        chunks_reference_files(state.chunks@, files_view(state.files@)),
        state.tree@.wf(),
{
    Coordinator {
        servers: HashMap::new(),
        files: HashMap::new(),
        chunks: HashMap::new(),
        tree: FileMetadata::create_root(),
    }
}

/// Lists the servers that are live at the time `now`, each once.
pub fn get_servers_at(servers: &ChunkServersMap, now: i64) -> (live: Vec<ChunkServer>)
    ensures
        enumerates(
            servers_view(servers@),
            live_ids(servers_view(servers@), now),
            server_views(live@),
        ),
{
    let keys = keys_of(servers);
    let mut live: Vec<ChunkServer> = Vec::new();
    let ghost mut picked: Seq<u128> = Seq::empty();
    let ghost mut from: Seq<int> = Seq::empty();
    let ghost view = servers_view(servers@);
    let mut i: usize = 0;
    while i < keys.len()
        invariant
            i <= keys.len(),
            view == servers_view(servers@),
            keys@.no_duplicates(),
            keys@.to_set() == servers@.dom(),
            picked.len() == live.len(),
            from.len() == live.len(),
            forall|j: int| 0 <= j < from.len() ==> 0 <= #[trigger] from[j] < i,
            forall|j: int, k: int| 0 <= j < k < from.len() ==> from[j] < from[k],
            forall|j: int| 0 <= j < picked.len() ==> #[trigger] picked[j] == keys@[from[j]],
            forall|j: int|
                0 <= j < picked.len() ==> view.contains_key(#[trigger] picked[j])
                    && view[picked[j]].is_live(now) && live@[j]@ == view[picked[j]],
            forall|t: int|
                0 <= t < i && view[#[trigger] keys@[t]].is_live(now) ==> picked.contains(keys@[t]),
        decreases keys.len() - i,
    {
        let key = keys[i];
        assert(keys@.to_set().contains(key));
        match servers.get(&key) {
            Some(server) => {
                if server.is_live(now) {
                    let copy = server.clone();
                    live.push(copy);
                    proof {
                        let ghost before = picked;
                        picked = picked.push(key);
                        from = from.push(i as int);
                        assert forall|t: int|
                            0 <= t < i + 1 && view[#[trigger] keys@[t]].is_live(
                                now,
                            ) implies picked.contains(keys@[t]) by {
                            if t < i {
                                assert(before.contains(keys@[t]));
                                let j = choose|j: int| 0 <= j < before.len() && before[j] == keys@[t];
                                assert(picked[j] == keys@[t]);
                            } else {
                                assert(picked[picked.len() - 1] == key);
                            }
                        }
                    }
                }
            },
            None => {},
        }
        i = i + 1;
    }
    proof {
        assert forall|a: int, b: int| 0 <= a < picked.len() && 0 <= b < picked.len() && a != b implies picked[a]
            != picked[b] by {
            assert(from[a] != from[b]);
        }
        assert forall|id: u128| live_ids(view, now).contains(id) implies picked.to_set().contains(
            id,
        ) by {
            assert(keys@.to_set().contains(id));
            let t = choose|t: int| 0 <= t < keys@.len() && keys@[t] == id;
            assert(picked.contains(keys@[t]));
        }
        assert forall|id: u128| picked.to_set().contains(id) implies live_ids(view, now).contains(
            id,
        ) by {
            let j = choose|j: int| 0 <= j < picked.len() && picked[j] == id;
            assert(view.contains_key(picked[j]));
        }
        assert(picked.to_set() =~= live_ids(view, now));
        assert forall|j: int| 0 <= j < picked.len() implies #[trigger] server_views(live@)[j]
            == view[picked[j]] by {
            assert(live@[j]@ == view[picked[j]]);
        }
        assert(is_enumeration(view, live_ids(view, now), server_views(live@), picked));
    }
    live
}

/// Lists the servers that are live by the system clock, each once.
pub fn get_servers(servers: &ChunkServersMap) -> (live: Vec<ChunkServer>)
    ensures
        exists|now: i64| #[trigger]
            enumerates(
                servers_view(servers@),
                live_ids(servers_view(servers@), now),
                server_views(live@),
            ),
{
    let now = now_millis();
    let live = get_servers_at(servers, now);
    assert(enumerates(
        servers_view(servers@),
        live_ids(servers_view(servers@), now),
        server_views(live@),
    ));
    live
}

/// Gives the record of the server `id`.
pub fn get_server(id: u128, servers: &ChunkServersMap) -> (found: Result<ChunkServer, Error>)
    ensures
        match found {
            Ok(server) => servers@.contains_key(id) && server@ == servers@[id]@,
            Err(e) => !servers@.contains_key(id) && e@ == ErrorView::NotFound,
        },
{
    match servers.get(&id) {
        Some(server) => Ok(server.clone()),
        None => Err(Error::NotFound),
    }
}

/// Takes a ping of a chunk server at the time `now` and gives back the
/// record that the registry holds of the server afterwards.
pub fn chunk_server_ping_at(payload: ChunkServer, servers: &mut ChunkServersMap, now: i64) -> (refreshed:
    ChunkServer)
    ensures
        servers_view(final(servers)@) == ping(servers_view(old(servers)@), payload@, now),
        refreshed@ == servers_view(final(servers)@)[payload.id],
{
    let id = payload.id;
    let mut record = match servers.remove(&id) {
        Some(known) => known,
        None => payload,
    };
    record.latest_ping_time = now;
    let refreshed = record.clone();
    servers.insert(id, record);
    assert(servers_view(servers@) =~= ping(servers_view(old(servers)@), payload@, now));
    refreshed
}

/// Takes a ping of a chunk server at the time that the system clock shows.
pub fn chunk_server_ping(payload: ChunkServer, servers: &mut ChunkServersMap) -> (refreshed:
    ChunkServer)
    ensures
        exists|now: i64| #[trigger]
            ping(servers_view(old(servers)@), payload@, now) == servers_view(final(servers)@),
        refreshed@ == servers_view(final(servers)@)[payload.id],
{
    let now = now_millis();
    let refreshed = chunk_server_ping_at(payload, servers, now);
    assert(ping(servers_view(old(servers)@), payload@, now) == servers_view(servers@));
    refreshed
}

/// Puts `file_info` into the directory that `path` lies in, and records its
/// file if it is a file node. `path` is the path of the new node itself:
/// what stands before its last separator names the directory.
pub fn create_file(
    file_info: FileMetadata,
    path: Option<&str>,
    files: &mut FilesMap,
    tree: &mut FileMetadataTree,
) -> (created: Result<FileMetadata, Error>)
    ensures
        match path {
            None => created matches Err(e) && e@ == ErrorView::MissingParam && final(tree)@ == old(
                tree,
            )@ && files_view(final(files)@) == files_view(old(files)@),
            Some(path) => match old(tree)@.insert(segments(parent_path(path@)), file_info@) {
                None => created matches Err(e) && e@ == ErrorView::NotFound && final(tree)@ == old(
                    tree,
                )@ && files_view(final(files)@) == files_view(old(files)@),
                Some(grown) => created matches Ok(node) && node@ == file_info@ && final(tree)@
                    == grown && files_view(final(files)@) == file_recorded(
                    files_view(old(files)@),
                    file_info@,
                ),
            },
        },
{
    let path = match path {
        Some(path) => path,
        None => {
            return Err(Error::MissingParam);
        },
    };
    let node = file_info.clone();
    let record = match &file_info.file_info {
        FileInfo::File(file) => Some(file.clone()),
        FileInfo::Directory(_) => None,
    };
    proof {
        file_info.lemma_children();
    }
    match tree.insert_at(parent_of(path), file_info) {
        Ok(()) => {},
        Err(e) => {
            return Err(e);
        },
    }
    match record {
        Some(file) => {
            files.insert(file.id, file);
            assert(files_view(files@) =~= file_recorded(files_view(old(files)@), file_info@));
        },
        None => {},
    }
    Ok(node)
}

/// Gives the node at `path` with all that lies below it; without a path, the root.
pub fn get_file<'a>(path: Option<&str>, tree: &'a FileMetadataTree) -> (found: Result<
    &'a FileMetadata,
    Error,
>)
    ensures
        match tree@.resolve(segments(path_or_root(path))) {
            Some(node) => found matches Ok(target) && target@ == node,
            None => found matches Err(e) && e@ == ErrorView::NotFound,
        },
{
    match path {
        Some(path) => tree.traverse(path),
        None => {
            proof {
                reveal_strlit("");
            }
            tree.traverse("")
        },
    }
}

/// Takes the report that `chunk` has been stored by its server. A report
/// for a file that is not recorded is refused and leaves no trace. A report
/// that repeats a record which is held already is acknowledged and counts
/// nothing. Any other report is recorded and counted for its file.
pub fn signal_chuck_upload_completed(chunk: Chunk, files: &mut FilesMap, chunks: &mut ChunksMap) -> (done:
    Result<(), Error>)
    ensures
        match done {
            Ok(()) => old(files)@.contains_key(chunk.file_id),
            Err(e) => !old(files)@.contains_key(chunk.file_id) && e@ == ErrorView::NotFound,
        },
        (files_view(final(files)@), final(chunks)@) == chunk_completed(
            files_view(old(files)@),
            old(chunks)@,
            chunk,
        ),
{
    if !files.contains_key(&chunk.file_id) {
        return Err(Error::NotFound);
    }
    let recorded = match chunks.get(&chunk.id) {
        Some(held) => *held == chunk,
        None => false,
    };
    if recorded {
        return Ok(());
    }
    chunks.insert(chunk.id, chunk);
    match files.remove(&chunk.file_id) {
        Some(file) => {
            let mut file = file;
            file.chunk_completed();
            files.insert(chunk.file_id, file);
        },
        None => {},
    }
    assert(files_view(files@) =~= files_view(old(files)@).insert(
        chunk.file_id,
        files_view(old(files)@)[chunk.file_id].chunk_completed(),
    ));
    Ok(())
}

/// Lists the chunk records that belong to the file `file_id`, each once.
pub fn get_chunks(file_id: u128, chunks: &ChunksMap) -> (listed: Vec<Chunk>)
    ensures
        enumerates(chunks@, chunk_ids_of(chunks@, file_id), listed@),
{
    let keys = keys_of(chunks);
    let mut listed: Vec<Chunk> = Vec::new();
    let ghost mut picked: Seq<u128> = Seq::empty();
    let ghost mut from: Seq<int> = Seq::empty();
    let mut i: usize = 0;
    while i < keys.len()
        invariant
            i <= keys.len(),
            keys@.no_duplicates(),
            keys@.to_set() == chunks@.dom(),
            picked.len() == listed.len(),
            from.len() == listed.len(),
            forall|j: int| 0 <= j < from.len() ==> 0 <= #[trigger] from[j] < i,
            forall|j: int, k: int| 0 <= j < k < from.len() ==> from[j] < from[k],
            forall|j: int| 0 <= j < picked.len() ==> #[trigger] picked[j] == keys@[from[j]],
            forall|j: int|
                0 <= j < picked.len() ==> chunks@.contains_key(#[trigger] picked[j])
                    && chunks@[picked[j]].file_id == file_id && listed@[j] == chunks@[picked[j]],
            forall|t: int|
                0 <= t < i && chunks@[#[trigger] keys@[t]].file_id == file_id ==> picked.contains(
                    keys@[t],
                ),
        decreases keys.len() - i,
    {
        let key = keys[i];
        assert(keys@.to_set().contains(key));
        match chunks.get(&key) {
            Some(chunk) => {
                if chunk.file_id == file_id {
                    listed.push(*chunk);
                    proof {
                        let ghost before = picked;
                        picked = picked.push(key);
                        from = from.push(i as int);
                        assert forall|t: int|
                            0 <= t < i + 1 && chunks@[#[trigger] keys@[t]].file_id
                                == file_id implies picked.contains(keys@[t]) by {
                            if t < i {
                                assert(before.contains(keys@[t]));
                                let j = choose|j: int| 0 <= j < before.len() && before[j] == keys@[t];
                                assert(picked[j] == keys@[t]);
                            } else {
                                assert(picked[picked.len() - 1] == key);
                            }
                        }
                    }
                }
            },
            None => {},
        }
        i = i + 1;
    }
    proof {
        let ids = chunk_ids_of(chunks@, file_id);
        assert forall|a: int, b: int| 0 <= a < picked.len() && 0 <= b < picked.len() && a != b implies picked[a]
            != picked[b] by {
            assert(from[a] != from[b]);
        }
        assert forall|id: u128| ids.contains(id) implies picked.to_set().contains(id) by {
            assert(keys@.to_set().contains(id));
            let t = choose|t: int| 0 <= t < keys@.len() && keys@[t] == id;
            assert(picked.contains(keys@[t]));
        }
        assert forall|id: u128| picked.to_set().contains(id) implies ids.contains(id) by {
            let j = choose|j: int| 0 <= j < picked.len() && picked[j] == id;
            assert(chunks@.contains_key(picked[j]));
        }
        assert(picked.to_set() =~= ids);
        assert(is_enumeration(chunks@, ids, listed@, picked));
    }
    listed
}

} // verus!
