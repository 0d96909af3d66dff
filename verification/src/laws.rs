//! What holds of the operations of the file store. Each law is a proof
//! function: its `requires` says when the law applies, its `ensures` what it
//! promises, and Verus has checked the proof.

use vstd::prelude::*;

use crate::file_ops::{chunk_count, lemma_chunk_count, least, part_bytes, split};
use crate::model::{Chunk, ChunkServerView, FileInfoView, FileStatus, FileView, Tree};
use crate::namespace::lemma_position_from;
use crate::routes::{
    chunk_completed, chunks_reference_files, enumerates, file_recorded, files_wf, is_enumeration,
    is_recorded, ping, servers_keyed,
};

verus! {

/// The registry of servers after one ping with `payload` at each of the given times, in order.
pub open spec fn pings(
    servers: Map<u128, ChunkServerView>,
    payload: ChunkServerView,
    times: Seq<i64>,
) -> Map<u128, ChunkServerView>
    decreases times.len(),
{
    if times.len() == 0 {
        servers
    } else {
        ping(pings(servers, payload, times.drop_last()), payload, times.last())
    }
}

/// A ping never sets back the latest ping of a server, as long as the clock
/// has not gone back behind the latest ping of the server that pings. No
/// server leaves the registry, and the records of the other servers stay.
pub proof fn law_ping_monotonic(
    servers: Map<u128, ChunkServerView>,
    payload: ChunkServerView,
    now: i64,
)
    requires
        servers.contains_key(payload.id) ==> servers[payload.id].latest_ping_time <= now,
    ensures
        forall|id: u128| #[trigger]
            servers.contains_key(id) ==> ping(servers, payload, now).contains_key(id)
                && servers[id].latest_ping_time <= ping(servers, payload, now)[id].latest_ping_time,
        forall|id: u128|
            servers.contains_key(id) && id != payload.id ==> #[trigger] ping(servers, payload, now)[id]
                == servers[id],
{
}

/// A ping of a server that is known changes nothing but the latest ping of that server.
pub proof fn law_ping_known(servers: Map<u128, ChunkServerView>, payload: ChunkServerView, now: i64)
    requires
        servers.contains_key(payload.id),
    ensures
        ping(servers, payload, now).dom() == servers.dom(),
        ping(servers, payload, now)[payload.id] == (ChunkServerView {
            latest_ping_time: now,
            ..servers[payload.id]
        }),
{
    assert(ping(servers, payload, now).dom() =~= servers.dom());
}

/// A ping of a server that is not known yet adds its record, as the payload
/// gives it, with the time of the ping.
pub proof fn law_ping_unknown(servers: Map<u128, ChunkServerView>, payload: ChunkServerView, now: i64)
    requires
        !servers.contains_key(payload.id),
        servers.dom().finite(),
    ensures
        ping(servers, payload, now).dom() == servers.dom().insert(payload.id),
        ping(servers, payload, now).len() == servers.len() + 1,
        ping(servers, payload, now)[payload.id] == (ChunkServerView {
            latest_ping_time: now,
            ..payload
        }),
{
    assert(ping(servers, payload, now).dom() =~= servers.dom().insert(payload.id));
}

/// A ping keeps every server under its own identifier.
pub proof fn law_ping_keeps_keys(servers: Map<u128, ChunkServerView>, payload: ChunkServerView, now: i64)
    requires
        servers_keyed(servers),
    ensures
        servers_keyed(ping(servers, payload, now)),
{
    let after = ping(servers, payload, now);
    assert forall|id: u128| after.contains_key(id) implies (#[trigger] after[id]).id == id by {
        if id != payload.id {
            assert(servers[id].id == id);
        } else if servers.contains_key(payload.id) {
            assert(servers[payload.id].id == payload.id);
        }
    }
}

/// Where every server is recorded under its own identifier, a listing of
/// servers names no server twice and is as long as the set of servers that it lists.
pub proof fn law_listing_names_each_once(
    servers: Map<u128, ChunkServerView>,
    ids: Set<u128>,
    listed: Seq<ChunkServerView>,
)
    requires
        servers_keyed(servers),
        enumerates(servers, ids, listed),
        ids.subset_of(servers.dom()),
    ensures
        forall|i: int, j: int| 0 <= i < j < listed.len() ==> listed[i].id != listed[j].id,
        forall|i: int| 0 <= i < listed.len() ==> ids.contains(#[trigger] listed[i].id),
        ids.finite() && ids.len() == listed.len(),
{
    let keys = choose|keys: Seq<u128>| is_enumeration(servers, ids, listed, keys);
    assert forall|i: int| 0 <= i < listed.len() implies (#[trigger] listed[i]).id == keys[i] by {
        assert(keys.to_set().contains(keys[i]));
        assert(servers.contains_key(keys[i]));
    }
    assert forall|i: int| 0 <= i < listed.len() implies ids.contains(#[trigger] listed[i].id) by {
        assert(keys.to_set().contains(keys[i]));
    }
    keys.unique_seq_to_set();
}

/// Two pings with the same payload leave what the later one alone would
/// leave: the second adds no server and moves only the latest ping.
pub proof fn law_ping_twice(
    servers: Map<u128, ChunkServerView>,
    payload: ChunkServerView,
    first: i64,
    second: i64,
)
    ensures
        ping(ping(servers, payload, first), payload, second) == ping(servers, payload, second),
        ping(ping(servers, payload, first), payload, second).dom() == ping(
            servers,
            payload,
            first,
        ).dom(),
{
    assert(ping(ping(servers, payload, first), payload, second) =~= ping(servers, payload, second));
    assert(ping(servers, payload, second).dom() =~= ping(servers, payload, first).dom());
}

/// Any number of pings with the same payload leaves the registry as large as
/// the first of them left it, and leaves what the last one alone would leave.
pub proof fn law_ping_repeated(
    servers: Map<u128, ChunkServerView>,
    payload: ChunkServerView,
    times: Seq<i64>,
)
    requires
        times.len() > 0,
    ensures
        pings(servers, payload, times) == ping(servers, payload, times.last()),
        pings(servers, payload, times).dom() == ping(servers, payload, times[0]).dom(),
    decreases times.len(),
{
    let before = times.drop_last();
    assert(pings(servers, payload, times) == ping(
        pings(servers, payload, before),
        payload,
        times.last(),
    ));
    if times.len() > 1 {
        law_ping_repeated(servers, payload, before);
        law_ping_twice(servers, payload, before.last(), times.last());
        assert(before[0] == times[0]);
    } else {
        assert(pings(servers, payload, before) == servers);
    }
    assert(ping(servers, payload, times.last()).dom() =~= ping(servers, payload, times[0]).dom());
}

/// Counting one more chunk keeps a file record well formed, never lowers its
/// counter, and never lets the counter pass the number of chunks.
pub proof fn law_file_chunk_completed(file: FileView)
    requires
        file.wf(),
    ensures
        file.chunk_completed().wf(),
        file.num_of_completed_chunks <= file.chunk_completed().num_of_completed_chunks
            <= file.chunks.len(),
        file.chunk_completed().status == FileStatus::Completed ==> file.chunk_completed().num_of_completed_chunks
            == file.chunks.len(),
{
}

/// A report that a chunk has been stored keeps every file record well
/// formed: a completed file has all of its chunks counted, before and after.
pub proof fn law_completed_files_counted(
    files: Map<u128, FileView>,
    chunks: Map<u128, Chunk>,
    chunk: Chunk,
)
    requires
        files_wf(files),
    ensures
        files_wf(chunk_completed(files, chunks, chunk).0),
{
    let after = chunk_completed(files, chunks, chunk).0;
    assert forall|id: u128| after.contains_key(id) implies (#[trigger] after[id]).wf() by {
        if files.contains_key(chunk.file_id) && !is_recorded(chunks, chunk) && id == chunk.file_id {
            law_file_chunk_completed(files[chunk.file_id]);
        } else {
            assert(files.contains_key(id));
            assert(files[id].wf());
        }
    }
}

/// A report that a chunk has been stored takes no file away and lowers the
/// counter of none.
pub proof fn law_counters_never_fall(files: Map<u128, FileView>, chunks: Map<u128, Chunk>, chunk: Chunk)
    ensures
        forall|id: u128| #[trigger]
            files.contains_key(id) ==> chunk_completed(files, chunks, chunk).0.contains_key(id)
                && files[id].num_of_completed_chunks <= chunk_completed(
                files,
                chunks,
                chunk,
            ).0[id].num_of_completed_chunks,
{
}

/// Creating a node keeps every file record well formed, if the record of a
/// new file is.
pub proof fn law_created_files_counted(files: Map<u128, FileView>, node: Tree)
    requires
        files_wf(files),
        node.file_info matches FileInfoView::File(file) ==> file.wf(),
    ensures
        files_wf(file_recorded(files, node)),
{
    let after = file_recorded(files, node);
    assert forall|id: u128| after.contains_key(id) implies (#[trigger] after[id]).wf() by {
        match node.file_info {
            FileInfoView::File(file) => {
                if id != file.id {
                    assert(files.contains_key(id));
                    assert(files[id].wf());
                }
            },
            FileInfoView::Directory(_) => {
                assert(files[id].wf());
            },
        }
    }
}

/// A chunk record comes into the registry only when its file is recorded,
/// and so every chunk record belongs to a recorded file, before and after a
/// report.
pub proof fn law_chunks_reference_files(
    files: Map<u128, FileView>,
    chunks: Map<u128, Chunk>,
    chunk: Chunk,
)
    requires
        chunks_reference_files(chunks, files),
    ensures
        chunks_reference_files(
            chunk_completed(files, chunks, chunk).1,
            chunk_completed(files, chunks, chunk).0,
        ),
        !files.contains_key(chunk.file_id) ==> chunk_completed(files, chunks, chunk).1 == chunks,
        chunk_completed(files, chunks, chunk).0.dom() == files.dom(),
{
    let after_files = chunk_completed(files, chunks, chunk).0;
    let after_chunks = chunk_completed(files, chunks, chunk).1;
    assert(after_files.dom() =~= files.dom());
    assert forall|id: u128| after_chunks.contains_key(id) implies after_files.contains_key(
        (#[trigger] after_chunks[id]).file_id,
    ) by {
        if chunks.contains_key(id) {
            assert(files.contains_key(chunks[id].file_id));
        }
    }
}

/// Creating a node takes no file away, so every chunk record still belongs
/// to a recorded file.
pub proof fn law_created_keeps_references(
    files: Map<u128, FileView>,
    chunks: Map<u128, Chunk>,
    node: Tree,
)
    requires
        chunks_reference_files(chunks, files),
    ensures
        chunks_reference_files(chunks, file_recorded(files, node)),
{
    assert forall|id: u128| chunks.contains_key(id) implies file_recorded(files, node).contains_key(
        (#[trigger] chunks[id]).file_id,
    ) by {
        assert(files.contains_key(chunks[id].file_id));
    }
}

/// The same report made twice leaves what it leaves when made once: the
/// second one counts nothing.
pub proof fn law_report_idempotent(files: Map<u128, FileView>, chunks: Map<u128, Chunk>, chunk: Chunk)
    ensures
        ({
            let once = chunk_completed(files, chunks, chunk);
            chunk_completed(once.0, once.1, chunk) == once
        }),
{
    let once = chunk_completed(files, chunks, chunk);
    if files.contains_key(chunk.file_id) && !is_recorded(chunks, chunk) {
        assert(is_recorded(once.1, chunk));
    }
}

/// Putting a node among the children of a node whose children bear different
/// names leaves children that bear different names.
pub proof fn law_with_child_unique(parent: Tree, node: Tree)
    requires
        parent.names_unique(),
    ensures
        parent.with_child(node).names_unique(),
        parent.with_child(node).child_index(node.name()) is Some,
{
    lemma_position_from(parent.children, node.name(), 0);
    let after = parent.with_child(node);
    match parent.child_index(node.name()) {
        Some(i) => {
            assert forall|a: int, b: int| 0 <= a < b < after.children.len() implies (
            #[trigger] after.children[a]).name() != (#[trigger] after.children[b]).name() by {
                assert(parent.children[a].name() != parent.children[b].name());
            }
        },
        None => {
            assert forall|a: int, b: int| 0 <= a < b < after.children.len() implies (
            #[trigger] after.children[a]).name() != (#[trigger] after.children[b]).name() by {
                if b < parent.children.len() {
                    assert(parent.children[a].name() != parent.children[b].name());
                } else {
                    assert(parent.children[a].name() != node.name());
                }
            }
        },
    }
    lemma_position_from(after.children, node.name(), 0);
    match parent.child_index(node.name()) {
        Some(i) => {
            assert(after.children[i].name() == node.name());
        },
        None => {
            assert(after.children[after.children.len() - 1].name() == node.name());
        },
    }
}

/// Creating a node keeps the names in every directory of the namespace
/// different from each other, if they are so in what is put in.
pub proof fn law_insert_keeps_names_unique(tree: Tree, names: Seq<Seq<char>>, node: Tree)
    requires
        tree.wf(),
        node.wf(),
    ensures
        tree.insert(names, node) matches Some(grown) ==> grown.wf(),
    decreases names.len(),
{
    if names.len() == 0 {
        law_with_child_unique(tree, node);
        let after = tree.with_child(node);
        lemma_position_from(tree.children, node.name(), 0);
        assert forall|i: int| 0 <= i < after.children.len() implies (
        #[trigger] after.children[i]).wf() by {
            match tree.child_index(node.name()) {
                Some(k) => {
                    if i != k {
                        assert(tree.children[i].wf());
                    }
                },
                None => {
                    if i < tree.children.len() {
                        assert(tree.children[i].wf());
                    }
                },
            }
        }
    } else {
        lemma_position_from(tree.children, names[0], 0);
        match tree.child_index(names[0]) {
            Some(i) => {
                assert(tree.children[i].wf());
                law_insert_keeps_names_unique(tree.children[i], names.drop_first(), node);
                match tree.children[i].insert(names.drop_first(), node) {
                    Some(child) => {
                        lemma_insert_keeps_name(tree.children[i], names.drop_first(), node);
                        let after = Tree { children: tree.children.update(i, child), ..tree };
                        assert forall|a: int, b: int|
                            0 <= a < b < after.children.len() implies (
                        #[trigger] after.children[a]).name() != (
                        #[trigger] after.children[b]).name() by {
                            assert(tree.children[a].name() != tree.children[b].name());
                        }
                        assert forall|k: int| 0 <= k < after.children.len() implies (
                        #[trigger] after.children[k]).wf() by {
                            if k != i {
                                assert(tree.children[k].wf());
                            }
                        }
                    },
                    None => {},
                }
            },
            None => {},
        }
    }
}

/// Creating a node below a node leaves that node what it stands for.
proof fn lemma_insert_keeps_name(tree: Tree, names: Seq<Seq<char>>, node: Tree)
    ensures
        tree.insert(names, node) matches Some(grown) ==> grown.file_info == tree.file_info,
{
}

/// A node that has been created is found at its place: under the directory
/// that it was put in, by its name.
pub proof fn law_insert_then_resolve(tree: Tree, names: Seq<Seq<char>>, node: Tree)
    requires
        tree.wf(),
    ensures
        tree.insert(names, node) matches Some(grown) ==> grown.resolve(names.push(node.name()))
            == Some(node),
        tree.insert(names, node) is Some <==> tree.resolve(names) is Some,
    decreases names.len(),
{
    if names.len() == 0 {
        law_with_child_unique(tree, node);
        let after = tree.with_child(node);
        let path = names.push(node.name());
        assert(path[0] == node.name());
        assert(path.drop_first() =~= Seq::<Seq<char>>::empty());
        lemma_position_from(after.children, node.name(), 0);
        lemma_position_from(tree.children, node.name(), 0);
        let k = after.child_index(node.name())->0;
        match tree.child_index(node.name()) {
            Some(i) => {
                if k != i {
                    assert(after.children[k] == tree.children[k]);
                    assert(tree.children[k].name() != tree.children[i].name());
                }
            },
            None => {
                if k < tree.children.len() {
                    assert(after.children[k] == tree.children[k]);
                }
            },
        }
        assert(after.children[k] == node);
        assert(node.resolve(path.drop_first()) == Some(node));
        assert(after.resolve(path) == after.children[k].resolve(path.drop_first()));
    } else {
        lemma_position_from(tree.children, names[0], 0);
        match tree.child_index(names[0]) {
            Some(i) => {
                assert(tree.children[i].wf());
                law_insert_then_resolve(tree.children[i], names.drop_first(), node);
                match tree.children[i].insert(names.drop_first(), node) {
                    Some(child) => {
                        lemma_insert_keeps_name(tree.children[i], names.drop_first(), node);
                        let after = Tree { children: tree.children.update(i, child), ..tree };
                        let path = names.push(node.name());
                        assert(path[0] == names[0]);
                        assert(path.drop_first() =~= names.drop_first().push(node.name()));
                        lemma_position_from(after.children, names[0], 0);
                        let k = after.child_index(names[0]);
                        assert(after.children[i].name() == names[0]);
                        assert forall|j: int| 0 <= j < i implies (
                        #[trigger] after.children[j]).name() != names[0] by {
                            assert(after.children[j] == tree.children[j]);
                        }
                        assert(k == Some(i));
                        assert(after.resolve(path) == after.children[i].resolve(path.drop_first()));
                    },
                    None => {},
                }
            },
            None => {},
        }
    }
}

/// The parts that a content is cut into, put together again, are the content.
pub proof fn law_split_then_join(content: Seq<u8>, chunk_size: nat)
    requires
        chunk_size > 0,
    ensures
        split(content, chunk_size).flatten() == content,
{
    let parts = split(content, chunk_size);
    let count = chunk_count(content.len(), chunk_size);
    lemma_joined_prefix(content, chunk_size, count);
    assert(parts.take(count as int) =~= parts);
    lemma_chunk_count(content.len(), chunk_size);
    assert(content.subrange(0, content.len() as int) =~= content);
}

/// The first `upto` parts, put together, are the content up to where they end.
proof fn lemma_joined_prefix(content: Seq<u8>, chunk_size: nat, upto: nat)
    requires
        chunk_size > 0,
        upto <= chunk_count(content.len(), chunk_size),
    ensures
        split(content, chunk_size).take(upto as int).flatten() == content.subrange(
            0,
            least((upto * chunk_size) as int, content.len() as int),
        ),
    decreases upto,
{
    let parts = split(content, chunk_size);
    if upto == 0 {
        assert(parts.take(0) =~= Seq::<Seq<u8>>::empty());
        assert(0 * chunk_size == 0) by (nonlinear_arith);
        assert(content.subrange(0, 0) =~= Seq::<u8>::empty());
    } else {
        let before = (upto - 1) as nat;
        lemma_joined_prefix(content, chunk_size, before);
        let done = parts.take(before as int);
        let part = parts[before as int];
        assert(part == part_bytes(content, chunk_size, before as int));
        done.lemma_flatten_push(part);
        assert(done.push(part) =~= parts.take(upto as int));
        assert((before + 1) * chunk_size == before * chunk_size + chunk_size) by (nonlinear_arith);
        assert(before * chunk_size >= 0) by (nonlinear_arith);
        let a = least((before * chunk_size) as int, content.len() as int);
        let b = least((upto * chunk_size) as int, content.len() as int);
        assert(content.subrange(0, a) + content.subrange(a, b) =~= content.subrange(0, b));
    }
}

} // verus!
