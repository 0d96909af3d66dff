//! The client's side: cutting a file into chunks, choosing servers, trying
//! replicas in turn, and planning what a download has to do.

use vstd::prelude::*;

use crate::errors::{Error, ErrorView};
use crate::foreign::{fresh_id, groups_view, id_text, shuffle};
use crate::model::{
    chunk_name_of, Chunk, ChunkServer, File, FileInfo, FileInfoView, FileMetadata, FileStatus, FileView, Tree,
    CHUNK_SIZE,
};
use crate::namespace::texts;
use crate::replicas::{is_replica_grouping, replica_groups};
use crate::urls::{chunk_download_url, chunk_upload_url, join3, server_url};

verus! {

/// The number of chunks that `size` bytes are cut into when a chunk holds
/// `chunk_size` bytes: as many as are needed to hold them, and one for no
/// bytes at all.
pub open spec fn chunk_count(size: nat, chunk_size: nat) -> nat {
    if size == 0 {
        1
    } else {
        ((size + chunk_size - 1) / (chunk_size as int)) as nat
    }
}

/// The smaller of two numbers.
pub open spec fn least(a: int, b: int) -> int {
    if a <= b {
        a
    } else {
        b
    }
}

/// The bytes of part `part` of `content`.
pub open spec fn part_bytes(content: Seq<u8>, chunk_size: nat, part: int) -> Seq<u8> {
    content.subrange(
        least(part * chunk_size, content.len() as int),
        least((part + 1) * chunk_size, content.len() as int),
    )
}

/// The parts that `content` is cut into, in order.
pub open spec fn split(content: Seq<u8>, chunk_size: nat) -> Seq<Seq<u8>> {
    Seq::new(
        chunk_count(content.len(), chunk_size),
        |part: int| part_bytes(content, chunk_size, part),
    )
}

/// The byte sequences held by a list of vectors.
pub open spec fn bytes_of(parts: Seq<Vec<u8>>) -> Seq<Seq<u8>> {
    parts.map_values(|part: Vec<u8>| part@)
}

/// The byte sequences held by a list of chunks that carry their identifiers.
pub open spec fn chunk_bytes(chunks: Seq<(u128, Vec<u8>)>) -> Seq<Seq<u8>> {
    chunks.map_values(|chunk: (u128, Vec<u8>)| chunk.1@)
}

/// The identifiers of a list of chunks that carry them.
pub open spec fn chunk_ids(chunks: Seq<(u128, Vec<u8>)>) -> Seq<u128> {
    chunks.map_values(|chunk: (u128, Vec<u8>)| chunk.0)
}

/// How the number of chunks bounds the size: all chunks but the last are
/// full, and all chunks together hold the size.
pub proof fn lemma_chunk_count(size: nat, chunk_size: nat)
    requires
        chunk_size > 0,
    ensures
        chunk_count(size, chunk_size) >= 1,
        (chunk_count(size, chunk_size) - 1) * chunk_size <= size,
        size <= chunk_count(size, chunk_size) * chunk_size,
        size > 0 ==> (chunk_count(size, chunk_size) - 1) * chunk_size < size,
{
    if size > 0 {
        let n = (size + chunk_size - 1) / (chunk_size as int);
        vstd::arithmetic::div_mod::lemma_fundamental_div_mod(
            size + chunk_size - 1,
            chunk_size as int,
        );
        vstd::arithmetic::div_mod::lemma_mod_bound(size + chunk_size - 1, chunk_size as int);
        assert(size + chunk_size - 1 == chunk_size * n + (size + chunk_size - 1) % (
        chunk_size as int));
        assert(chunk_size * n == n * chunk_size) by (nonlinear_arith);
        assert((n - 1) * chunk_size == n * chunk_size - chunk_size) by (nonlinear_arith);
        assert(n >= 1) by (nonlinear_arith)
            requires
                n * chunk_size >= size,
                size > 0,
                chunk_size > 0,
        ;
    } else {
        assert((1 - 1) * chunk_size == 0) by (nonlinear_arith);
        assert(1 * chunk_size >= 0) by (nonlinear_arith);
    }
}

/// Cuts `content` into parts of `chunk_size` bytes; the last part holds what is left.
pub fn split_chunks(content: &Vec<u8>, chunk_size: usize) -> (parts: Vec<Vec<u8>>)
    requires
        chunk_size > 0,
    ensures
        bytes_of(parts@) == split(content@, chunk_size as nat),
        parts@.len() == chunk_count(content@.len(), chunk_size as nat),
{
    let len = content.len();
    let mut parts: Vec<Vec<u8>> = Vec::new();
    let mut start: usize = 0;
    let ghost count = chunk_count(len as nat, chunk_size as nat);
    proof {
        lemma_chunk_count(len as nat, chunk_size as nat);
        assert(0 * chunk_size == 0) by (nonlinear_arith);
    }
    loop
        invariant_except_break
            start <= len,
            parts.len() < count,
            start == parts.len() * chunk_size,
        invariant
            len == content.len(),
            chunk_size > 0,
            count == chunk_count(len as nat, chunk_size as nat),
            (count - 1) * chunk_size <= len,
            len <= count * chunk_size,
            len > 0 ==> (count - 1) * chunk_size < len,
            parts.len() <= count,
            forall|k: int|
                0 <= k < parts.len() ==> (#[trigger] parts@[k])@ == part_bytes(
                    content@,
                    chunk_size as nat,
                    k,
                ),
        ensures
            parts.len() == count,
        decreases len - start,
    {
        let ghost made = parts.len() as int;
        let end = if len - start > chunk_size {
            start + chunk_size
        } else {
            len
        };
        proof {
            assert((made + 1) * chunk_size == made * chunk_size + chunk_size) by (nonlinear_arith);
        }
        let mut part: Vec<u8> = Vec::new();
        let mut at: usize = start;
        while at < end
            invariant
                start <= at <= end <= len,
                len == content.len(),
                part@ == content@.subrange(start as int, at as int),
            decreases end - at,
        {
            part.push(content[at]);
            assert(part@ =~= content@.subrange(start as int, at + 1));
            at = at + 1;
        }
        assert(part@ == part_bytes(content@, chunk_size as nat, made));
        parts.push(part);
        if end == len {
            proof {
                if parts.len() < count {
                    assert((count - 1) * chunk_size >= parts.len() * chunk_size) by (nonlinear_arith)
                        requires
                            parts.len() <= count - 1,
                            chunk_size > 0,
                    ;
                }
            }
            break ;
        }
        proof {
            if parts.len() >= count {
                assert(parts.len() * chunk_size >= count * chunk_size) by (nonlinear_arith)
                    requires
                        parts.len() >= count,
                        chunk_size > 0,
                ;
            }
        }
        start = end;
    }
    assert(bytes_of(parts@) =~= split(content@, chunk_size as nat));
    parts
}

/// A set that holds every number below `n` holds at least `n` numbers.
proof fn lemma_holds_all_below(taken: Set<u128>, n: nat)
    requires
        taken.finite(),
        forall|v: u128| v < n ==> taken.contains(v),
        n <= u128::MAX,
    ensures
        n <= taken.len(),
    decreases n,
{
    if n > 0 {
        let top = (n - 1) as u128;
        assert(taken.contains(top));
        vstd::set::axiom_set_remove_len(taken, top);
        vstd::set::axiom_set_remove_finite(taken, top);
        assert forall|v: u128| v < n - 1 implies taken.remove(top).contains(v) by {
            assert(taken.contains(v));
        }
        lemma_holds_all_below(taken.remove(top), (n - 1) as nat);
    }
}

/// Tells whether `id` is among the identifiers in `taken`.
fn is_taken(taken: &Vec<u128>, id: u128) -> (found: bool)
    ensures
        found == taken@.contains(id),
{
    let mut i: usize = 0;
    while i < taken.len()
        invariant
            i <= taken.len(),
            forall|k: int| 0 <= k < i ==> taken@[k] != id,
        decreases taken.len() - i,
    {
        if taken[i] == id {
            return true;
        }
        i = i + 1;
    }
    false
}

/// The identifier that is taken when `drawn` has been drawn: `drawn` itself
/// if it is free, else the smallest number that is.
pub open spec fn is_distinct_from(taken: Seq<u128>, drawn: u128, id: u128) -> bool {
    &&& !taken.contains(id)
    &&& !taken.contains(drawn) ==> id == drawn
    &&& taken.contains(drawn) ==> forall|v: u128| v < id ==> taken.contains(v)
}

/// Gives an identifier that is not among those in `taken`: `drawn` or,
/// should that one be taken, the smallest number that is free.
pub fn distinct_from(taken: &Vec<u128>, drawn: u128) -> (id: u128)
    ensures
        is_distinct_from(taken@, drawn, id),
{
    if !is_taken(taken, drawn) {
        return drawn;
    }
    let mut probe: u128 = 0;
    let count = taken.len();
    proof {
        vstd::seq_lib::seq_to_set_is_finite(taken@);
        taken@.lemma_cardinality_of_set();
        lemma_holds_all_below(taken@.to_set(), 0);
    }
    while is_taken(taken, probe)
        invariant
            probe <= taken@.len() == count,
            taken@.to_set().finite(),
            taken@.to_set().len() <= taken@.len(),
            forall|v: u128| v < probe ==> taken@.contains(v),
        decreases taken@.len() - probe,
    {
        proof {
            assert forall|v: u128| v < probe + 1 implies taken@.to_set().contains(v) by {
                assert(taken@.contains(v));
            }
            lemma_holds_all_below(taken@.to_set(), (probe + 1) as nat);
        }
        probe = probe + 1;
    }
    probe
}

/// Gives an identifier that is not among those in `taken`: one drawn at
/// random or, should that one be taken, the smallest number that is free.
pub fn distinct_id(taken: &Vec<u128>) -> (id: u128)
    ensures
        !taken@.contains(id),
{
    distinct_from(taken, fresh_id())
}

/// Cuts the content of a file into chunks of `CHUNK_SIZE` bytes and gives
/// each an identifier of its own, drawn at random.
pub fn prepare_chunks(content: &Vec<u8>) -> (chunks: Vec<(u128, Vec<u8>)>)
    ensures
        chunk_bytes(chunks@) == split(content@, CHUNK_SIZE as nat),
        chunks@.len() == chunk_count(content@.len(), CHUNK_SIZE as nat),
        chunk_ids(chunks@).no_duplicates(),
{
    let mut parts = split_chunks(content, CHUNK_SIZE as usize);
    let ghost cut = bytes_of(parts@);
    let mut chunks: Vec<(u128, Vec<u8>)> = Vec::new();
    let mut ids: Vec<u128> = Vec::new();
    let total = parts.len();
    let mut i: usize = 0;
    while i < total
        invariant
            i <= total,
            parts.len() == total,
            chunks.len() == i,
            cut.len() == total,
            ids@ == chunk_ids(chunks@),
            ids@.no_duplicates(),
            forall|k: int| i <= k < total ==> (#[trigger] parts@[k])@ == cut[k],
            forall|k: int| 0 <= k < i ==> (#[trigger] chunks@[k]).1@ == cut[k],
        decreases total - i,
    {
        let mut part: Vec<u8> = Vec::new();
        std::mem::swap(&mut part, &mut parts[i]);
        let id = distinct_id(&ids);
        let ghost before = ids@;
        ids.push(id);
        chunks.push((id, part));
        proof {
            assert(ids@ =~= chunk_ids(chunks@));
            assert forall|a: int, b: int| 0 <= a < ids@.len() && 0 <= b < ids@.len() && a
                != b implies ids@[a] != ids@[b] by {
                if a < before.len() && b < before.len() {
                    assert(before[a] != before[b]);
                } else if a < before.len() {
                    assert(before.contains(before[a]));
                } else {
                    assert(before.contains(before[b]));
                }
            }
        }
        i = i + 1;
    }
    assert(chunk_bytes(chunks@) =~= cut);
    chunks
}

/// Puts the parts of a file together again, in order.
pub fn join_parts(parts: &Vec<Vec<u8>>) -> (content: Vec<u8>)
    ensures
        content@ == bytes_of(parts@).flatten(),
{
    let mut content: Vec<u8> = Vec::new();
    let mut i: usize = 0;
    assert(bytes_of(parts@).take(0) =~= Seq::<Seq<u8>>::empty());
    while i < parts.len()
        invariant
            i <= parts.len(),
            content@ == bytes_of(parts@).take(i as int).flatten(),
        decreases parts.len() - i,
    {
        let part = &parts[i];
        let ghost before = content@;
        let mut at: usize = 0;
        while at < part.len()
            invariant
                at <= part.len(),
                content@ == before + part@.take(at as int),
            decreases part.len() - at,
        {
            content.push(part[at]);
            assert(content@ =~= before + part@.take(at + 1));
            at = at + 1;
        }
        proof {
            assert(part@.take(at as int) =~= part@);
            let done = bytes_of(parts@).take(i as int);
            done.lemma_flatten_push(part@);
            assert(done.push(part@) =~= bytes_of(parts@).take(i + 1));
        }
        i = i + 1;
    }
    assert(bytes_of(parts@).take(i as int) =~= bytes_of(parts@));
    content
}


/// A local item made ready for the coordinator: the node that describes it
/// and, for a file, its chunks with their identifiers.
#[derive(Debug, PartialEq, Eq)]
pub struct PreparedItem {
    pub node: FileMetadata,
    pub chunks: Vec<(u128, Vec<u8>)>,
}

/// The node that describes a local item of the given name: a directory where
/// `content` is `None`, else a file of that content whose chunks carry `ids`.
pub open spec fn item_node(name: Seq<char>, content: Option<Seq<u8>>, ids: Seq<u128>, id: u128) -> Tree {
    match content {
        None => Tree { file_info: FileInfoView::Directory(name), children: Seq::empty() },
        Some(bytes) => Tree {
            file_info: FileInfoView::File(
                FileView {
                    id,
                    name,
                    size: bytes.len() as u64,
                    chunks: ids,
                    num_of_completed_chunks: 0,
                    status: FileStatus::Started,
                },
            ),
            children: Seq::empty(),
        },
    }
}

/// The identifier of the file that a node stands for; for a directory, 0.
pub open spec fn file_id_of(node: Tree) -> u128 {
    match node.file_info {
        FileInfoView::File(file) => file.id,
        FileInfoView::Directory(_) => 0,
    }
}

/// Makes a local item ready for upload. `content` is `None` for a directory
/// and holds the bytes of a file. A file is cut into chunks, and its node
/// names the chunks in order.
pub fn upload_item(file_name: String, content: Option<&Vec<u8>>) -> (item: PreparedItem)
    ensures
        match content {
            None => item.chunks@.len() == 0 && item.node@ == item_node(
                file_name@,
                None,
                Seq::empty(),
                0,
            ),
            Some(bytes) => chunk_bytes(item.chunks@) == split(bytes@, CHUNK_SIZE as nat)
                && item.chunks@.len() == chunk_count(bytes@.len(), CHUNK_SIZE as nat)
                && chunk_ids(item.chunks@).no_duplicates()
                && item.node@ == item_node(
                file_name@,
                Some(bytes@),
                chunk_ids(item.chunks@),
                file_id_of(item.node@),
            ),
        },
{
    match content {
        None => PreparedItem { node: FileMetadata::create_dir(file_name), chunks: Vec::new() },
        Some(bytes) => {
            let chunks = prepare_chunks(bytes);
            let mut ids: Vec<u128> = Vec::new();
            let mut i: usize = 0;
            while i < chunks.len()
                invariant
                    i <= chunks.len(),
                    ids@ == chunk_ids(chunks@).take(i as int),
                decreases chunks.len() - i,
            {
                ids.push(chunks[i].0);
                assert(ids@ =~= chunk_ids(chunks@).take(i + 1));
                i = i + 1;
            }
            assert(ids@ =~= chunk_ids(chunks@));
            let node = FileMetadata::create_file(file_name, bytes.len() as u64, ids);
            PreparedItem { node, chunks }
        },
    }
}

/// Tells what became of the upload of a file from what became of its chunks:
/// it succeeds if every chunk was accepted, and fails as a whole otherwise.
pub fn upload_file(outcomes: &Vec<Result<(), Error>>) -> (done: Result<(), Error>)
    ensures
        match done {
            Ok(()) => forall|i: int| 0 <= i < outcomes.len() ==> (#[trigger] outcomes@[i]) is Ok,
            Err(e) => e@ == ErrorView::UploadChunks && exists|i: int|
                0 <= i < outcomes.len() && (#[trigger] outcomes@[i]) is Err,
        },
{
    let mut i: usize = 0;
    while i < outcomes.len()
        invariant
            i <= outcomes.len(),
            forall|k: int| 0 <= k < i ==> (#[trigger] outcomes@[k]) is Ok,
        decreases outcomes.len() - i,
    {
        if outcomes[i].is_err() {
            return Err(Error::UploadChunks);
        }
        i = i + 1;
    }
    Ok(())
}

/// Whether `shuffled` holds the records of `servers`, each once, in some order.
pub open spec fn is_shuffle_of(shuffled: Seq<ChunkServer>, servers: Seq<ChunkServer>) -> bool {
    exists|order: Seq<usize>| is_shuffle_by(shuffled, servers, order)
}

/// Whether `order` names each position of `servers` once and `shuffled`
/// holds the records at those positions.
pub open spec fn is_shuffle_by(
    shuffled: Seq<ChunkServer>,
    servers: Seq<ChunkServer>,
    order: Seq<usize>,
) -> bool {
    &&& order.len() == servers.len()
    &&& shuffled.len() == servers.len()
    &&& order.no_duplicates()
    &&& forall|i: int|
        0 <= i < order.len() ==> 0 <= #[trigger] order[i] < servers.len() && shuffled[i]@
            == servers[order[i] as int]@
}

/// The positions of a list of `n` items, in order.
spec fn positions(n: nat) -> Seq<usize> {
    Seq::new(n, |i: int| i as usize)
}

proof fn lemma_shuffled_positions(order: Seq<usize>, n: nat)
    requires
        n <= usize::MAX,
        order.to_multiset() == positions(n).to_multiset(),
    ensures
        order.len() == n,
        order.no_duplicates(),
        forall|i: int| 0 <= i < order.len() ==> 0 <= #[trigger] order[i] < n,
{
    let ident = positions(n);
    vstd::seq_lib::to_multiset_len(order);
    vstd::seq_lib::to_multiset_len(ident);
    assert(ident.no_duplicates());
    ident.lemma_multiset_has_no_duplicates();
    order.lemma_multiset_has_no_duplicates_conv();
    assert forall|i: int| 0 <= i < order.len() implies 0 <= #[trigger] order[i] < n by {
        assert(order.contains(order[i]));
        vstd::seq_lib::to_multiset_contains(order, order[i]);
        vstd::seq_lib::to_multiset_contains(ident, order[i]);
        let j = choose|j: int| 0 <= j < ident.len() && ident[j] == order[i];
        assert(ident[j] == j as usize);
    }
}

/// Gives the servers in the order that `order` names: first the server at
/// position `order[0]`, and so on.
pub fn arrange(servers: &Vec<ChunkServer>, order: &Vec<usize>) -> (arranged: Vec<ChunkServer>)
    requires
        forall|i: int| 0 <= i < order.len() ==> 0 <= #[trigger] order@[i] < servers.len(),
    ensures
        arranged@.len() == order@.len(),
        forall|i: int|
            0 <= i < order.len() ==> (#[trigger] arranged@[i])@ == servers@[order@[i] as int]@,
{
    let mut arranged: Vec<ChunkServer> = Vec::new();
    let mut k: usize = 0;
    while k < order.len()
        invariant
            k <= order.len(),
            arranged.len() == k,
            forall|i: int| 0 <= i < order.len() ==> 0 <= #[trigger] order@[i] < servers.len(),
            forall|i: int| 0 <= i < k ==> (#[trigger] arranged@[i])@ == servers@[order@[i] as int]@,
        decreases order.len() - k,
    {
        arranged.push(servers[order[k]].clone());
        k = k + 1;
    }
    arranged
}

/// Gives the servers in a random order, the order in which they are to be
/// tried for one chunk.
pub fn shuffled(servers: &Vec<ChunkServer>) -> (order: Vec<ChunkServer>)
    ensures
        is_shuffle_of(order@, servers@),
{
    let n = servers.len();
    let mut picks: Vec<usize> = Vec::new();
    let mut i: usize = 0;
    while i < n
        invariant
            i <= n,
            picks@ == positions(i as nat),
        decreases n - i,
    {
        picks.push(i);
        assert(picks@ =~= positions((i + 1) as nat));
        i = i + 1;
    }
    shuffle(&mut picks);
    proof {
        lemma_shuffled_positions(picks@, n as nat);
    }
    let order = arrange(servers, &picks);
    assert(is_shuffle_by(order@, servers@, picks@));
    order
}

/// What is to be done next for a chunk that is being uploaded.
#[derive(Debug, PartialEq, Eq)]
pub enum UploadAction {
    /// Send the chunk to this address.
    Post { url: String },
    /// A server has accepted the chunk.
    Done,
    /// Every server has been tried in vain.
    Fail(Error),
}

/// What an [`UploadAction`] says.
pub enum UploadActionView {
    Post { url: Seq<char> },
    Done,
    Fail(ErrorView),
}

impl View for UploadAction {
    type V = UploadActionView;

    open spec fn view(&self) -> UploadActionView {
        match *self {
            UploadAction::Post { url } => UploadActionView::Post { url: url@ },
            UploadAction::Done => UploadActionView::Done,
            UploadAction::Fail(e) => UploadActionView::Fail(e@),
        }
    }
}

/// The upload of one chunk: the servers in the order in which they are
/// tried, how many of them have refused, and whether one has accepted.
#[derive(Debug, PartialEq, Eq)]
pub struct ChunkUpload {
    pub part: usize,
    pub chunk_id: u128,
    pub servers: Vec<ChunkServer>,
    pub refused: usize,
    pub accepted: bool,
}

impl ChunkUpload {
    /// Whether a server is still to be tried: none has accepted, and not all have refused.
    pub open spec fn is_posting(&self) -> bool {
        !self.accepted && self.refused < self.servers@.len()
    }

    /// What is to be done next: nothing more once a server has accepted, else
    /// the next server in order, and failure when none is left.
    pub open spec fn action(&self) -> UploadActionView {
        if self.accepted {
            UploadActionView::Done
        } else if self.refused < self.servers@.len() {
            UploadActionView::Post {
                url: self.servers@[self.refused as int].address@ + "/api/upload"@,
            }
        } else {
            UploadActionView::Fail(
                ErrorView::UploadSingleChunk { part: self.part, chunk_id: self.chunk_id },
            )
        }
    }

    /// Tells what is to be done next.
    pub fn next(&self) -> (action: UploadAction)
        ensures
            action@ == self.action(),
    {
        if self.accepted {
            UploadAction::Done
        } else if self.refused < self.servers.len() {
            UploadAction::Post { url: chunk_upload_url(self.servers[self.refused].address.as_str()) }
        } else {
            UploadAction::Fail(
                Error::UploadSingleChunk { part: self.part, chunk_id: self.chunk_id },
            )
        }
    }

    /// Takes note of how the attempt that `next` asked for has ended: with
    /// a response of success, or with any other response or none at all.
    pub fn record(&mut self, success: bool)
        ensures
            final(self).part == old(self).part,
            final(self).chunk_id == old(self).chunk_id,
            final(self).servers == old(self).servers,
            old(self).is_posting() ==> final(self).accepted == success && final(self).refused
                == old(self).refused + if success {
                0int
            } else {
                1int
            },
            !old(self).is_posting() ==> *final(self) == *old(self),
    {
        if !self.accepted && self.refused < self.servers.len() {
            if success {
                self.accepted = true;
            } else {
                self.refused = self.refused + 1;
            }
        }
    }
}

/// Starts the upload of the chunk `chunk_id`, part `part` of its file: the
/// servers are put in a random order, and none has been tried yet.
pub fn upload_chunk(servers: &Vec<ChunkServer>, part: usize, chunk_id: u128) -> (upload: ChunkUpload)
    ensures
        upload.part == part,
        upload.chunk_id == chunk_id,
        upload.refused == 0,
        !upload.accepted,
        is_shuffle_of(upload.servers@, servers@),
{
    ChunkUpload { part, chunk_id, servers: shuffled(servers), refused: 0, accepted: false }
}


/// The path of the entry `name` in the directory `dir`.
pub open spec fn joined(dir: Seq<char>, name: Seq<char>) -> Seq<char> {
    dir + "/"@ + name
}

/// Gives the path of the entry `name` in the directory `dir`.
pub fn join_path(dir: &str, name: &str) -> (path: String)
    ensures
        path@ == joined(dir@, name@),
{
    join3(dir, "/", name)
}

/// One step of a download.
#[derive(Debug, PartialEq, Eq)]
pub enum DownloadStep {
    /// Make the local directory `path`.
    CreateDir { path: String },
    /// Fetch the chunks of `file` and write them to a file of its name in `dir`.
    FetchFile { file: File, dir: String },
}

/// What a [`DownloadStep`] says.
pub enum DownloadStepView {
    CreateDir { path: Seq<char> },
    FetchFile { file: FileView, dir: Seq<char> },
}

impl View for DownloadStep {
    type V = DownloadStepView;

    open spec fn view(&self) -> DownloadStepView {
        match *self {
            DownloadStep::CreateDir { path } => DownloadStepView::CreateDir { path: path@ },
            DownloadStep::FetchFile { file, dir } => DownloadStepView::FetchFile {
                file: file@,
                dir: dir@,
            },
        }
    }
}

/// What a list of steps says.
pub open spec fn step_views(steps: Seq<DownloadStep>) -> Seq<DownloadStepView> {
    steps.map_values(|step: DownloadStep| step@)
}

/// The steps that bring the first `upto` children of `node` into the local directory `dir`.
pub open spec fn children_plan(node: Tree, upto: nat, dir: Seq<char>) -> Seq<DownloadStepView>
    decreases node, upto,
{
    if upto == 0 || upto > node.children.len() {
        Seq::empty()
    } else {
        children_plan(node, (upto - 1) as nat, dir) + download_plan(node.children[upto - 1], dir)
    }
}

/// The steps that bring `node` and all below it into the local directory
/// `dir`. A directory is made before anything is put into it, and its
/// children follow in their order; a file is fetched into `dir`.
pub open spec fn download_plan(node: Tree, dir: Seq<char>) -> Seq<DownloadStepView>
    decreases node, node.children.len() + 1,
{
    match node.file_info {
        FileInfoView::Directory(name) => seq![
            DownloadStepView::CreateDir { path: joined(dir, name) },
        ] + children_plan(node, node.children.len(), joined(dir, name)),
        FileInfoView::File(file) => seq![DownloadStepView::FetchFile { file, dir }],
    }
}

/// Adds to `steps` the steps that bring `node` and all below it into `dir`.
fn plan_into(node: &FileMetadata, dir: &str, steps: &mut Vec<DownloadStep>)
    ensures
        step_views(final(steps)@) == step_views(old(steps)@) + download_plan(node@, dir@),
    decreases node,
{
    let ghost before = step_views(steps@);
    proof {
        node.lemma_children();
    }
    match &node.file_info {
        FileInfo::File(file) => {
            steps.push(DownloadStep::FetchFile { file: file.clone(), dir: String::from_str(dir) });
            assert(step_views(steps@) =~= before + download_plan(node@, dir@));
        },
        FileInfo::Directory(name) => {
            let path = join_path(dir, name.as_str());
            steps.push(DownloadStep::CreateDir { path: path.clone() });
            assert(step_views(steps@) =~= before + seq![
                DownloadStepView::CreateDir { path: path@ },
            ]);
            let mut i: usize = 0;
            while i < node.children.len()
                invariant
                    i <= node.children.len(),
                    node@.children.len() == node.children@.len(),
                    forall|k: int|
                        0 <= k < node.children@.len() ==> (#[trigger] node@.children[k])
                            == node.children@[k]@,
                    step_views(steps@) == before + seq![
                        DownloadStepView::CreateDir { path: path@ },
                    ] + children_plan(node@, i as nat, path@),
                decreases node.children.len() - i,
            {
                plan_into(&node.children[i], path.as_str(), steps);
                assert(step_views(steps@) =~= before + seq![
                    DownloadStepView::CreateDir { path: path@ },
                ] + children_plan(node@, (i + 1) as nat, path@));
                i = i + 1;
            }
        },
    }
}

/// Plans the download of `node` and all below it into the local directory
/// `target`: which directories to make and which files to fetch, in order.
pub fn download(node: &FileMetadata, target: &str) -> (steps: Vec<DownloadStep>)
    ensures
        step_views(steps@) == download_plan(node@, target@),
{
    let mut steps: Vec<DownloadStep> = Vec::new();
    assert(step_views(steps@) =~= Seq::empty());
    plan_into(node, target, &mut steps);
    assert(Seq::<DownloadStepView>::empty() + download_plan(node@, target@) =~= download_plan(
        node@,
        target@,
    ));
    steps
}

/// How one file is fetched: where it is written, and the replica sets of
/// its parts in the order in which the parts are written.
#[derive(Debug, PartialEq, Eq)]
pub struct FilePlan {
    pub target: String,
    pub groups: Vec<Vec<Chunk>>,
}

/// Plans the download of `file` into the local directory `target_dir` from
/// the chunk records that the coordinator lists for it.
pub fn download_file(file: &File, chunks: Vec<Chunk>, target_dir: &str) -> (plan: FilePlan)
    ensures
        plan.target@ == joined(target_dir@, file@.name),
        is_replica_grouping(chunks@, groups_view(plan.groups@)),
{
    FilePlan { target: join_path(target_dir, file.name.as_str()), groups: replica_groups(chunks) }
}

/// The first error among the outcomes, if there is one.
pub open spec fn first_error<T>(outcomes: Seq<Result<T, Error>>) -> Option<Error>
    decreases outcomes.len(),
{
    if outcomes.len() == 0 {
        None
    } else {
        match outcomes[0] {
            Err(e) => Some(e),
            Ok(_) => first_error(outcomes.drop_first()),
        }
    }
}

/// Waits, as it were, for all parts: gives what every part brought if all of
/// them succeeded, in order, and the first error otherwise.
pub fn collect_parts<T>(outcomes: Vec<Result<T, Error>>) -> (collected: Result<Vec<T>, Error>)
    ensures
        match first_error(outcomes@) {
            Some(e) => collected == Err::<Vec<T>, Error>(e),
            None => collected matches Ok(parts) && parts@.len() == outcomes@.len() && forall|
                i: int,
            |
                0 <= i < parts@.len() ==> outcomes@[i] == Ok::<T, Error>(#[trigger] parts@[i]),
        },
{
    let ghost all = outcomes@;
    let mut parts: Vec<T> = Vec::new();
    assert(all.skip(0) =~= all);
    for outcome in it: outcomes
        invariant
            it.seq() == all,
            parts@.len() == it.index(),
            forall|k: int| 0 <= k < it.index() ==> all[k] == Ok::<T, Error>(#[trigger] parts@[k]),
            first_error(all) == first_error(all.skip(it.index())),
    {
        let ghost rest = all.skip(it.index());
        assert(rest[0] == all[it.index()]);
        assert(rest.drop_first() =~= all.skip(it.index() + 1));
        match outcome {
            Ok(part) => {
                parts.push(part);
            },
            Err(e) => {
                return Err(e);
            },
        }
    }
    assert(all.skip(all.len() as int).len() == 0);
    Ok(parts)
}


/// What is to be done next for a chunk that is being downloaded.
#[derive(Debug, PartialEq, Eq)]
pub enum DownloadAction {
    /// Ask the coordinator at this address for the server of the replica.
    Resolve { url: String },
    /// Ask the server at this address for the chunk.
    Fetch { url: String },
    /// A replica has been fetched.
    Done,
    /// Every replica has been tried in vain.
    Fail(Error),
}

/// What a [`DownloadAction`] says.
pub enum DownloadActionView {
    Resolve { url: Seq<char> },
    Fetch { url: Seq<char> },
    Done,
    Fail(ErrorView),
}

impl View for DownloadAction {
    type V = DownloadActionView;

    open spec fn view(&self) -> DownloadActionView {
        match *self {
            DownloadAction::Resolve { url } => DownloadActionView::Resolve { url: url@ },
            DownloadAction::Fetch { url } => DownloadActionView::Fetch { url: url@ },
            DownloadAction::Done => DownloadActionView::Done,
            DownloadAction::Fail(e) => DownloadActionView::Fail(e@),
        }
    }
}

/// The download of one part of a file: its replicas in the order in which
/// they are tried, how many of them have failed, the address of the server
/// of the replica that is being tried, once the coordinator has given it, and
/// whether a replica has been fetched. `chunk_name` is the name of the first
/// replica, by which a failure is reported.
#[derive(Debug, PartialEq, Eq)]
pub struct ChunkDownload {
    pub chunk_name: String,
    pub replicas: Vec<Chunk>,
    pub failed: usize,
    pub address: Option<String>,
    pub fetched: bool,
}

impl ChunkDownload {
    /// Whether a replica is still to be tried: none has been fetched, and not all have failed.
    pub open spec fn is_trying(&self) -> bool {
        !self.fetched && self.failed < self.replicas@.len()
    }

    /// Whether the server of the replica that is being tried is still to be looked up.
    pub open spec fn is_resolving(&self) -> bool {
        self.is_trying() && self.address is None
    }

    /// Whether the replica that is being tried is to be asked of its server.
    pub open spec fn is_fetching(&self) -> bool {
        self.is_trying() && self.address is Some
    }

    /// What is to be done next: nothing more once a replica has been fetched;
    /// failure when no replica is left; else, for the next replica in order,
    /// first the lookup of its server and then the request for the chunk.
    pub open spec fn action(&self, meta_url: Seq<char>) -> DownloadActionView {
        if self.fetched {
            DownloadActionView::Done
        } else if self.failed >= self.replicas@.len() {
            DownloadActionView::Fail(ErrorView::ChunkNotAvailable { chunk_name: self.chunk_name@ })
        } else {
            match self.address {
                None => DownloadActionView::Resolve {
                    url: meta_url + "/api/servers/"@ + id_text(
                        self.replicas@[self.failed as int].server_id,
                    ),
                },
                Some(address) => DownloadActionView::Fetch {
                    url: address@ + "/api/download/"@ + chunk_name_of(
                        self.replicas@[self.failed as int],
                    ),
                },
            }
        }
    }

    /// Tells what is to be done next. `meta_url` is the address of the coordinator.
    pub fn next(&self, meta_url: &str) -> (action: DownloadAction)
        ensures
            action@ == self.action(meta_url@),
    {
        if self.fetched {
            DownloadAction::Done
        } else if self.failed >= self.replicas.len() {
            DownloadAction::Fail(Error::ChunkNotAvailable { chunk_name: self.chunk_name.clone() })
        } else {
            let replica = &self.replicas[self.failed];
            match &self.address {
                None => DownloadAction::Resolve { url: server_url(meta_url, replica.server_id) },
                Some(address) => DownloadAction::Fetch {
                    url: chunk_download_url(address.as_str(), replica.chunk_name().as_str()),
                },
            }
        }
    }

    /// Takes note of what the coordinator answered to the lookup that `next`
    /// asked for: the record of the server, or nothing where the lookup
    /// failed. Without a server the next replica is tried.
    pub fn resolved(&mut self, server: Option<ChunkServer>)
        ensures
            final(self).chunk_name == old(self).chunk_name,
            final(self).replicas == old(self).replicas,
            final(self).fetched == old(self).fetched,
            old(self).is_resolving() ==> match server {
                Some(found) => {
                    &&& final(self).failed == old(self).failed
                    &&& final(self).address matches Some(address)
                    &&& address@ == found.address@
                },
                None => final(self).failed == old(self).failed + 1 && final(self).address is None,
            },
            !old(self).is_resolving() ==> *final(self) == *old(self),
    {
        if !self.fetched && self.failed < self.replicas.len() && self.address.is_none() {
            match server {
                Some(found) => {
                    self.address = Some(found.address);
                },
                None => {
                    self.failed = self.failed + 1;
                },
            }
        }
    }

    /// Takes note of how the request for the chunk that `next` asked for has
    /// ended. After a failure the next replica is tried.
    pub fn fetched(&mut self, success: bool)
        ensures
            final(self).chunk_name == old(self).chunk_name,
            final(self).replicas == old(self).replicas,
            old(self).is_fetching() ==> if success {
                final(self).fetched && final(self).failed == old(self).failed && final(self).address
                    == old(self).address
            } else {
                &&& !final(self).fetched
                &&& final(self).failed == old(self).failed + 1
                &&& final(self).address is None
            },
            !old(self).is_fetching() ==> *final(self) == *old(self),
    {
        if !self.fetched && self.failed < self.replicas.len() && self.address.is_some() {
            if success {
                self.fetched = true;
            } else {
                self.failed = self.failed + 1;
                self.address = None;
            }
        }
    }
}

/// Starts the download of one part of a file from its replicas, which are
/// tried in the order given. There is at least one replica.
pub fn download_chunk(chunks: Vec<Chunk>) -> (download: ChunkDownload)
    requires
        chunks.len() > 0,
    ensures
        download.chunk_name@ == chunk_name_of(chunks@[0]),
        download.replicas == chunks,
        download.failed == 0,
        download.address is None,
        !download.fetched,
{
    ChunkDownload {
        chunk_name: chunks[0].chunk_name(),
        replicas: chunks,
        failed: 0,
        address: None,
        fetched: false,
    }
}

/// A local item that is to be uploaded: where it lies, and its path in the namespace.
#[derive(Debug, PartialEq, Eq)]
pub struct UploadItem {
    pub local: String,
    pub remote: String,
}

/// What an [`UploadItem`] says.
pub struct UploadItemView {
    pub local: Seq<char>,
    pub remote: Seq<char>,
}

impl View for UploadItem {
    type V = UploadItemView;

    open spec fn view(&self) -> UploadItemView {
        UploadItemView { local: self.local@, remote: self.remote@ }
    }
}

/// What a list of items says.
pub open spec fn item_views(items: Seq<UploadItem>) -> Seq<UploadItemView> {
    items.map_values(|item: UploadItem| item@)
}

/// The entries of the directory `dir` that bear the given names.
pub open spec fn entries_of(dir: UploadItemView, names: Seq<Seq<char>>) -> Seq<UploadItemView> {
    names.map_values(
        |name: Seq<char>|
            UploadItemView { local: joined(dir.local, name), remote: joined(dir.remote, name) },
    )
}

/// Starts the upload of the local item at `path`, whose own name is `name`.
/// `exists` tells whether there is such an item. The items that wait for
/// their upload form a stack, which at first holds that item alone; its path
/// in the namespace is its name.
pub fn upload(path: String, name: String, exists: bool) -> (pending: Result<Vec<UploadItem>, Error>)
    ensures
        match pending {
            Ok(items) => exists && item_views(items@) == seq![
                UploadItemView { local: path@, remote: name@ },
            ],
            Err(e) => !exists && e@ == (ErrorView::FileNotExist { path: path@ }),
        },
{
    if exists {
        let mut items: Vec<UploadItem> = Vec::new();
        items.push(UploadItem { local: path, remote: name });
        assert(item_views(items@) =~= seq![UploadItemView { local: path@, remote: name@ }]);
        Ok(items)
    } else {
        Err(Error::FileNotExist { path })
    }
}

/// Takes from the stack the item that is to be uploaded next: the one that
/// was put on it last. Without an item left the upload is done.
pub fn next_item(pending: &mut Vec<UploadItem>) -> (item: Option<UploadItem>)
    ensures
        match item {
            Some(item) => {
                &&& old(pending)@.len() > 0
                &&& item == old(pending)@.last()
                &&& final(pending)@ == old(pending)@.drop_last()
            },
            None => old(pending)@.len() == 0 && final(pending)@.len() == 0,
        },
{
    pending.pop()
}

/// Puts the entries of the directory `dir` on the stack of items that wait
/// for their upload. A directory is uploaded before this is called for it,
/// so it is in the namespace before any of its entries.
pub fn push_entries(pending: &mut Vec<UploadItem>, dir: &UploadItem, names: &Vec<String>)
    ensures
        item_views(final(pending)@) == item_views(old(pending)@) + entries_of(dir@, texts(names@)),
{
    let ghost before = item_views(pending@);
    let mut i: usize = 0;
    assert(entries_of(dir@, texts(names@)).take(0) =~= Seq::empty());
    while i < names.len()
        invariant
            i <= names.len(),
            item_views(pending@) == before + entries_of(dir@, texts(names@)).take(i as int),
        decreases names.len() - i,
    {
        let name = names[i].as_str();
        let ghost prev = pending@;
        pending.push(
            UploadItem {
                local: join_path(dir.local.as_str(), name),
                remote: join_path(dir.remote.as_str(), name),
            },
        );
        proof {
            let entries = entries_of(dir@, texts(names@));
            assert(texts(names@)[i as int] == names@[i as int]@);
            assert(entries[i as int] == pending@[pending.len() - 1]@);
            assert(entries.take(i + 1) =~= entries.take(i as int).push(entries[i as int]));
            assert(item_views(pending@) =~= item_views(prev).push(entries[i as int]));
            assert(item_views(pending@) =~= before + entries.take(i + 1));
        }
        i = i + 1;
    }
    assert(entries_of(dir@, texts(names@)).take(i as int) =~= entries_of(dir@, texts(names@)));
}

/// The names of the first `upto` children of `node`, each on a line of its own.
pub open spec fn listing(node: Tree, upto: nat) -> Seq<char>
    decreases upto,
{
    if upto == 0 || upto > node.children.len() {
        Seq::empty()
    } else {
        listing(node, (upto - 1) as nat) + node.children[upto - 1].file_info.name() + "\n"@
    }
}

/// Renders the directory `node`: the names of its children, each on a line of its own.
pub fn list(node: &FileMetadata) -> (text: String)
    ensures
        text@ == listing(node@, node@.children.len()),
{
    let mut text = String::new();
    let mut i: usize = 0;
    proof {
        node.lemma_children();
    }
    while i < node.children.len()
        invariant
            i <= node.children.len(),
            node@.children.len() == node.children@.len(),
            forall|k: int|
                0 <= k < node.children@.len() ==> (#[trigger] node@.children[k])
                    == node.children@[k]@,
            text@ == listing(node@, i as nat),
        decreases node.children.len() - i,
    {
        proof {
            node.children@[i as int].lemma_children();
        }
        text.append(node.children[i].file_info.name().as_str());
        text.append("\n");
        assert(text@ =~= listing(node@, (i + 1) as nat));
        i = i + 1;
    }
    text
}

/// The blanks that stand before the name of a node `depth` levels down.
pub open spec fn indent(depth: nat) -> Seq<char>
    decreases depth,
{
    if depth == 0 {
        Seq::empty()
    } else {
        indent((depth - 1) as nat) + "  "@
    }
}

/// The lines for the first `upto` children of `node` and all below them,
/// where the children stand `depth` levels down.
pub open spec fn children_text(node: Tree, upto: nat, depth: nat) -> Seq<char>
    decreases node, upto,
{
    if upto == 0 || upto > node.children.len() {
        Seq::empty()
    } else {
        children_text(node, (upto - 1) as nat, depth) + subtree_text(
            node.children[upto - 1],
            depth,
        )
    }
}

/// The lines for `node` and all below it: the name of `node` behind two
/// blanks for each level of `depth`, then its children, one level further down.
pub open spec fn subtree_text(node: Tree, depth: nat) -> Seq<char>
    decreases node, node.children.len() + 1,
{
    indent(depth) + node.file_info.name() + "\n"@ + children_text(
        node,
        node.children.len(),
        depth + 1,
    )
}

/// Adds to `text` the lines for the children of `node` and all below them.
fn render_children(node: &FileMetadata, margin: &str, text: &mut String, Ghost(depth): Ghost<nat>)
    requires
        margin@ == indent(depth),
    ensures
        final(text)@ == old(text)@ + children_text(node@, node@.children.len(), depth),
    decreases node,
{
    let ghost before = text@;
    let deeper = crate::urls::join2(margin, "  ");
    proof {
        node.lemma_children();
    }
    let mut i: usize = 0;
    assert(text@ =~= before + children_text(node@, 0, depth));
    while i < node.children.len()
        invariant
            i <= node.children.len(),
            margin@ == indent(depth),
            deeper@ == indent(depth + 1),
            node@.children.len() == node.children@.len(),
            forall|k: int|
                0 <= k < node.children@.len() ==> (#[trigger] node@.children[k])
                    == node.children@[k]@,
            text@ == before + children_text(node@, i as nat, depth),
        decreases node.children.len() - i,
    {
        let child = &node.children[i];
        proof {
            child.lemma_children();
        }
        let ghost sofar = text@;
        text.append(margin);
        text.append(child.file_info.name().as_str());
        text.append("\n");
        render_children(child, deeper.as_str(), text, Ghost(depth + 1));
        assert(text@ =~= sofar + subtree_text(child@, depth));
        assert(text@ =~= before + children_text(node@, (i + 1) as nat, depth));
        i = i + 1;
    }
}

/// Renders what lies below `node` as a tree: a line for each node, the
/// children of a node below it and two blanks further in.
pub fn tree(node: &FileMetadata) -> (text: String)
    ensures
        text@ == children_text(node@, node@.children.len(), 0),
{
    let mut text = String::new();
    proof {
        reveal_strlit("");
        assert(""@ =~= indent(0));
    }
    render_children(node, "", &mut text, Ghost(0));
    assert(Seq::<char>::empty() + children_text(node@, node@.children.len(), 0) =~= children_text(
        node@,
        node@.children.len(),
        0,
    ));
    text
}

} // verus!
