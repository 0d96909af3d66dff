//! The records of the file store and the constants of its protocol.

use vstd::prelude::*;

use crate::foreign::{decimal_text, fresh_id, id_text, id_to_text, now_millis, usize_to_text};

verus! {

/// Number of bytes in a chunk; only the last chunk of a file may hold fewer.
pub const CHUNK_SIZE: u64 = 67_108_864;

/// Seconds between two pings of a chunk server.
pub const PING_INTERVAL: u64 = 5;

/// Milliseconds after its latest ping for which a chunk server counts as live.
pub const LIVENESS_WINDOW: i64 = 6_000;

/// How far the upload of a file has come.
#[derive(Clone, Copy, Debug, PartialEq, Eq, Structural)]
pub enum FileStatus {
    Started,
    Completed,
    Failed,
}

/// A replica of one part of a file, held by one chunk server.
#[derive(Clone, Copy, Debug, PartialEq, Eq, Structural)]
pub struct Chunk {
    pub id: u128,
    pub file_id: u128,
    pub server_id: u128,
    pub file_part_num: usize,
}

/// The name under which a chunk server stores a chunk: the texts of the file's
/// identifier and of the chunk's identifier, and the part number in decimal,
/// joined by underscores.
pub open spec fn chunk_name_of(chunk: Chunk) -> Seq<char> {
    id_text(chunk.file_id) + seq!['_'] + id_text(chunk.id) + seq!['_'] + decimal_text(
        chunk.file_part_num as nat,
    )
}

impl Chunk {
    pub fn new(id: u128, file_id: u128, server_id: u128, file_part_num: usize) -> (chunk: Chunk)
        ensures
            chunk == (Chunk { id, file_id, server_id, file_part_num }),
    {
        Chunk { id, file_id, server_id, file_part_num }
    }

    /// The name of the file in which a chunk server keeps this chunk.
    pub fn chunk_name(&self) -> (name: String)
        ensures
            name@ == chunk_name_of(*self),
    {
        proof {
            reveal_strlit("_");
        }
        let mut name = id_to_text(self.file_id);
        name.append("_");
        name.append(id_to_text(self.id).as_str());
        name.append("_");
        name.append(usize_to_text(self.file_part_num).as_str());
        assert("_"@ =~= seq!['_']);
        name
    }
}


/// A file as the coordinator records it.
#[derive(Debug, PartialEq, Eq)]
pub struct File {
    pub id: u128,
    pub name: String,
    pub size: u64,
    pub chunks: Vec<u128>,
    pub num_of_completed_chunks: usize,
    pub status: FileStatus,
}

/// What a [`File`] record says.
pub struct FileView {
    pub id: u128,
    pub name: Seq<char>,
    pub size: u64,
    pub chunks: Seq<u128>,
    pub num_of_completed_chunks: nat,
    pub status: FileStatus,
}

impl FileView {
    /// The counter never passes the number of chunks, and a completed file has
    /// all of its chunks counted.
    pub open spec fn wf(self) -> bool {
        &&& self.num_of_completed_chunks <= self.chunks.len()
        &&& self.status == FileStatus::Completed ==> self.num_of_completed_chunks
            == self.chunks.len()
    }

    /// The record after one more chunk has been recorded. The counter goes up
    /// by one unless every chunk is counted already, and on reaching the number
    /// of chunks it makes the file completed.
    pub open spec fn chunk_completed(self) -> FileView {
        if self.num_of_completed_chunks < self.chunks.len() {
            FileView {
                num_of_completed_chunks: self.num_of_completed_chunks + 1,
                status: if self.num_of_completed_chunks + 1 == self.chunks.len() {
                    FileStatus::Completed
                } else {
                    self.status
                },
                ..self
            }
        } else {
            self
        }
    }
}

impl View for File {
    type V = FileView;

    open spec fn view(&self) -> FileView {
        FileView {
            id: self.id,
            name: self.name@,
            size: self.size,
            chunks: self.chunks@,
            num_of_completed_chunks: self.num_of_completed_chunks as nat,
            status: self.status,
        }
    }
}

impl Clone for File {
    fn clone(&self) -> (res: Self)
        ensures
            res@ == self@,
    {
        let chunks = self.chunks.clone();
        assert(chunks@ =~= self.chunks@);
        File {
            id: self.id,
            name: self.name.clone(),
            size: self.size,
            chunks,
            num_of_completed_chunks: self.num_of_completed_chunks,
            status: self.status,
        }
    }
}

impl File {
    /// A record for a file whose upload starts: no chunk is counted yet. The
    /// identifier is drawn at random.
    pub fn new(name: String, size: u64, chunks: Vec<u128>) -> (file: File)
        ensures
            file@ == (FileView {
                id: file.id,
                name: name@,
                size,
                chunks: chunks@,
                num_of_completed_chunks: 0,
                status: FileStatus::Started,
            }),
            file@.wf(),
    {
        File {
            id: fresh_id(),
            name,
            size,
            chunks,
            num_of_completed_chunks: 0,
            status: FileStatus::Started,
        }
    }

    /// Tells whether the record keeps the counter within the number of chunks
    /// and is completed only with every chunk counted.
    pub fn is_wf(&self) -> (ok: bool)
        ensures
            ok == self@.wf(),
    {
        self.num_of_completed_chunks <= self.chunks.len() && (match self.status {
            FileStatus::Completed => self.num_of_completed_chunks == self.chunks.len(),
            _ => true,
        })
    }

    /// Records that one more chunk of the file has been stored.
    pub fn chunk_completed(&mut self)
        ensures
            final(self)@ == old(self)@.chunk_completed(),
    {
        if self.num_of_completed_chunks < self.chunks.len() {
            self.num_of_completed_chunks = self.num_of_completed_chunks + 1;
            if self.num_of_completed_chunks == self.chunks.len() {
                self.status = FileStatus::Completed;
            }
        }
    }
}

/// A chunk server as the coordinator knows it. `latest_ping_time` counts
/// milliseconds since the Unix epoch.
#[derive(Debug, PartialEq, Eq)]
pub struct ChunkServer {
    pub id: u128,
    pub address: String,
    pub latest_ping_time: i64,
}

/// What a [`ChunkServer`] record says.
pub struct ChunkServerView {
    pub id: u128,
    pub address: Seq<char>,
    pub latest_ping_time: i64,
}

impl ChunkServerView {
    /// A server is live while its latest ping is no older than the liveness window.
    pub open spec fn is_live(self, now: i64) -> bool {
        now - self.latest_ping_time <= LIVENESS_WINDOW
    }
}

impl View for ChunkServer {
    type V = ChunkServerView;

    open spec fn view(&self) -> ChunkServerView {
        ChunkServerView {
            id: self.id,
            address: self.address@,
            latest_ping_time: self.latest_ping_time,
        }
    }
}

impl Clone for ChunkServer {
    fn clone(&self) -> (res: Self)
        ensures
            res@ == self@,
    {
        ChunkServer {
            id: self.id,
            address: self.address.clone(),
            latest_ping_time: self.latest_ping_time,
        }
    }
}

impl ChunkServer {
    /// A record for a server that is heard of at this moment: its latest ping
    /// is the reading of the system clock.
    pub fn new(id: u128, address: String) -> (server: ChunkServer)
        ensures
            server.id == id,
            server.address@ == address@,
    {
        ChunkServer { id, address, latest_ping_time: now_millis() }
    }

    /// Tells whether the server is live at the time `now`.
    pub fn is_live(&self, now: i64) -> (live: bool)
        ensures
            live == self@.is_live(now),
    {
        now as i128 - self.latest_ping_time as i128 <= LIVENESS_WINDOW as i128
    }
}

/// What a node of the namespace stands for.
#[derive(Debug, PartialEq, Eq)]
pub enum FileInfo {
    Directory(String),
    File(File),
}

/// What a [`FileInfo`] says.
pub enum FileInfoView {
    Directory(Seq<char>),
    File(FileView),
}

impl FileInfoView {
    /// The name under which the node is kept in its directory.
    pub open spec fn name(self) -> Seq<char> {
        match self {
            FileInfoView::Directory(name) => name,
            FileInfoView::File(file) => file.name,
        }
    }
}

impl View for FileInfo {
    type V = FileInfoView;

    open spec fn view(&self) -> FileInfoView {
        match *self {
            FileInfo::Directory(name) => FileInfoView::Directory(name@),
            FileInfo::File(file) => FileInfoView::File(file@),
        }
    }
}

impl Clone for FileInfo {
    fn clone(&self) -> (res: Self)
        ensures
            res@ == self@,
    {
        match self {
            FileInfo::Directory(name) => FileInfo::Directory(name.clone()),
            FileInfo::File(file) => FileInfo::File(file.clone()),
        }
    }
}

impl FileInfo {
    /// The name under which the node is kept in its directory.
    pub fn name(&self) -> (name: &String)
        ensures
            name@ == self@.name(),
    {
        match self {
            FileInfo::Directory(name) => name,
            FileInfo::File(file) => &file.name,
        }
    }
}

/// A node of the namespace tree with the nodes below it. The children keep
/// the order in which their names first came into the directory.
#[derive(Debug, PartialEq, Eq)]
pub struct FileMetadata {
    pub file_info: FileInfo,
    pub children: Vec<FileMetadata>,
}

/// The namespace tree as a mathematical tree.
pub struct Tree {
    pub file_info: FileInfoView,
    pub children: Seq<Tree>,
}

impl FileMetadata {
    /// The tree that this node and the nodes below it form.
    pub open spec fn tree(&self) -> Tree
        decreases self,
    {
        Tree {
            file_info: self.file_info@,
            children: Seq::new(
                self.children@.len(),
                |i: int|
                    if 0 <= i < self.children@.len() {
                        self.children@[i].tree()
                    } else {
                        arbitrary()
                    },
            ),
        }
    }
}

impl View for FileMetadata {
    type V = Tree;

    open spec fn view(&self) -> Tree {
        self.tree()
    }
}

impl Clone for FileMetadata {
    fn clone(&self) -> (res: Self)
        ensures
            res@ == self@,
        decreases self,
    {
        let mut children: Vec<FileMetadata> = Vec::new();
        let mut i: usize = 0;
        while i < self.children.len()
            invariant
                i <= self.children.len(),
                children.len() == i,
                forall|k: int| 0 <= k < i ==> children@[k]@ == self.children@[k]@,
            decreases self.children.len() - i,
        {
            let child = self.children[i].clone();
            children.push(child);
            i += 1;
        }
        let res = FileMetadata { file_info: self.file_info.clone(), children };
        assert(res@.children =~= self@.children);
        res
    }
}

impl FileMetadata {
    /// The root of an empty namespace: a directory without a name.
    pub fn create_root() -> (node: FileMetadata)
        ensures
            node@ == (Tree { file_info: FileInfoView::Directory(Seq::empty()), children: Seq::empty() }),
    {
        let node = FileMetadata { file_info: FileInfo::Directory(String::new()), children: Vec::new() };
        assert(node@.children =~= Seq::empty());
        node
    }

    /// A directory node without children.
    pub fn create_dir(name: String) -> (node: FileMetadata)
        ensures
            node@ == (Tree { file_info: FileInfoView::Directory(name@), children: Seq::empty() }),
    {
        let node = FileMetadata { file_info: FileInfo::Directory(name), children: Vec::new() };
        assert(node@.children =~= Seq::empty());
        node
    }

    /// A file node for a file whose upload starts, made of the given chunks.
    pub fn create_file(name: String, size: u64, chunks: Vec<u128>) -> (node: FileMetadata)
        ensures
            node@.children == Seq::<Tree>::empty(),
            node@.file_info matches FileInfoView::File(file) && file == (FileView {
                id: file.id,
                name: name@,
                size,
                chunks: chunks@,
                num_of_completed_chunks: 0,
                status: FileStatus::Started,
            }),
    {
        let node = FileMetadata {
            file_info: FileInfo::File(File::new(name, size, chunks)),
            children: Vec::new(),
        };
        assert(node@.children =~= Seq::empty());
        node
    }
}

} // verus!
