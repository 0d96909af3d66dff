use ccfs::errors::{Error, FileAction};
use ccfs::file_ops::{
    arrange, collect_parts, distinct_from, distinct_id, download, download_chunk, download_file, join_parts, join_path, list, next_item,
    prepare_chunks, push_entries, shuffled, split_chunks, tree, upload, upload_chunk, upload_file,
    upload_item, DownloadAction, DownloadStep, UploadAction, UploadItem,
};
use ccfs::model::{Chunk, ChunkServer, File, FileInfo, FileMetadata, FileStatus, CHUNK_SIZE};
use ccfs::replicas::replica_groups;
use ccfs::routes::{create_file, get_chunks, rocket, signal_chuck_upload_completed};
use ccfs::urls::{
    chunk_download_url, chunk_upload_url, chunks_url, completed_url, create_url, file_url,
    files_url, join2, join3, ping_url, server_url, servers_url,
};

fn server(id: u128, address: &str) -> ChunkServer {
    ChunkServer { id, address: address.to_string(), latest_ping_time: 0 }
}

fn file(id: u128, name: &str, chunks: Vec<u128>) -> File {
    File {
        id,
        name: name.to_string(),
        size: 100,
        chunks,
        num_of_completed_chunks: 0,
        status: FileStatus::Started,
    }
}

fn file_node(id: u128, name: &str) -> FileMetadata {
    FileMetadata { file_info: FileInfo::File(file(id, name, vec![1])), children: Vec::new() }
}

fn dir_node(name: &str, children: Vec<FileMetadata>) -> FileMetadata {
    FileMetadata { file_info: FileInfo::Directory(name.to_string()), children }
}

#[test]
fn chunk_size_is_64_mib() {
    assert_eq!(CHUNK_SIZE, 64 * 1024 * 1024);
}

#[test]
fn empty_content_is_one_empty_chunk() {
    assert_eq!(split_chunks(&vec![], 4), vec![Vec::<u8>::new()]);
}

#[test]
fn content_is_cut_into_chunks_of_the_given_size() {
    let content: Vec<u8> = (0..10).collect();
    assert_eq!(split_chunks(&content, 4), vec![vec![0, 1, 2, 3], vec![4, 5, 6, 7], vec![8, 9]]);
    assert_eq!(split_chunks(&content, 5), vec![vec![0, 1, 2, 3, 4], vec![5, 6, 7, 8, 9]]);
    assert_eq!(split_chunks(&content, 10), vec![content.clone()]);
    assert_eq!(split_chunks(&content, 11), vec![content.clone()]);
    assert_eq!(split_chunks(&content, 1).len(), 10);
    assert_eq!(split_chunks(&vec![9], 1), vec![vec![9]]);
}

#[test]
fn number_of_chunks_is_the_size_over_the_chunk_size_rounded_up() {
    for (size, chunk_size, expected) in
        [(0usize, 3usize, 1usize), (1, 3, 1), (3, 3, 1), (4, 3, 2), (6, 3, 2), (7, 3, 3), (100, 7, 15)]
    {
        let content = vec![1u8; size];
        assert_eq!(split_chunks(&content, chunk_size).len(), expected);
    }
}

#[test]
fn split_then_join_gives_the_content_back() {
    for size in [0usize, 1, 5, 16, 17, 100] {
        let content: Vec<u8> = (0..size).map(|b| (b % 251) as u8).collect();
        for chunk_size in [1usize, 2, 16, 17, 1000] {
            assert_eq!(join_parts(&split_chunks(&content, chunk_size)), content);
        }
    }
}

#[test]
fn join_parts_keeps_the_order_of_the_parts() {
    assert_eq!(join_parts(&vec![vec![1, 2], vec![], vec![3], vec![4, 5]]), vec![1, 2, 3, 4, 5]);
    assert_eq!(join_parts(&vec![]), Vec::<u8>::new());
}

#[test]
fn prepare_chunks_of_a_small_file_is_one_chunk() {
    let content = vec![7u8; 1000];
    let chunks = prepare_chunks(&content);
    assert_eq!(chunks.len(), 1);
    assert_eq!(chunks[0].1, content);
}

#[test]
fn prepare_chunks_of_an_empty_file_is_one_empty_chunk() {
    let chunks = prepare_chunks(&vec![]);
    assert_eq!(chunks.len(), 1);
    assert!(chunks[0].1.is_empty());
}

#[test]
fn chunks_of_a_file_over_the_chunk_size_have_distinct_ids() {
    let size = CHUNK_SIZE as usize + 5;
    let content: Vec<u8> = (0..size).map(|b| (b % 253) as u8).collect();
    let chunks = prepare_chunks(&content);
    assert_eq!(chunks.len(), 2);
    assert_ne!(chunks[0].0, chunks[1].0);
    assert_eq!(chunks[0].1.len(), CHUNK_SIZE as usize);
    assert_eq!(chunks[0].1[..], content[..CHUNK_SIZE as usize]);
    assert_eq!(chunks[1].1[..], content[CHUNK_SIZE as usize..]);
}

#[test]
fn distinct_id_is_not_among_the_taken() {
    let taken: Vec<u128> = (0..100).collect();
    for _ in 0..20 {
        let id = distinct_id(&taken);
        assert!(!taken.contains(&id));
    }
    let _ = distinct_id(&vec![]);
}

#[test]
fn drawn_id_is_kept_if_it_is_free() {
    assert_eq!(distinct_from(&vec![1, 2, 3], 9), 9);
    assert_eq!(distinct_from(&vec![], 0), 0);
    assert_eq!(distinct_from(&vec![0, 1], u128::MAX), u128::MAX);
}

#[test]
fn taken_id_gives_way_to_the_smallest_free_number() {
    assert_eq!(distinct_from(&vec![7], 7), 0);
    assert_eq!(distinct_from(&vec![0, 1, 2], 1), 3);
    assert_eq!(distinct_from(&vec![2, 0, 5, 1], 5), 3);
    assert_eq!(distinct_from(&vec![0, 0, 1, 1], 0), 2);
}

#[test]
fn servers_are_arranged_in_the_order_named() {
    let servers = vec![server(1, "a"), server(2, "b"), server(3, "c")];
    assert_eq!(
        arrange(&servers, &vec![2, 0, 1]),
        vec![server(3, "c"), server(1, "a"), server(2, "b")]
    );
    assert_eq!(arrange(&servers, &vec![1, 1]), vec![server(2, "b"), server(2, "b")]);
    assert!(arrange(&servers, &vec![]).is_empty());
}

#[test]
fn upload_item_for_a_directory() {
    let item = upload_item("photos".to_string(), None);
    assert_eq!(item.node, FileMetadata::create_dir("photos".to_string()));
    assert!(item.chunks.is_empty());
}

#[test]
fn upload_item_for_a_file_names_its_chunks_in_order() {
    let content = vec![3u8; 77];
    let item = upload_item("a.bin".to_string(), Some(&content));
    assert_eq!(item.chunks.len(), 1);
    assert_eq!(item.chunks[0].1, content);
    assert!(item.node.children.is_empty());
    match &item.node.file_info {
        FileInfo::File(f) => {
            assert_eq!(f.name, "a.bin");
            assert_eq!(f.size, 77);
            assert_eq!(f.chunks, vec![item.chunks[0].0]);
            assert_eq!(f.num_of_completed_chunks, 0);
            assert_eq!(f.status, FileStatus::Started);
        }
        FileInfo::Directory(_) => panic!("a file node was asked for"),
    }
}

#[test]
fn upload_of_a_missing_path_fails() {
    let r = upload("/no/such".to_string(), "such".to_string(), false);
    assert_eq!(r, Err(Error::FileNotExist { path: "/no/such".to_string() }));
}

#[test]
fn upload_walk_goes_depth_first() {
    let mut pending = upload("/home/u/dir".to_string(), "dir".to_string(), true).unwrap();
    assert_eq!(
        pending,
        vec![UploadItem { local: "/home/u/dir".to_string(), remote: "dir".to_string() }]
    );
    let top = next_item(&mut pending).unwrap();
    assert!(pending.is_empty());
    assert_eq!(next_item(&mut pending), None);
    push_entries(&mut pending, &top, &vec!["a.txt".to_string(), "sub".to_string()]);
    assert_eq!(
        pending,
        vec![
            UploadItem { local: "/home/u/dir/a.txt".to_string(), remote: "dir/a.txt".to_string() },
            UploadItem { local: "/home/u/dir/sub".to_string(), remote: "dir/sub".to_string() },
        ]
    );
    let sub = next_item(&mut pending).unwrap();
    assert_eq!(sub.remote, "dir/sub");
    push_entries(&mut pending, &sub, &vec!["b.txt".to_string()]);
    assert_eq!(pending.len(), 2);
    assert_eq!(pending[1].remote, "dir/sub/b.txt");
    assert_eq!(pending[1].local, "/home/u/dir/sub/b.txt");
    push_entries(&mut pending, &sub, &vec![]);
    assert_eq!(pending.len(), 2);
}

#[test]
fn upload_of_a_file_succeeds_if_every_chunk_did() {
    assert_eq!(upload_file(&vec![]), Ok(()));
    assert_eq!(upload_file(&vec![Ok(()), Ok(())]), Ok(()));
}

#[test]
fn upload_of_a_file_fails_if_one_chunk_did() {
    let failed = Err(Error::UploadSingleChunk { part: 1, chunk_id: 5 });
    assert_eq!(upload_file(&vec![Ok(()), failed, Ok(())]), Err(Error::UploadChunks));
    assert_eq!(upload_file(&vec![Err(Error::ParseJson)]), Err(Error::UploadChunks));
}

#[test]
fn shuffled_servers_are_the_same_servers() {
    let servers: Vec<ChunkServer> =
        (0..20).map(|k| server(k, &format!("http://s{}", k))).collect();
    let mut moved = false;
    for _ in 0..10 {
        let mut order = shuffled(&servers);
        assert_eq!(order.len(), 20);
        moved = moved || order != servers;
        order.sort_by_key(|s| s.id);
        assert_eq!(order, servers);
    }
    assert!(moved);
    assert!(shuffled(&vec![]).is_empty());
}

#[test]
fn chunk_goes_to_the_first_server_that_accepts() {
    let servers = vec![server(1, "http://a"), server(2, "http://b"), server(3, "http://c")];
    let mut trial = upload_chunk(&servers, 4, 77);
    assert_eq!((trial.part, trial.chunk_id, trial.refused, trial.accepted), (4, 77, 0, false));
    let first = format!("{}/api/upload", trial.servers[0].address);
    let second = format!("{}/api/upload", trial.servers[1].address);
    assert_eq!(trial.next(), UploadAction::Post { url: first.clone() });
    assert_eq!(trial.next(), UploadAction::Post { url: first });
    trial.record(false);
    assert_eq!(trial.next(), UploadAction::Post { url: second });
    trial.record(true);
    assert_eq!(trial.next(), UploadAction::Done);
    trial.record(false);
    assert_eq!(trial.next(), UploadAction::Done);
    assert_eq!(trial.refused, 1);
}

#[test]
fn chunk_that_no_server_accepts_fails_with_its_part_and_id() {
    let servers = vec![server(1, "http://a"), server(2, "http://b")];
    let mut trial = upload_chunk(&servers, 4, 77);
    trial.record(false);
    trial.record(false);
    let failure = UploadAction::Fail(Error::UploadSingleChunk { part: 4, chunk_id: 77 });
    assert_eq!(trial.next(), failure);
    trial.record(true);
    assert_eq!(trial.next(), failure);
    let mut none = upload_chunk(&vec![], 0, 1);
    assert_eq!(none.next(), UploadAction::Fail(Error::UploadSingleChunk { part: 0, chunk_id: 1 }));
    none.record(true);
    assert!(!none.accepted);
}

#[test]
fn single_live_server_takes_every_chunk() {
    let servers = vec![server(9, "http://only")];
    for part in 0..3 {
        let trial = upload_chunk(&servers, part, 100 + part as u128);
        assert_eq!(trial.next(), UploadAction::Post { url: "http://only/api/upload".to_string() });
    }
}

#[test]
fn upload_then_download_through_one_server_gives_the_bytes_back() {
    let content: Vec<u8> = (0..10 * 1024 * 1024).map(|b| (b % 251) as u8).collect();
    let mut state = rocket();
    let item = upload_item("ten.bin".to_string(), Some(&content));
    let created =
        create_file(item.node, Some("ten.bin"), &mut state.files, &mut state.tree).unwrap();
    let record = match created.file_info {
        FileInfo::File(f) => f,
        FileInfo::Directory(_) => panic!("a file node was asked for"),
    };
    let mut stored: Vec<(String, Vec<u8>)> = Vec::new();
    for (part, (chunk_id, bytes)) in item.chunks.into_iter().enumerate() {
        let chunk = Chunk::new(chunk_id, record.id, 9, part);
        stored.push((chunk.chunk_name(), bytes));
        signal_chuck_upload_completed(chunk, &mut state.files, &mut state.chunks).unwrap();
    }
    assert_eq!(state.files[&record.id].status, FileStatus::Completed);
    let listed = get_chunks(record.id, &state.chunks);
    assert_eq!(listed.len() as u64, (10 * 1024 * 1024 + CHUNK_SIZE - 1) / CHUNK_SIZE);
    assert_eq!(listed.len(), 1);
    assert!(listed.iter().all(|c| c.server_id == 9));
    let plan = download_file(&record, listed, "out");
    assert_eq!(plan.target, "out/ten.bin");
    let mut fetched = Vec::new();
    for group in plan.groups {
        let name = group[0].chunk_name();
        let bytes = stored.iter().find(|(n, _)| *n == name).map(|(_, b)| b.clone());
        fetched.push(bytes.ok_or(Error::ChunkNotAvailable { chunk_name: name }));
    }
    let parts = collect_parts(fetched).unwrap();
    assert_eq!(join_parts(&parts), content);
}

#[test]
fn replicas_are_grouped_by_part_in_ascending_order() {
    let listed = vec![
        Chunk::new(1, 7, 30, 2),
        Chunk::new(2, 7, 10, 0),
        Chunk::new(3, 7, 20, 2),
        Chunk::new(4, 7, 40, 1),
        Chunk::new(5, 7, 50, 0),
        Chunk::new(6, 7, 60, 2),
    ];
    let groups = replica_groups(listed);
    assert_eq!(
        groups,
        vec![
            vec![Chunk::new(2, 7, 10, 0), Chunk::new(5, 7, 50, 0)],
            vec![Chunk::new(4, 7, 40, 1)],
            vec![Chunk::new(1, 7, 30, 2), Chunk::new(3, 7, 20, 2), Chunk::new(6, 7, 60, 2)],
        ]
    );
}

#[test]
fn replica_groups_of_nothing_and_of_one() {
    assert_eq!(replica_groups(vec![]), Vec::<Vec<Chunk>>::new());
    let one = Chunk::new(1, 7, 30, 5);
    assert_eq!(replica_groups(vec![one]), vec![vec![one]]);
}

#[test]
fn replica_groups_of_many_parts() {
    let mut listed = Vec::new();
    for part in (0..50usize).rev() {
        for replica in 0..(1 + part % 3) {
            listed.push(Chunk::new((part * 10 + replica) as u128, 7, replica as u128, part));
        }
    }
    let groups = replica_groups(listed);
    assert_eq!(groups.len(), 50);
    for (part, group) in groups.iter().enumerate() {
        assert_eq!(group.len(), 1 + part % 3);
        for (replica, chunk) in group.iter().enumerate() {
            assert_eq!(*chunk, Chunk::new((part * 10 + replica) as u128, 7, replica as u128, part));
        }
    }
}

#[test]
fn download_file_plans_target_and_groups() {
    let f = file(7, "movie.mp4", vec![1, 2]);
    let listed = vec![Chunk::new(2, 7, 10, 1), Chunk::new(1, 7, 10, 0)];
    let plan = download_file(&f, listed, "/tmp/out");
    assert_eq!(plan.target, "/tmp/out/movie.mp4");
    assert_eq!(plan.groups, vec![vec![Chunk::new(1, 7, 10, 0)], vec![Chunk::new(2, 7, 10, 1)]]);
}

#[test]
fn collect_parts_gives_all_or_the_first_error() {
    assert_eq!(collect_parts::<u8>(vec![]), Ok(vec![]));
    assert_eq!(collect_parts(vec![Ok(1), Ok(2), Ok(3)]), Ok(vec![1, 2, 3]));
    let first = Error::ChunkNotAvailable { chunk_name: "a_b_1".to_string() };
    let second = Error::FailedRequest { url: "http://x".to_string() };
    assert_eq!(
        collect_parts(vec![Ok(1), Err(first.clone()), Ok(3), Err(second.clone())]),
        Err(first)
    );
    assert_eq!(collect_parts::<u8>(vec![Err(second.clone())]), Err(second));
}

#[test]
fn errors_from_outside_pass_through() {
    let errors = vec![
        Error::LockFailure,
        Error::ParseJson,
        Error::FailedRequest { url: "u".to_string() },
        Error::FileIO { path: "p".to_string(), action: FileAction::Write },
        Error::FileIO { path: "p".to_string(), action: FileAction::Open },
        Error::FileIO { path: "p".to_string(), action: FileAction::Read },
        Error::FileIO { path: "p".to_string(), action: FileAction::Create },
        Error::ReadMetadata { path: "p".to_string() },
    ];
    for e in errors {
        assert_eq!(collect_parts::<u8>(vec![Ok(0), Err(e.clone())]), Err(e.clone()));
        assert_eq!(e.clone(), e);
    }
}

#[test]
fn download_plan_makes_directories_before_their_content() {
    let tree = dir_node(
        "top",
        vec![
            file_node(1, "a"),
            dir_node("sub", vec![file_node(2, "b"), dir_node("empty", vec![])]),
            file_node(3, "c"),
        ],
    );
    let steps = download(&tree, ".");
    assert_eq!(
        steps,
        vec![
            DownloadStep::CreateDir { path: "./top".to_string() },
            DownloadStep::FetchFile { file: file(1, "a", vec![1]), dir: "./top".to_string() },
            DownloadStep::CreateDir { path: "./top/sub".to_string() },
            DownloadStep::FetchFile { file: file(2, "b", vec![1]), dir: "./top/sub".to_string() },
            DownloadStep::CreateDir { path: "./top/sub/empty".to_string() },
            DownloadStep::FetchFile { file: file(3, "c", vec![1]), dir: "./top".to_string() },
        ]
    );
}

#[test]
fn download_plan_of_a_single_file() {
    let steps = download(&file_node(1, "a"), "/target");
    assert_eq!(
        steps,
        vec![DownloadStep::FetchFile { file: file(1, "a", vec![1]), dir: "/target".to_string() }]
    );
}

#[test]
fn replicas_are_tried_in_order_until_one_is_fetched() {
    let id1 = 0x1a6e700612a74935b8c058fa7ea84b09u128;
    let id2 = 0x6d53a85f505b4a1aae6df7c18761d04au128;
    let group = vec![Chunk::new(1, 2, id1, 0), Chunk::new(1, 2, id2, 0)];
    let name = "00000000-0000-0000-0000-000000000002_00000000-0000-0000-0000-000000000001_0";
    let mut trial = download_chunk(group.clone());
    assert_eq!(trial.chunk_name, name);
    assert_eq!(trial.replicas, group);
    let resolve1 = DownloadAction::Resolve {
        url: "http://meta/api/servers/1a6e7006-12a7-4935-b8c0-58fa7ea84b09".to_string(),
    };
    assert_eq!(trial.next("http://meta"), resolve1);
    trial.fetched(true);
    assert_eq!(trial.next("http://meta"), resolve1);
    trial.resolved(Some(server(id1, "http://one")));
    let fetch1 = DownloadAction::Fetch { url: format!("http://one/api/download/{}", name) };
    assert_eq!(trial.next("http://meta"), fetch1);
    trial.resolved(None);
    assert_eq!(trial.next("http://meta"), fetch1);
    trial.fetched(false);
    let resolve2 = DownloadAction::Resolve {
        url: "http://meta/api/servers/6d53a85f-505b-4a1a-ae6d-f7c18761d04a".to_string(),
    };
    assert_eq!(trial.next("http://meta"), resolve2);
    trial.resolved(Some(server(id2, "http://two")));
    assert_eq!(
        trial.next("http://meta"),
        DownloadAction::Fetch { url: format!("http://two/api/download/{}", name) }
    );
    trial.fetched(true);
    assert_eq!(trial.next("http://meta"), DownloadAction::Done);
    trial.fetched(false);
    trial.resolved(None);
    assert_eq!(trial.next("http://meta"), DownloadAction::Done);
}

#[test]
fn chunk_that_no_replica_serves_is_not_available() {
    let group = vec![Chunk::new(3, 4, 5, 12), Chunk::new(3, 4, 6, 12)];
    let mut trial = download_chunk(group);
    trial.resolved(None);
    trial.resolved(Some(server(6, "http://six")));
    trial.fetched(false);
    let name = "00000000-0000-0000-0000-000000000004_00000000-0000-0000-0000-000000000003_12";
    assert_eq!(
        trial.next("http://meta"),
        DownloadAction::Fail(Error::ChunkNotAvailable { chunk_name: name.to_string() })
    );
    assert_eq!(trial.failed, 2);
}

#[test]
fn listing_names_the_children() {
    let tree = dir_node("", vec![file_node(1, "a.txt"), dir_node("docs", vec![file_node(2, "b")])]);
    assert_eq!(list(&tree), "a.txt\ndocs\n");
    assert_eq!(list(&dir_node("x", vec![])), "");
}

#[test]
fn tree_indents_by_depth() {
    let tree_node = dir_node(
        "",
        vec![
            file_node(1, "a.txt"),
            dir_node("docs", vec![file_node(2, "b"), dir_node("deep", vec![file_node(3, "c")])]),
            file_node(4, "z"),
        ],
    );
    assert_eq!(tree(&tree_node), "a.txt\ndocs\n  b\n  deep\n    c\nz\n");
    assert_eq!(tree(&file_node(1, "a")), "");
}

#[test]
fn paths_are_joined_with_a_separator() {
    assert_eq!(join_path("a", "b"), "a/b");
    assert_eq!(join_path("", "b"), "/b");
    assert_eq!(join2("ab", "cd"), "abcd");
    assert_eq!(join3("ab", "", "cd"), "abcd");
}

#[test]
fn addresses_of_the_coordinator() {
    let meta = "http://meta:8080";
    let id = 0x1a6e700612a74935b8c058fa7ea84b09u128;
    assert_eq!(files_url(meta), "http://meta:8080/api/files");
    assert_eq!(file_url(meta, "a/b"), "http://meta:8080/api/files?path=a/b");
    assert_eq!(create_url(meta, "a/b"), "http://meta:8080/api/files/upload?path=a/b");
    assert_eq!(servers_url(meta), "http://meta:8080/api/servers");
    assert_eq!(
        server_url(meta, id),
        "http://meta:8080/api/servers/1a6e7006-12a7-4935-b8c0-58fa7ea84b09"
    );
    assert_eq!(
        chunks_url(meta, id),
        "http://meta:8080/api/chunks/file/1a6e7006-12a7-4935-b8c0-58fa7ea84b09"
    );
    assert_eq!(ping_url(meta), "http://meta:8080/api/ping");
    assert_eq!(completed_url(meta), "http://meta:8080/api/chunk/completed");
}

#[test]
fn addresses_of_a_chunk_server() {
    assert_eq!(chunk_upload_url("http://cs"), "http://cs/api/upload");
    assert_eq!(chunk_download_url("http://cs", "f_c_0"), "http://cs/api/download/f_c_0");
}
