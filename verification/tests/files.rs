use ccfs::errors::Error;
use ccfs::model::{Chunk, File, FileInfo, FileMetadata, FileStatus};
use ccfs::namespace::{parent_of, split_path};
use ccfs::routes::{
    create_file, get_chunks, get_file, rocket, signal_chuck_upload_completed, ChunksMap, FilesMap,
};
use std::collections::HashMap;

fn file(id: u128, name: &str, chunks: Vec<u128>) -> File {
    File {
        id,
        name: name.to_string(),
        size: 100,
        chunks,
        num_of_completed_chunks: 0,
        status: FileStatus::Started,
    }
}

fn file_node(id: u128, name: &str, chunks: Vec<u128>) -> FileMetadata {
    FileMetadata { file_info: FileInfo::File(file(id, name, chunks)), children: Vec::new() }
}

fn names(node: &FileMetadata) -> Vec<String> {
    node.children.iter().map(|c| c.file_info.name().clone()).collect()
}

#[test]
fn coordinator_starts_empty() {
    let state = rocket();
    assert!(state.servers.is_empty());
    assert!(state.files.is_empty());
    assert!(state.chunks.is_empty());
    assert_eq!(state.tree, FileMetadata::create_root());
    assert_eq!(state.tree.file_info, FileInfo::Directory(String::new()));
    assert!(state.tree.children.is_empty());
}

#[test]
fn split_path_drops_empty_segments() {
    assert_eq!(split_path(""), Vec::<String>::new());
    assert_eq!(split_path("/"), Vec::<String>::new());
    assert_eq!(split_path("a"), vec!["a".to_string()]);
    assert_eq!(split_path("a/b/c"), vec!["a".to_string(), "b".to_string(), "c".to_string()]);
    assert_eq!(split_path("/a//b/"), vec!["a".to_string(), "b".to_string()]);
    assert_eq!(split_path("dir/ä ö.txt"), vec!["dir".to_string(), "ä ö.txt".to_string()]);
}

#[test]
fn parent_is_what_stands_before_the_last_separator() {
    assert_eq!(parent_of("a/b/c.txt"), "a/b");
    assert_eq!(parent_of("c.txt"), "");
    assert_eq!(parent_of("/c.txt"), "");
    assert_eq!(parent_of("a/"), "a");
    assert_eq!(parent_of(""), "");
    assert_eq!(parent_of("ä/ö/ü"), "ä/ö");
}

#[test]
fn create_file_without_path_is_missing_param() {
    let mut state = rocket();
    let r = create_file(FileMetadata::create_dir("d".into()), None, &mut state.files, &mut state.tree);
    assert_eq!(r, Err(Error::MissingParam));
    assert!(state.tree.children.is_empty());
}

#[test]
fn create_file_under_missing_parent_is_not_found() {
    let mut state = rocket();
    let r = create_file(
        file_node(1, "f.txt", vec![10]),
        Some("nowhere/f.txt"),
        &mut state.files,
        &mut state.tree,
    );
    assert_eq!(r, Err(Error::NotFound));
    assert!(state.tree.children.is_empty());
    assert!(state.files.is_empty());
}

#[test]
fn create_directory_then_file_in_it() {
    let mut state = rocket();
    let dir = create_file(
        FileMetadata::create_dir("docs".into()),
        Some("docs"),
        &mut state.files,
        &mut state.tree,
    )
    .unwrap();
    assert_eq!(dir, FileMetadata::create_dir("docs".into()));
    assert!(state.files.is_empty());
    let node = file_node(42, "a.txt", vec![1, 2, 3]);
    let created =
        create_file(node.clone(), Some("docs/a.txt"), &mut state.files, &mut state.tree).unwrap();
    assert_eq!(created, node);
    assert_eq!(state.files.len(), 1);
    assert_eq!(state.files[&42], file(42, "a.txt", vec![1, 2, 3]));
    assert_eq!(names(&state.tree), vec!["docs".to_string()]);
    assert_eq!(state.tree.children[0].children, vec![node.clone()]);
    assert_eq!(get_file(Some("docs/a.txt"), &state.tree), Ok(&node));
    assert_eq!(get_file(Some("/docs/a.txt"), &state.tree), Ok(&node));
}

#[test]
fn get_file_without_path_gives_the_root() {
    let mut state = rocket();
    create_file(FileMetadata::create_dir("x".into()), Some("x"), &mut state.files, &mut state.tree)
        .unwrap();
    let root = get_file(None, &state.tree).unwrap();
    assert_eq!(names(root), vec!["x".to_string()]);
    let same = get_file(Some(""), &state.tree).unwrap();
    assert_eq!(root, same);
}

#[test]
fn get_file_of_missing_path_is_not_found() {
    let mut state = rocket();
    create_file(FileMetadata::create_dir("x".into()), Some("x"), &mut state.files, &mut state.tree)
        .unwrap();
    assert_eq!(get_file(Some("y"), &state.tree), Err(Error::NotFound));
    assert_eq!(get_file(Some("x/y"), &state.tree), Err(Error::NotFound));
    assert_eq!(get_file(Some("X"), &state.tree), Err(Error::NotFound));
}

#[test]
fn names_in_a_directory_stay_unique() {
    let mut state = rocket();
    for name in ["b", "a", "b", "c", "a"] {
        create_file(
            FileMetadata::create_dir(name.into()),
            Some(name),
            &mut state.files,
            &mut state.tree,
        )
        .unwrap();
    }
    assert_eq!(names(&state.tree), vec!["b".to_string(), "a".to_string(), "c".to_string()]);
}

#[test]
fn node_of_the_same_name_takes_the_place_of_the_old_one() {
    let mut state = rocket();
    create_file(file_node(1, "f", vec![7]), Some("f"), &mut state.files, &mut state.tree).unwrap();
    create_file(FileMetadata::create_dir("g".into()), Some("g"), &mut state.files, &mut state.tree)
        .unwrap();
    create_file(file_node(2, "f", vec![8, 9]), Some("f"), &mut state.files, &mut state.tree)
        .unwrap();
    assert_eq!(names(&state.tree), vec!["f".to_string(), "g".to_string()]);
    assert_eq!(state.tree.children[0], file_node(2, "f", vec![8, 9]));
    assert_eq!(state.files.len(), 2);
}

#[test]
fn node_is_kept_under_its_own_name() {
    let mut state = rocket();
    create_file(FileMetadata::create_dir("d".into()), Some("d"), &mut state.files, &mut state.tree)
        .unwrap();
    create_file(file_node(1, "real", vec![7]), Some("d/other"), &mut state.files, &mut state.tree)
        .unwrap();
    assert!(get_file(Some("d/real"), &state.tree).is_ok());
    assert_eq!(get_file(Some("d/other"), &state.tree), Err(Error::NotFound));
}

#[test]
fn new_file_record_starts_without_completed_chunks() {
    let f = File::new("n".into(), 5, vec![1, 2]);
    assert_eq!(f.name, "n");
    assert_eq!(f.size, 5);
    assert_eq!(f.chunks, vec![1, 2]);
    assert_eq!(f.num_of_completed_chunks, 0);
    assert_eq!(f.status, FileStatus::Started);
    assert!(f.is_wf());
    let node = FileMetadata::create_file("n".into(), 5, vec![1, 2]);
    match node.file_info {
        FileInfo::File(g) => {
            assert_eq!((g.name.as_str(), g.size, g.num_of_completed_chunks), ("n", 5, 0));
            assert_eq!(g.status, FileStatus::Started);
        }
        FileInfo::Directory(_) => panic!("a file node was asked for"),
    }
    assert!(node.children.is_empty());
}

#[test]
fn file_record_validity() {
    let mut f = file(1, "f", vec![1, 2]);
    assert!(f.is_wf());
    f.num_of_completed_chunks = 3;
    assert!(!f.is_wf());
    f.num_of_completed_chunks = 1;
    f.status = FileStatus::Completed;
    assert!(!f.is_wf());
    f.num_of_completed_chunks = 2;
    assert!(f.is_wf());
    f.status = FileStatus::Failed;
    f.num_of_completed_chunks = 0;
    assert!(f.is_wf());
}

#[test]
fn file_completes_exactly_after_the_third_of_three_chunks() {
    let mut files: FilesMap = HashMap::new();
    let mut chunks: ChunksMap = HashMap::new();
    files.insert(7, file(7, "f", vec![1, 2, 3]));
    for (k, chunk_id) in [1u128, 2, 3].into_iter().enumerate() {
        let chunk = Chunk::new(chunk_id, 7, 99, k);
        assert_eq!(signal_chuck_upload_completed(chunk, &mut files, &mut chunks), Ok(()));
        assert_eq!(files[&7].num_of_completed_chunks, k + 1);
        let expected = if k == 2 { FileStatus::Completed } else { FileStatus::Started };
        assert_eq!(files[&7].status, expected);
        assert_eq!(chunks[&chunk_id], chunk);
    }
    assert_eq!(chunks.len(), 3);
}

#[test]
fn report_for_unknown_file_is_not_found_and_stores_nothing() {
    let mut files: FilesMap = HashMap::new();
    let mut chunks: ChunksMap = HashMap::new();
    files.insert(7, file(7, "f", vec![1]));
    let r = signal_chuck_upload_completed(Chunk::new(1, 8, 99, 0), &mut files, &mut chunks);
    assert_eq!(r, Err(Error::NotFound));
    assert!(chunks.is_empty());
    assert_eq!(files[&7].num_of_completed_chunks, 0);
}

#[test]
fn repeated_report_does_not_count_twice() {
    let mut files: FilesMap = HashMap::new();
    let mut chunks: ChunksMap = HashMap::new();
    files.insert(7, file(7, "f", vec![1, 2]));
    let chunk = Chunk::new(1, 7, 99, 0);
    for _ in 0..4 {
        assert_eq!(signal_chuck_upload_completed(chunk, &mut files, &mut chunks), Ok(()));
        assert_eq!(files[&7].num_of_completed_chunks, 1);
        assert_eq!(files[&7].status, FileStatus::Started);
        assert_eq!(chunks.len(), 1);
    }
}

#[test]
fn counter_never_passes_the_number_of_chunks() {
    let mut files: FilesMap = HashMap::new();
    let mut chunks: ChunksMap = HashMap::new();
    files.insert(7, file(7, "f", vec![1, 2]));
    for k in 0..5usize {
        let chunk = Chunk::new(100 + k as u128, 7, 99, 0);
        signal_chuck_upload_completed(chunk, &mut files, &mut chunks).unwrap();
        assert!(files[&7].num_of_completed_chunks <= 2);
        assert!(files[&7].is_wf());
    }
    assert_eq!(files[&7].num_of_completed_chunks, 2);
    assert_eq!(files[&7].status, FileStatus::Completed);
    assert_eq!(chunks.len(), 5);
}

#[test]
fn record_with_a_known_id_but_another_server_is_counted_and_overwrites() {
    let mut files: FilesMap = HashMap::new();
    let mut chunks: ChunksMap = HashMap::new();
    files.insert(7, file(7, "f", vec![1, 2, 3]));
    signal_chuck_upload_completed(Chunk::new(1, 7, 50, 0), &mut files, &mut chunks).unwrap();
    signal_chuck_upload_completed(Chunk::new(1, 7, 60, 0), &mut files, &mut chunks).unwrap();
    assert_eq!(chunks.len(), 1);
    assert_eq!(chunks[&1].server_id, 60);
    assert_eq!(files[&7].num_of_completed_chunks, 2);
}

#[test]
fn chunk_completed_on_a_file_record() {
    let mut f = file(1, "f", vec![1]);
    f.chunk_completed();
    assert_eq!((f.num_of_completed_chunks, f.status), (1, FileStatus::Completed));
    f.chunk_completed();
    assert_eq!((f.num_of_completed_chunks, f.status), (1, FileStatus::Completed));
    let mut empty = file(2, "e", vec![]);
    empty.chunk_completed();
    assert_eq!((empty.num_of_completed_chunks, empty.status), (0, FileStatus::Started));
}

#[test]
fn chunks_of_a_file_are_listed_each_once() {
    let mut chunks: ChunksMap = HashMap::new();
    for (id, file_id, part) in [(1u128, 7u128, 0usize), (2, 7, 1), (3, 8, 0), (4, 7, 1)] {
        chunks.insert(id, Chunk::new(id, file_id, 99, part));
    }
    let mut listed = get_chunks(7, &chunks);
    listed.sort_by_key(|c| c.id);
    assert_eq!(
        listed,
        vec![Chunk::new(1, 7, 99, 0), Chunk::new(2, 7, 99, 1), Chunk::new(4, 7, 99, 1)]
    );
    assert!(get_chunks(9, &chunks).is_empty());
}

#[test]
fn every_stored_chunk_belongs_to_a_recorded_file() {
    let mut state = rocket();
    create_file(file_node(7, "f", vec![1, 2]), Some("f"), &mut state.files, &mut state.tree)
        .unwrap();
    let reports = [Chunk::new(1, 7, 9, 0), Chunk::new(5, 8, 9, 0), Chunk::new(2, 7, 9, 1)];
    for chunk in reports {
        let _ = signal_chuck_upload_completed(chunk, &mut state.files, &mut state.chunks);
        for stored in state.chunks.values() {
            assert!(state.files.contains_key(&stored.file_id));
        }
    }
    assert_eq!(state.chunks.len(), 2);
}
