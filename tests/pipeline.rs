use std::sync::Arc;

use rduperemove::config::{effective_min_file_size, Configuration, MIN_FILE_SIZE};
use rduperemove::filehasher;
use rduperemove::hash_check::{DigestJobResult, DigestResult, HashCheck};
use rduperemove::size_check::{
    new_check, recurse_directory, remove_repeated_inodes, FileKind, Probe, StatedPath, WalkError,
};
use rduperemove::SharedPath;

fn path(name: &str) -> SharedPath {
    Arc::new(name.as_bytes().to_vec())
}

fn file(name: &str, size: u64, inode: u64) -> StatedPath {
    StatedPath { path: path(name), size, inode }
}

fn names(paths: &[SharedPath]) -> Vec<String> {
    paths.iter().map(|p| String::from_utf8(p.to_vec()).unwrap()).collect()
}

fn ok(id: (usize, usize), digest: &[u8]) -> DigestJobResult {
    DigestJobResult { id, result: DigestResult::Successful(digest.to_vec()) }
}

#[test]
fn walk_rejects_a_root_that_is_not_a_directory() {
    match recurse_directory(path("/etc/passwd"), FileKind::RegularFile) {
        Err(WalkError::NotADirectory(p)) => assert_eq!(names(&[p]), vec!["/etc/passwd"]),
        _ => panic!("expected NotADirectory"),
    }
    assert!(recurse_directory(path("/dev/null"), FileKind::Other).is_err());
}

#[test]
fn walk_visits_depth_first() {
    let mut walk = match recurse_directory(path("/r"), FileKind::Directory) {
        Ok(w) => w,
        Err(_) => panic!("a directory is walked"),
    };
    let root = walk.next_path().unwrap();
    assert_eq!(names(&[root.clone()]), vec!["/r"]);
    let children = vec![path("/r/a"), path("/r/b"), path("/r/l")];
    assert!(walk.visit(root, Probe::Directory(children)).is_none());
    let next = walk.next_path().unwrap();
    assert_eq!(names(&[next.clone()]), vec!["/r/l"]);
    assert!(walk.visit(next, Probe::Other).is_none());
    let next = walk.next_path().unwrap();
    match walk.visit(next, Probe::RegularFile { size: 8192, inode: 12 }) {
        Some(Ok(found)) => {
            assert_eq!(names(&[found.path.clone()]), vec!["/r/b"]);
            assert_eq!(found.size, 8192);
            assert_eq!(found.inode, 12);
        },
        _ => panic!("expected a regular file"),
    }
    let next = walk.next_path().unwrap();
    let failure = WalkError::Io { path: next.clone(), message: "permission denied".to_string() };
    assert!(matches!(walk.visit(next, Probe::Failed(failure)), Some(Err(WalkError::Io { .. }))));
    assert!(walk.next_path().is_none());
}

#[test]
fn hard_links_keep_the_first_path() {
    let kept = remove_repeated_inodes(vec![
        file("a", 8192, 1),
        file("b", 8192, 2),
        file("a2", 8192, 1),
        file("c", 8192, 3),
        file("b2", 8192, 2),
    ]);
    let paths: Vec<SharedPath> = kept.iter().map(|f| f.path.clone()).collect();
    assert_eq!(names(&paths), vec!["a", "b", "c"]);
}

#[test]
fn size_groups_come_largest_first() {
    let mut check = new_check(4096);
    let errors = check.add_base_dir(vec![
        Ok(file("s1", 5000, 1)),
        Ok(file("big1", 1 << 20, 2)),
        Ok(file("tiny1", 100, 3)),
        Ok(file("tiny2", 100, 4)),
        Err(WalkError::Io { path: path("locked"), message: "denied".to_string() }),
        Ok(file("s2", 5000, 5)),
        Ok(file("big2", 1 << 20, 6)),
        Ok(file("lonely", 7000, 7)),
    ]);
    assert_eq!(errors.len(), 1);
    let mut groups = check.size_groups();
    assert_eq!(names(&groups.next().unwrap()), vec!["big1", "big2"]);
    assert_eq!(names(&groups.next().unwrap()), vec!["s1", "s2"]);
    assert!(groups.next().is_none());
    assert!(groups.next().is_none());
}

#[test]
fn three_identical_mebibyte_files_form_one_group() {
    let mut check = new_check(4096);
    check.add_base_dir(vec![
        Ok(file("A", 1_048_576, 10)),
        Ok(file("B", 1_048_576, 11)),
        Ok(file("C", 1_048_576, 12)),
    ]);
    let mut groups = check.size_groups();
    let group = groups.next().unwrap();
    assert_eq!(names(&group), vec!["A", "B", "C"]);
    assert!(groups.next().is_none());

    let mut hashes = HashCheck::new();
    let jobs = hashes.seed_group(group);
    assert_eq!(jobs.len(), 3);
    for (k, job) in jobs.iter().enumerate() {
        assert_eq!(job.id, (0, k));
    }
    assert_eq!(names(&[jobs[1].path.clone()]), vec!["B"]);
    let digest = [7u8; 16];
    assert!(hashes.record(ok((0, 2), &digest)).is_empty());
    assert!(hashes.record(ok((0, 0), &digest)).is_empty());
    let emitted = hashes.record(ok((0, 1), &digest));
    assert_eq!(emitted.len(), 1);
    assert_eq!(names(&emitted[0]), vec!["A", "B", "C"]);
}

#[test]
fn hard_linked_pair_is_not_deduplicated() {
    let mut check = new_check(4096);
    check.add_base_dir(vec![Ok(file("X", 8192, 40)), Ok(file("X'", 8192, 40))]);
    let mut groups = check.size_groups();
    assert!(groups.next().is_none());
}

#[test]
fn different_contents_emit_nothing() {
    let mut hashes = HashCheck::new();
    let jobs = hashes.seed_group(vec![path("p"), path("q")]);
    assert_eq!(jobs.len(), 2);
    assert!(hashes.record(ok((0, 0), &[1u8; 16])).is_empty());
    assert!(hashes.record(ok((0, 1), &[2u8; 16])).is_empty());
    assert!(!hashes.is_outstanding((0, 0)));
}

#[test]
fn digests_split_a_size_group() {
    let mut hashes = HashCheck::new();
    hashes.seed_group(vec![path("x")]);
    hashes.seed_group(vec![path("a"), path("b"), path("c"), path("d"), path("e")]);
    assert!(hashes.is_outstanding((1, 4)));
    assert!(!hashes.is_outstanding((1, 5)));
    assert!(!hashes.is_outstanding((2, 0)));
    assert!(hashes.record(ok((1, 0), b"one")).is_empty());
    assert!(hashes.record(ok((1, 1), b"two")).is_empty());
    assert!(hashes.record(ok((1, 2), b"one")).is_empty());
    assert!(hashes.record(ok((1, 3), b"two")).is_empty());
    assert!(!hashes.is_outstanding((1, 3)));
    let failed = DigestJobResult { id: (1, 4), result: DigestResult::Error("unreadable".to_string()) };
    let emitted = hashes.record(failed);
    assert_eq!(emitted.len(), 2);
    assert_eq!(names(&emitted[0]), vec!["a", "c"]);
    assert_eq!(names(&emitted[1]), vec!["b", "d"]);
    assert!(hashes.is_outstanding((0, 0)));
    assert!(hashes.record(ok((0, 0), b"one")).is_empty());
}

#[test]
fn failed_hash_leaves_a_single_file() {
    let mut hashes = HashCheck::new();
    hashes.seed_group(vec![path("a"), path("b")]);
    assert!(hashes.record(ok((0, 0), b"same")).is_empty());
    let failed = DigestJobResult { id: (0, 1), result: DigestResult::Error("gone".to_string()) };
    assert!(hashes.record(failed).is_empty());
}

fn hex(bytes: &[u8]) -> String {
    bytes.iter().map(|b| format!("{:02x}", b)).collect()
}

#[test]
fn hasher_gives_md5() {
    let mut hasher = filehasher::new(64);
    assert_eq!(hex(&hasher.finish()), "d41d8cd98f00b204e9800998ecf8427e");
    hasher.buffer_mut()[..3].copy_from_slice(b"abc");
    hasher.consume(3);
    assert_eq!(hasher.fed_len(), 3);
    assert_eq!(hex(&hasher.finish()), "900150983cd24fb0d6963f7d28e17f72");
    assert_eq!(hasher.fed_len(), 0);
}

#[test]
fn hasher_chunks_join() {
    let content = "foo bar baz".repeat(1_000);
    let mut whole = filehasher::new(content.len());
    whole.buffer_mut().copy_from_slice(content.as_bytes());
    whole.consume(content.len());
    let mut chunked = filehasher::new(4096);
    for chunk in content.as_bytes().chunks(4096) {
        chunked.buffer_mut()[..chunk.len()].copy_from_slice(chunk);
        chunked.consume(chunk.len());
    }
    assert_eq!(whole.finish(), chunked.finish());
}

#[test]
fn min_file_size_is_raised_to_the_dedup_unit() {
    assert_eq!(effective_min_file_size(100), 4096);
    assert_eq!(effective_min_file_size(0), MIN_FILE_SIZE);
    assert_eq!(effective_min_file_size(5000), 5000);
    let config = Configuration::new(vec![path("/data")], 4, 10);
    assert_eq!(config.min_file_size, 4096);
    assert_eq!(config.worker_count, 4);
    assert_eq!(config.base_dirs.len(), 1);
}
