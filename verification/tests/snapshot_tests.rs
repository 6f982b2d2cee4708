use zerobox::budget::{BudgetError, WalkBudget};
use zerobox::diff::compute_changes;
use zerobox::display::{
    dim, format_change_counts, format_change_counts_colored, format_relative_time, green, red,
    relative_label, truncate_command, yellow,
};
use zerobox::exclusion::{default_exclusions, matches_any_pattern, ExclusionConfig, ExclusionFilter};
use zerobox::file_map::{FileEntry, FileMap};
use zerobox::manager::{SnapshotManager, WalkTally};
use zerobox::merkle::{compute_leaf, empty_root, merkle_leaves, Blake3Rfc6962};
use zerobox::restore::{restore_deletions, restore_diff, restore_writes, validate_manifest_paths, ManifestError};
use zerobox::snapshot_types::{Change, ChangeType, ContentHash, FileState, SnapshotManifest};
use zerobox::store::{compress, decompress, hash_content, open_blob, seal, ObjectStore, StoreError};

fn make_filter(patterns: Vec<&str>) -> ExclusionFilter {
    let config = ExclusionConfig {
        use_gitignore: false,
        exclude_patterns: patterns.into_iter().map(String::from).collect(),
        exclude_globs: Vec::new(),
        force_include: Vec::new(),
    };
    ExclusionFilter::new(&config).unwrap()
}

fn state(hash_byte: u8, size: u64, permissions: u32) -> FileState {
    FileState { hash: ContentHash::from_bytes([hash_byte; 32]), size, mtime: 1000, permissions }
}

fn map(entries: &[(&str, FileState)]) -> FileMap {
    let mut m = FileMap::new();
    for (p, s) in entries {
        m.insert(p.to_string(), *s);
    }
    m
}

// ── budget ──

#[test]
fn default_budget_allows_small_walks() {
    let budget = WalkBudget::default();
    assert!(budget.check(100, 1024).is_ok());
}

#[test]
fn entry_limit_exceeded() {
    let budget = WalkBudget { max_entries: 10, max_bytes: 0 };
    assert!(budget.check(11, 0).is_err());
}

#[test]
fn byte_limit_exceeded() {
    let budget = WalkBudget { max_entries: 0, max_bytes: 1000 };
    assert!(budget.check(1, 1001).is_err());
}

#[test]
fn unlimited_budget_always_ok() {
    let budget = WalkBudget { max_entries: 0, max_bytes: 0 };
    assert!(budget.check(999_999, 999_999_999).is_ok());
}

#[test]
fn budget_messages() {
    let e = WalkBudget { max_entries: 10, max_bytes: 0 }.check(11, 0).unwrap_err();
    assert_eq!(e, BudgetError::EntryLimit { entries: 11, max: 10 });
    assert_eq!(
        e.message(),
        "rollback walk exceeded entry limit (11 > 10). Add exclusion patterns with --rollback-exclude or disable with --no-rollback."
    );
    let e = WalkBudget { max_entries: 0, max_bytes: 1000 }.check(1, 1001).unwrap_err();
    assert_eq!(
        e.message(),
        "rollback walk exceeded byte limit (1001 > 1000 bytes). Add exclusion patterns with --rollback-exclude or disable with --no-rollback."
    );
}

#[test]
fn walk_tally_counts_then_checks() {
    let budget = WalkBudget { max_entries: 2, max_bytes: 0 };
    let mut tally = WalkTally::new();
    assert!(tally.record(&budget, 10).is_ok());
    assert!(tally.record(&budget, 20).is_ok());
    assert!(tally.record(&budget, 30).is_err());
    assert_eq!(tally.entries, 3);
    assert_eq!(tally.bytes, 60);
}

// ── exclusion ──

#[test]
fn component_pattern_matches() {
    let filter = make_filter(vec!["node_modules", ".DS_Store"]);
    assert!(filter.is_excluded("project/node_modules/pkg/index.js"));
    assert!(filter.is_excluded("a/.DS_Store"));
}

#[test]
fn slash_pattern_matches_as_substring() {
    let filter = make_filter(vec![".git/objects"]);
    assert!(filter.is_excluded("project/.git/objects/ab/cdef"));
    assert!(!filter.is_excluded("project/.git/config"));
}

#[test]
fn normal_files_not_excluded() {
    let filter = make_filter(vec!["node_modules"]);
    assert!(!filter.is_excluded("src/main.rs"));
    assert!(!filter.is_excluded("README.md"));
}

#[test]
fn empty_patterns_excludes_nothing() {
    let filter = make_filter(vec![]);
    assert!(!filter.is_excluded("anything/at/all"));
}

#[test]
fn force_include_overrides_patterns() {
    let config = ExclusionConfig {
        use_gitignore: false,
        exclude_patterns: vec!["build".to_string()],
        exclude_globs: Vec::new(),
        force_include: vec!["build".to_string()],
    };
    let filter = ExclusionFilter::new(&config).unwrap();
    assert!(!filter.is_excluded("project/build/output.js"));
}

#[test]
fn glob_pattern_matches_filename() {
    let config = ExclusionConfig {
        use_gitignore: false,
        exclude_patterns: Vec::new(),
        exclude_globs: vec!["*.tmp".to_string()],
        force_include: Vec::new(),
    };
    let filter = ExclusionFilter::new(&config).unwrap();
    assert!(filter.is_excluded("project/data.tmp"));
    assert!(!filter.is_excluded("project/data.txt"));
}

#[test]
fn force_include_matches_path_component() {
    let config = ExclusionConfig {
        use_gitignore: false,
        exclude_patterns: vec!["vendor".to_string()],
        exclude_globs: Vec::new(),
        force_include: vec!["important".to_string()],
    };
    let filter = ExclusionFilter::new(&config).unwrap();
    assert!(!filter.is_excluded("vendor/important/lib.rs"));
}

#[test]
fn force_include_rejects_substring_match() {
    let config = ExclusionConfig {
        use_gitignore: false,
        exclude_patterns: vec!["vendor".to_string()],
        exclude_globs: Vec::new(),
        force_include: vec!["app".to_string()],
    };
    let filter = ExclusionFilter::new(&config).unwrap();
    assert!(filter.is_excluded("vendor/myapp/file.txt"));
    assert!(!filter.is_excluded("vendor/app/file.txt"));
}

#[test]
fn invalid_glob_is_refused() {
    let config = ExclusionConfig {
        use_gitignore: false,
        exclude_patterns: Vec::new(),
        exclude_globs: vec!["a[".to_string()],
        force_include: Vec::new(),
    };
    assert!(ExclusionFilter::new(&config).is_err());
}

#[test]
fn cloned_filter_matches_as_the_original() {
    let config = ExclusionConfig {
        use_gitignore: false,
        exclude_patterns: vec!["vendor".to_string()],
        exclude_globs: vec!["*.tmp".to_string(), "*.log".to_string()],
        force_include: vec!["keep.log".to_string()],
    };
    let filter = ExclusionFilter::new(&config).unwrap();
    let copy = filter.clone();
    for path in ["a/b.tmp", "a/b.log", "a/keep.log", "vendor/x.rs", "src/main.rs"] {
        assert_eq!(copy.is_excluded(path), filter.is_excluded(path));
    }
    assert!(copy.is_excluded("a/b.log"));
    assert!(!copy.is_excluded("a/keep.log"));
}

#[test]
fn default_exclusion_list() {
    let d = default_exclusions();
    assert_eq!(d.len(), 12);
    assert_eq!(d[0], ".git");
    assert_eq!(d[11], "Thumbs.db");
    assert!(matches_any_pattern("x/target/debug", &d));
    assert!(!matches_any_pattern("x/targets/debug", &d));
    assert!(ExclusionConfig::default().use_gitignore);
}

// ── content hashes ──

#[test]
fn content_hash_hex_roundtrip() {
    let bytes = [0xab; 32];
    let hash = ContentHash::from_bytes(bytes);
    let hex = hash.to_string();
    let parsed: ContentHash = hex.parse().unwrap();
    assert_eq!(hash, parsed);
}

#[test]
fn content_hash_prefix_suffix() {
    let mut bytes = [0u8; 32];
    bytes[0] = 0xab;
    bytes[1] = 0xcd;
    let hash = ContentHash::from_bytes(bytes);
    assert_eq!(hash.prefix(), "ab");
    assert!(hash.suffix().starts_with("cd"));
    assert_eq!(hash.suffix().len(), 62);
}

#[test]
fn content_hash_invalid_length() {
    assert!("abc".parse::<ContentHash>().is_err());
}

#[test]
fn content_hash_invalid_hex() {
    let bad = "zz".repeat(32);
    assert!(bad.parse::<ContentHash>().is_err());
}

#[test]
fn content_hash_accepts_upper_case_and_prefix() {
    let upper = format!("0x{}", "AB".repeat(32));
    assert_eq!(ContentHash::from_hex(&upper).unwrap(), ContentHash::from_bytes([0xab; 32]));
}

#[test]
fn change_type_display() {
    assert_eq!(ChangeType::Created.to_string(), "+");
    assert_eq!(ChangeType::Modified.to_string(), "~");
    assert_eq!(ChangeType::Deleted.to_string(), "-");
    assert_eq!(ChangeType::PermissionsChanged.to_string(), "p");
}

// ── object store ──

#[test]
fn store_and_retrieve_bytes() {
    let data = b"hello world";
    let (hash, blob) = seal(data);
    let retrieved = open_blob(&hash, &blob).unwrap();
    assert_eq!(retrieved, data);
}

#[test]
fn deduplication() {
    let data = b"duplicate content";
    let hash1 = hash_content(data);
    let hash2 = hash_content(data);
    assert_eq!(hash1, hash2);
}

#[test]
fn compression_roundtrip() {
    let data = b"hello world this is a test of lz4 compression with enough data to compress";
    let compressed = compress(data);
    let decompressed = decompress(&compressed).unwrap();
    assert_eq!(decompressed, data);
}

#[test]
fn tiny_blobs_stored_raw() {
    let data = b"tiny";
    let blob = compress(data);
    assert_eq!(&blob[..4], &[0, 0, 0, 0]);
}

#[test]
fn compressible_content_uses_lz4_header() {
    let data = vec![b'a'; 4096];
    let blob = compress(&data);
    assert_eq!(&blob[..4], b"LZ4T");
    assert!(blob.len() < data.len());
    assert_eq!(decompress(&blob).unwrap(), data);
}

#[test]
fn short_and_corrupt_blobs_fail() {
    assert!(matches!(decompress(&[0, 0]), Err(StoreError::BlobTooShort)));
    assert!(matches!(decompress(b"LZ4T\x05\x00\x00\x00\xff"), Err(StoreError::Decompress(_))));
    let (hash, mut blob) = seal(b"verify this");
    let last = blob.len() - 1;
    blob[last] ^= 0xff;
    assert!(matches!(open_blob(&hash, &blob), Err(StoreError::IntegrityMismatch { .. })));
}

#[test]
fn sharded_directory_layout() {
    let store = ObjectStore::new("/tmp/store");
    let hash = hash_content(b"check layout");
    let obj_path = std::path::PathBuf::from(store.object_path(&hash));
    let parent = obj_path.parent().unwrap();
    assert_eq!(parent.file_name().unwrap().len(), 2);
    assert_eq!(store.objects_dir(), "/tmp/store/objects");
    assert_eq!(obj_path.file_name().unwrap().len(), 62);
}

// ── merkle ──

#[test]
fn merkle_hashes() {
    let h = ContentHash::from_bytes([0x01; 32]);
    let leaf = compute_leaf("a.txt", &h);
    let mut input = vec![0u8];
    input.extend_from_slice(b"a.txt");
    input.extend_from_slice(&[0x01; 32]);
    assert_eq!(leaf, *blake3::hash(&input).as_bytes());
    assert_eq!(Blake3Rfc6962::concat_and_hash(&leaf, None), leaf);
    let mut node = vec![1u8];
    node.extend_from_slice(&leaf);
    node.extend_from_slice(&leaf);
    assert_eq!(Blake3Rfc6962::concat_and_hash(&leaf, Some(&leaf)), *blake3::hash(&node).as_bytes());
    assert_eq!(*empty_root().as_bytes(), *blake3::hash(b"").as_bytes());
    let files = map(&[("b.txt", state(2, 1, 0o644)), ("a.txt", state(1, 1, 0o644))]);
    let leaves = merkle_leaves(&files);
    assert_eq!(leaves.len(), 2);
    assert_eq!(leaves[0], leaf);
}

#[test]
fn empty_tree_has_deterministic_root() {
    let files = FileMap::new();
    assert!(merkle_leaves(&files).is_empty());
    let root1 = empty_root();
    let root2 = empty_root();
    assert_eq!(root1.as_bytes(), root2.as_bytes());
}

#[test]
fn single_file_tree() {
    let files = map(&[("a.txt", state(0x01, 100, 0o644))]);
    let leaves = merkle_leaves(&files);
    let expected = compute_leaf("a.txt", &ContentHash::from_bytes([0x01; 32]));
    assert_eq!(leaves, vec![expected]);
    assert_eq!(Blake3Rfc6962::concat_and_hash(&leaves[0], None), expected);
}

// ── diffs and restores ──

#[test]
fn reversed_diff_names_paths_as_each_side_writes_them() {
    let a = map(&[("x/a", state(1, 10, 0o644)), ("x/b", state(2, 3, 0o644))]);
    let b = map(&[("x//a", state(5, 4, 0o644))]);
    let forward = compute_changes(&a, &b);
    let backward = compute_changes(&b, &a);
    assert_eq!(forward.len(), 2);
    assert_eq!(backward.len(), 2);
    assert_eq!(forward[0].path, "x/a");
    assert_eq!(backward[0].path, "x//a");
    for (f, r) in forward.iter().zip(backward.iter()) {
        assert_eq!(std::path::Path::new(&f.path), std::path::Path::new(&r.path));
        assert_eq!(f.old_hash, r.new_hash);
        assert_eq!(f.new_hash, r.old_hash);
        assert_eq!(f.size_delta.map(|d| -d), r.size_delta);
    }
    assert_eq!(backward[1].change_type, ChangeType::Created);
}

#[test]
fn one_rewritten_file_is_one_modified_change() {
    let before = map(&[("x/a", state(1, 5, 0o644)), ("x/b", state(2, 5, 0o644)), ("x/c", state(3, 5, 0o644))]);
    let after = map(&[("x/a", state(1, 5, 0o644)), ("x/b", state(9, 12, 0o644)), ("x/c", state(3, 5, 0o644))]);
    let changes = compute_changes(&before, &after);
    assert_eq!(changes.len(), 1);
    assert_eq!(changes[0].path, "x/b");
    assert_eq!(changes[0].change_type, ChangeType::Modified);
    assert_eq!(changes[0].size_delta, Some(7));
    assert_eq!(changes[0].old_hash, Some(ContentHash::from_bytes([2; 32])));
    assert_eq!(changes[0].new_hash, Some(ContentHash::from_bytes([9; 32])));
}

#[test]
fn second_restore_plans_nothing() {
    let target = map(&[("/w/a", state(1, 10, 0o644)), ("/w/b", state(2, 10, 0o644))]);
    let current = map(&[("/w/a", state(7, 10, 0o644)), ("/w/c", state(3, 4, 0o644))]);
    assert!(!restore_writes(&target, &current).is_empty());
    let restored = map(&[("/w/a", state(1, 10, 0o644)), ("/w/b", state(2, 10, 0o644))]);
    assert!(restore_writes(&target, &restored).is_empty());
    assert!(restore_deletions(&target, &restored).is_empty());
}

#[test]
fn reversed_diff_reverses_every_change() {
    let a = map(&[("a.txt", state(1, 10, 0o644)), ("b.txt", state(2, 5, 0o644)), ("c.txt", state(3, 7, 0o644))]);
    let b = map(&[("a.txt", state(9, 4, 0o644)), ("c.txt", state(3, 7, 0o755)), ("d.txt", state(4, 8, 0o644))]);
    let forward = compute_changes(&a, &b);
    let backward = compute_changes(&b, &a);
    assert_eq!(forward.len(), 4);
    assert_eq!(backward.len(), forward.len());
    for (f, r) in forward.iter().zip(backward.iter()) {
        assert_eq!(f.path, r.path);
        assert_eq!(f.old_hash, r.new_hash);
        assert_eq!(f.new_hash, r.old_hash);
        assert_eq!(f.size_delta.map(|d| -d), r.size_delta);
        let expected = match f.change_type {
            ChangeType::Created => ChangeType::Deleted,
            ChangeType::Deleted => ChangeType::Created,
            other => other,
        };
        assert_eq!(r.change_type, expected);
    }
    assert_eq!(forward[0].change_type, ChangeType::Modified);
    assert_eq!(forward[0].size_delta, Some(-6));
    assert_eq!(backward[1].change_type, ChangeType::Created);
    assert_eq!(backward[1].size_delta, Some(5));
}

#[test]
fn changes_are_sorted_and_typed() {
    let prev = map(&[("a", state(1, 10, 0o644)), ("b", state(2, 10, 0o644)), ("c", state(3, 10, 0o644))]);
    let cur = map(&[("a", state(9, 15, 0o644)), ("c", state(3, 10, 0o755)), ("d", state(4, 7, 0o644))]);
    let changes = compute_changes(&prev, &cur);
    let kinds: Vec<(String, ChangeType, Option<i64>)> =
        changes.iter().map(|c| (c.path.clone(), c.change_type, c.size_delta)).collect();
    assert_eq!(
        kinds,
        vec![
            ("a".to_string(), ChangeType::Modified, Some(5)),
            ("b".to_string(), ChangeType::Deleted, Some(-10)),
            ("c".to_string(), ChangeType::PermissionsChanged, Some(0)),
            ("d".to_string(), ChangeType::Created, Some(7)),
        ]
    );
}

#[test]
fn incremental_no_changes_produces_empty_diff() {
    let files = map(&[("x/file1.txt", state(1, 5, 0o644)), ("x/file2.txt", state(2, 5, 0o644))]);
    assert!(compute_changes(&files, &files).is_empty());
}

#[test]
fn restore_plans() {
    let target = map(&[("/w/a", state(1, 10, 0o644)), ("/w/b", state(2, 10, 0o644))]);
    let current = map(&[("/w/a", state(7, 10, 0o644)), ("/w/c", state(3, 4, 0o644))]);
    let writes = restore_writes(&target, &current);
    assert_eq!(writes.len(), 2);
    assert_eq!(writes[0].change_type, ChangeType::Modified);
    assert_eq!(writes[0].old_hash, Some(ContentHash::from_bytes([7; 32])));
    assert_eq!(writes[1].change_type, ChangeType::Created);
    let deletions = restore_deletions(&target, &current);
    assert_eq!(deletions.len(), 1);
    assert_eq!(deletions[0].path, "/w/c");
    let preview = restore_diff(&target, &current);
    let kinds: Vec<(String, ChangeType)> = preview.iter().map(|c: &Change| (c.path.clone(), c.change_type)).collect();
    assert_eq!(
        kinds,
        vec![
            ("/w/a".to_string(), ChangeType::Modified),
            ("/w/b".to_string(), ChangeType::Created),
            ("/w/c".to_string(), ChangeType::Deleted),
        ]
    );
    assert!(restore_writes(&target, &target).is_empty());
    assert!(restore_deletions(&target, &target).is_empty());
}

#[test]
fn dry_run_announces_exactly_what_restore_applies() {
    let target = map(&[("/w/a", state(1, 10, 0o644)), ("/w/b", state(2, 10, 0o644)), ("/w/d", state(4, 1, 0o644))]);
    let current = map(&[("/w/a", state(7, 10, 0o644)), ("/w/c", state(3, 4, 0o644)), ("/w/d", state(4, 1, 0o600))]);
    let mut applied: Vec<(String, ChangeType)> = restore_writes(&target, &current)
        .iter()
        .chain(restore_deletions(&target, &current).iter())
        .map(|c: &Change| (c.path.clone(), c.change_type))
        .collect();
    applied.sort_by(|x, y| x.0.cmp(&y.0));
    let announced: Vec<(String, ChangeType)> =
        restore_diff(&target, &current).iter().map(|c: &Change| (c.path.clone(), c.change_type)).collect();
    assert_eq!(announced, applied);
    assert_eq!(announced.len(), 3);
}

#[test]
fn file_map_insertion_order_independent() {
    let a = map(&[("b.txt", state(2, 1, 0o644)), ("a.txt", state(1, 1, 0o644)), ("c/d", state(3, 1, 0o644))]);
    let b = map(&[("c/d", state(3, 1, 0o644)), ("a.txt", state(1, 1, 0o644)), ("b.txt", state(2, 1, 0o644))]);
    let pa: Vec<String> = a.entries().iter().map(|e| e.path.clone()).collect();
    let pb: Vec<String> = b.entries().iter().map(|e| e.path.clone()).collect();
    assert_eq!(pa, vec!["a.txt".to_string(), "b.txt".to_string(), "c/d".to_string()]);
    assert_eq!(pa, pb);
    assert_eq!(merkle_leaves(&a), merkle_leaves(&b));
    // a second entry for the same path keeps the first key text
    let mut m = FileMap::new();
    m.insert("x/y".to_string(), state(1, 1, 0o644));
    m.insert("x//y".to_string(), state(2, 1, 0o644));
    assert_eq!(m.len(), 1);
    assert_eq!(m.entries()[0].path, "x/y");
    assert_eq!(m.entries()[0].state.hash, ContentHash::from_bytes([2; 32]));
}

#[test]
fn file_map_from_sorted_entries() {
    let e = |p: &str, b: u8| FileEntry { path: p.to_string(), state: state(b, 1, 0o644) };
    let m = FileMap::from_sorted(vec![e("a", 1), e("a/b", 2), e("b", 3)]).unwrap();
    assert_eq!(m.len(), 3);
    assert_eq!(m.get("a/b").unwrap().hash, ContentHash::from_bytes([2; 32]));
    assert!(FileMap::from_sorted(vec![e("b", 1), e("a", 2)]).is_none());
    assert!(FileMap::from_sorted(vec![e("a/b", 1), e("a//b", 2)]).is_none());
    assert!(FileMap::from_sorted(Vec::new()).unwrap().is_empty());
}

#[test]
fn diff_replays_onto_previous() {
    let prev = map(&[("a", state(1, 5, 0o644)), ("b", state(2, 5, 0o644)), ("c", state(3, 5, 0o644))]);
    let cur = map(&[("a", state(1, 5, 0o755)), ("c", state(9, 7, 0o644)), ("d", state(4, 1, 0o644))]);
    let mut tree: std::collections::BTreeMap<String, ContentHash> =
        prev.entries().iter().map(|e| (e.path.clone(), e.state.hash)).collect();
    for c in compute_changes(&prev, &cur) {
        match c.new_hash {
            Some(h) => {
                tree.insert(c.path.clone(), h);
            }
            None => {
                tree.remove(&c.path);
            }
        }
    }
    let wanted: std::collections::BTreeMap<String, ContentHash> =
        cur.entries().iter().map(|e| (e.path.clone(), e.state.hash)).collect();
    assert_eq!(tree, wanted);
}

#[test]
fn restore_plan_reaches_target() {
    let target = map(&[("/w/a", state(1, 10, 0o644)), ("/w/b", state(2, 10, 0o644)), ("/w/d", state(4, 1, 0o644))]);
    let current = map(&[("/w/a", state(7, 10, 0o644)), ("/w/c", state(3, 4, 0o644)), ("/w/d", state(4, 1, 0o600))]);
    let mut tree: std::collections::BTreeMap<String, ContentHash> =
        current.entries().iter().map(|e| (e.path.clone(), e.state.hash)).collect();
    for w in restore_writes(&target, &current) {
        tree.insert(w.path.clone(), w.new_hash.unwrap());
    }
    for d in restore_deletions(&target, &current) {
        tree.remove(&d.path);
    }
    let wanted: std::collections::BTreeMap<String, ContentHash> =
        target.entries().iter().map(|e| (e.path.clone(), e.state.hash)).collect();
    assert_eq!(tree, wanted);
}

#[test]
fn validate_rejects_parent_dir_traversal() {
    let files = map(&[("/work/../etc/passwd", state(1, 1, 0o644))]);
    match validate_manifest_paths(&["/work".to_string()], &files) {
        Err(e @ ManifestError::ParentDirTraversal(_)) => {
            assert_eq!(e.message(), "manifest contains path with parent directory traversal: /work/../etc/passwd")
        }
        other => panic!("unexpected {:?}", other),
    }
}

#[test]
fn validate_rejects_path_outside_tracked() {
    let files = map(&[("/etc/passwd", state(1, 1, 0o644))]);
    match validate_manifest_paths(&["/work".to_string()], &files) {
        Err(e @ ManifestError::OutsideTracked(_)) => {
            assert_eq!(e.message(), "manifest contains path outside tracked directories: /etc/passwd")
        }
        other => panic!("unexpected {:?}", other),
    }
    let inside = map(&[("/work/src/main.rs", state(1, 1, 0o644))]);
    assert!(validate_manifest_paths(&["/work".to_string()], &inside).is_ok());
}

#[test]
fn manager_numbers_snapshots() {
    let filter = make_filter(vec!["node_modules"]);
    let mut mgr = SnapshotManager::new("/s".to_string(), vec!["/work".to_string()], filter, WalkBudget::default());
    assert_eq!(mgr.snapshot_count(), 0);
    assert_eq!(mgr.manifest_path(0), "/s/snapshots/000.json");
    assert_eq!(mgr.changes_path(12), "/s/changes/012.json");
    assert_eq!(mgr.manifest_path(1234), "/s/snapshots/1234.json");
    assert_eq!(mgr.session_file(), "/s/session.json");
    assert_eq!(mgr.store().objects_dir(), "/s/cache/objects");
    assert!(mgr.is_excluded("/work/node_modules/x.js"));
    let files = map(&[("/work/a", state(1, 1, 0o644))]);
    let base = mgr.finish_baseline(files.clone(), empty_root(), "1".to_string());
    assert_eq!(base.number, 0);
    assert_eq!(mgr.snapshot_count(), 1);
    let next_files = map(&[("/work/a", state(2, 1, 0o644))]);
    let (next, changes): (SnapshotManifest, Vec<Change>) =
        mgr.finish_incremental(&base, next_files, empty_root(), "2".to_string());
    assert_eq!(next.number, 1);
    assert_eq!(next.parent, Some(0));
    assert_eq!(changes.len(), 1);
    assert_eq!(mgr.snapshot_count(), 2);
    assert!(mgr.validate_manifest_paths(&next).is_ok());
    let (writes, deletions) = mgr.plan_restore(&base, &next.files).unwrap();
    assert_eq!(writes.len(), 1);
    assert!(deletions.is_empty());
    assert_eq!(mgr.restore_preview(&base, &next.files).unwrap().len(), 1);
}

// ── display ──

#[test]
fn command_truncation() {
    let cmd = vec!["node".to_string(), "script.js".to_string()];
    assert_eq!(truncate_command(&cmd, 50), "node script.js");
    assert_eq!(truncate_command(&cmd, 8), "node ...");
    assert_eq!(truncate_command(&cmd, 2), "...");
}

#[test]
fn change_counts() {
    assert_eq!(format_change_counts(&[]), "(no changes)");
    assert_eq!(format_change_counts_colored(&[]), "\x1b[2m(no changes)\x1b[0m");
    let mk = |t: ChangeType| Change { path: "p".to_string(), change_type: t, size_delta: None, old_hash: None, new_hash: None };
    let changes = vec![
        mk(ChangeType::Created),
        mk(ChangeType::Modified),
        mk(ChangeType::PermissionsChanged),
        mk(ChangeType::Created),
    ];
    assert_eq!(format_change_counts(&changes), "+2 ~2");
    assert_eq!(format_change_counts_colored(&changes), "\x1b[32m+2\x1b[0m \x1b[33m~2\x1b[0m");
    assert_eq!(format_change_counts(&[mk(ChangeType::Deleted)]), "-1");
    assert_eq!(dim("x"), "\x1b[2mx\x1b[0m");
    assert_eq!(green("x"), "\x1b[32mx\x1b[0m");
    assert_eq!(yellow("x"), "\x1b[33mx\x1b[0m");
    assert_eq!(red("x"), "\x1b[31mx\x1b[0m");
}

#[test]
fn relative_times() {
    assert_eq!(relative_label(-5, "abs".to_string()), "abs");
    assert_eq!(relative_label(59, "abs".to_string()), "just now");
    assert_eq!(relative_label(60, "abs".to_string()), "1m ago");
    assert_eq!(relative_label(3599, "abs".to_string()), "59m ago");
    assert_eq!(relative_label(7200, "abs".to_string()), "2h ago");
    assert_eq!(relative_label(86400 * 3, "abs".to_string()), "3d ago");
    assert_eq!(relative_label(86400 * 7, "abs".to_string()), "abs");
    assert_eq!(format_relative_time("not a date"), "not a date");
    assert_eq!(format_relative_time("2000-01-02T03:04:05Z"), "2000-01-02 03:04");
}
