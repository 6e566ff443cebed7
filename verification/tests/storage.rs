use markdownfs::fs::VirtualFs;
use markdownfs::vcs::revert::restore_from_tree;
use markdownfs::store::blob::BlobStore;
use markdownfs::store::commit::CommitObject;
use markdownfs::store::tree::{TreeEntry, TreeEntryKind, TreeObject};
use markdownfs::store::{ObjectId, ObjectKind};
use markdownfs::vcs::Vcs;

#[test]
fn ids_are_sha256() {
    let id = ObjectId::from_bytes(b"");
    assert_eq!(id.to_hex(), "e3b0c44298fc1c149afbf4c8996fb92427ae41e4649b934ca495991b7852b855");
    assert_eq!(id.short_hex(), "e3b0c442");
    let back = ObjectId::from_hex(&id.to_hex()).unwrap();
    assert_eq!(back, id);
    assert!(ObjectId::from_hex("xyz").is_err());
}

#[test]
fn identical_content_is_stored_once() {
    let mut store = BlobStore::new();
    let a = store.put(b"same", ObjectKind::Blob);
    let b = store.put(b"same", ObjectKind::Blob);
    assert_eq!(a, b);
    assert_eq!(store.object_count(), 1);
    assert_eq!(store.get(&a).unwrap(), b"same");
    store.put(b"other", ObjectKind::Blob);
    assert_eq!(store.object_count(), 2);
}

#[test]
fn store_survives_export_and_import() {
    let mut store = BlobStore::new();
    let a = store.put(b"one", ObjectKind::Blob);
    let t = store.put(b"two", ObjectKind::Tree);
    let vcs = Vcs::from_state(store.export_all(), Some(a.as_bytes().to_vec()), Vec::new()).unwrap();
    assert_eq!(vcs.store.object_count(), 2);
    assert_eq!(vcs.store.get(&t).unwrap(), b"two");
    assert_eq!(vcs.head, Some(a));
    assert!(Vcs::from_state(vec![(vec![1, 2], 0, vec![])], None, Vec::new()).is_err());
}

#[test]
fn tree_objects_round_trip() {
    let id = ObjectId::from_bytes(b"x");
    let tree = TreeObject {
        entries: vec![
            TreeEntry { name: "a.md".to_string(), kind: TreeEntryKind::Blob, id, mode: 0o644, uid: 1, gid: 2 },
            TreeEntry { name: "sub".to_string(), kind: TreeEntryKind::Tree, id, mode: 0o755, uid: 0, gid: 0 },
        ],
    };
    let bytes = tree.serialize();
    let back = TreeObject::deserialize(&bytes).unwrap();
    assert_eq!(back.entries.len(), 2);
    assert_eq!(back.entries[0].name, "a.md");
    assert_eq!(back.entries[1].kind, TreeEntryKind::Tree);
    assert_eq!(back.entries[0].mode, 0o644);
    assert!(TreeObject::deserialize(&bytes[..bytes.len() - 1]).is_err());
}

#[test]
fn commit_objects_round_trip() {
    let c = CommitObject {
        id: ObjectId::from_bytes(b"c"),
        tree: ObjectId::from_bytes(b"t"),
        parent: None,
        timestamp: 1_700_000_000,
        message: "msg".to_string(),
        author: "me".to_string(),
    };
    let back = CommitObject::deserialize(&c.serialize()).unwrap();
    assert_eq!(back.id, c.id);
    assert_eq!(back.tree, c.tree);
    assert_eq!(back.parent, None);
    assert_eq!(back.timestamp, 1_700_000_000);
    assert_eq!(back.message, "msg");
    assert_eq!(back.author, "me");
}

#[test]
fn restoring_a_tree_rebuilds_nested_files() {
    let mut store = BlobStore::new();
    let top = store.put(b"top text", ObjectKind::Blob);
    let deep = store.put(b"deep text", ObjectKind::Blob);
    let inner = TreeObject {
        entries: vec![TreeEntry { name: "b.md".to_string(), kind: TreeEntryKind::Blob, id: deep, mode: 0o600, uid: 0, gid: 0 }],
    };
    let inner_id = store.put(&inner.serialize(), ObjectKind::Tree);
    let root = TreeObject {
        entries: vec![
            TreeEntry { name: "a.md".to_string(), kind: TreeEntryKind::Blob, id: top, mode: 0o644, uid: 0, gid: 0 },
            TreeEntry { name: "d".to_string(), kind: TreeEntryKind::Tree, id: inner_id, mode: 0o700, uid: 0, gid: 0 },
        ],
    };
    let root_id = store.put(&root.serialize(), ObjectKind::Tree);
    let mut fs = VirtualFs::new();
    fs.touch("/old.md", 0, 0).unwrap();
    restore_from_tree(&mut fs, &store, root_id).unwrap();
    assert_eq!(fs.cat("/a.md").unwrap(), b"top text");
    assert_eq!(fs.cat("/d/b.md").unwrap(), b"deep text");
    assert!(fs.cat("/old.md").is_err());
    assert_eq!(fs.stat("/d").unwrap().mode, 0o700);
    assert_eq!(fs.stat("/d/b.md").unwrap().mode, 0o600);
}

#[test]
fn commit_then_revert_gives_files_back() {
    let mut fs = VirtualFs::new();
    fs.mkdir("/d", 0, 0).unwrap();
    fs.touch("/a.md", 0, 0).unwrap();
    fs.touch("/d/b.md", 0, 0).unwrap();
    fs.write_file("/a.md", b"alpha".to_vec()).unwrap();
    fs.write_file("/d/b.md", b"beta".to_vec()).unwrap();
    let mut vcs = Vcs::new();
    let id = vcs.commit(&fs, "both", "root").unwrap();
    fs.write_file("/a.md", b"changed".to_vec()).unwrap();
    fs.rm("/d/b.md").unwrap();
    fs.touch("/new.md", 0, 0).unwrap();
    vcs.revert(&mut fs, &id.to_hex()).unwrap();
    assert_eq!(fs.cat("/a.md").unwrap(), b"alpha");
    assert_eq!(fs.cat("/d/b.md").unwrap(), b"beta");
    assert!(fs.cat("/new.md").is_err());
    assert_eq!(vcs.head, Some(id));
}

#[test]
fn hex_text_keeps_byte_order_and_reads_back() {
    let id = ObjectId::from_bytes(b"abc");
    let hex = id.to_hex();
    assert_eq!(hex, "ba7816bf8f01cfea414140de5dae2223b00361a396177a9cb410ff61f20015ad");
    let back = ObjectId::from_hex(&hex).unwrap();
    assert_eq!(back.to_hex(), hex);
    assert_ne!(ObjectId::from_bytes(b"abd").to_hex(), hex);
    assert!(ObjectId::from_hex(&hex[..63]).is_err());
}

#[test]
fn unchanged_file_system_commits_the_same_tree() {
    let mut fs = VirtualFs::new();
    fs.touch("/a.md", 0, 0).unwrap();
    fs.write_file("/a.md", b"alpha".to_vec()).unwrap();
    let mut vcs = Vcs::new();
    let first = vcs.commit(&fs, "one", "root").unwrap();
    let second = vcs.commit(&fs, "two", "root").unwrap();
    assert_eq!(vcs.commits.len(), 2);
    assert_eq!(vcs.commits[0].tree, vcs.commits[1].tree);
    assert_eq!(vcs.commits[1].parent, Some(first));
    assert_eq!(vcs.head, Some(second));
}

#[test]
fn revert_restores_links_and_root_ownership() {
    let mut fs = VirtualFs::new();
    fs.touch("/t.md", 7, 7).unwrap();
    fs.write_file("/t.md", b"target text".to_vec()).unwrap();
    fs.chmod("/t.md", 0o640).unwrap();
    fs.ln_s("/t.md", "/l.md", 7, 7).unwrap();
    let mut vcs = Vcs::new();
    let id = vcs.commit(&fs, "link", "root").unwrap();
    fs.rm("/l.md").unwrap();
    fs.ln_s("/elsewhere.md", "/l.md", 0, 0).unwrap();
    vcs.revert(&mut fs, &id.to_hex()).unwrap();
    assert_eq!(fs.cat("/l.md").unwrap(), b"target text");
    assert_eq!(fs.stat("/l.md").unwrap().kind, "symlink");
    let t = fs.stat("/t.md").unwrap();
    assert_eq!(t.mode, 0o640);
    assert_eq!((t.uid, t.gid), (0, 0));
}
