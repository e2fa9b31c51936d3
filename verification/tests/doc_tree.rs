use agentsync_core::doc::replica::{
    create_label, delete_label, doc_labels, file_changes, int_field, new_doc, open_doc, read_tree, receive_sync,
    str_field, sync_message_for, tree_at, vault_id_of, write_tree, AmScalar,
};
use agentsync_core::doc::history::{
    decode_b64_heads, decode_heads, encode_heads, b64_heads, heads_at_time, list_labels, Change,
    LabelTime, LabelValue,
};
use agentsync_core::doc::{content_hash, DocTree, FileKind};
use agentsync_core::error::Error;

#[test]
fn file_kind_names() {
    assert_eq!(FileKind::Text.as_str(), "text");
    assert_eq!(FileKind::Attachment.as_str(), "attachment");
    assert_eq!(FileKind::parse("text").unwrap(), FileKind::Text);
    assert_eq!(FileKind::parse("attachment").unwrap(), FileKind::Attachment);
    assert!(matches!(FileKind::parse("blob"), Err(Error::Other(_))));
}

#[test]
fn content_hash_is_sha256_hex() {
    assert_eq!(
        content_hash(b"abc"),
        "ba7816bf8f01cfea414140de5dae2223b00361a396177a9cb410ff61f20015ad"
    );
}

#[test]
fn write_read_and_ancestors() {
    let mut t = DocTree::new();
    let id = t.write_text_file("a/b/c.md", "hello", 10).unwrap();
    assert_eq!(t.read_file("a/b/c.md").unwrap(), "hello");
    assert_eq!(t.read_file("./a\\b/c.md").unwrap(), "hello");
    let dirs: Vec<String> = t.list_directories().into_iter().map(|d| d.path).collect();
    assert_eq!(dirs, vec!["a", "a/b"]);
    let id2 = t.write_text_file("a/b/c.md", "bye", 11).unwrap();
    assert_eq!(id, id2);
    assert_eq!(t.read_file("a/b/c.md").unwrap(), "bye");
    assert_eq!(t.list_files()[0].size, 3);
    assert!(matches!(t.read_file("nope.md"), Err(Error::NotFound(_))));
}

#[test]
fn rename_file_rules() {
    let mut t = DocTree::new();
    t.write_text_file("a.md", "1", 1).unwrap();
    t.write_text_file("b.md", "2", 1).unwrap();
    assert!(matches!(t.rename_file("a.md", "b.md", 2), Err(Error::AlreadyExists(_))));
    assert!(matches!(t.rename_file("x.md", "y.md", 2), Err(Error::NotFound(_))));
    t.rename_file("a.md", "d/a.md", 3).unwrap();
    assert!(!t.file_exists("a.md"));
    assert_eq!(t.read_file("d/a.md").unwrap(), "1");
    assert!(t.find_directory_by_path("d").unwrap().is_some());
}

#[test]
fn delete_directory_cascades_only_when_recursive() {
    let mut t = DocTree::new();
    t.write_text_file("d/x.md", "x", 1).unwrap();
    t.create_directory("d/e", 1).unwrap();
    assert!(matches!(t.delete_directory("d", false, 2), Err(Error::Other(_))));
    assert!(t.file_exists("d/x.md"));
    t.delete_directory("d", true, 3).unwrap();
    assert!(!t.file_exists("d/x.md"));
    assert!(t.find_directory_by_path("d").unwrap().is_none());
    assert!(t.find_directory_by_path("d/e").unwrap().is_none());
}

#[test]
fn rename_directory_moves_children() {
    let mut t = DocTree::new();
    t.write_text_file("a/x.md", "x", 1).unwrap();
    t.write_text_file("a/s/y.md", "y", 1).unwrap();
    t.write_text_file("ab/z.md", "z", 1).unwrap();
    t.rename_directory("a", "q/r", 5).unwrap();
    assert_eq!(t.read_file("q/r/x.md").unwrap(), "x");
    assert_eq!(t.read_file("q/r/s/y.md").unwrap(), "y");
    assert_eq!(t.read_file("ab/z.md").unwrap(), "z");
    assert!(!t.file_exists("a/x.md"));
    assert!(t.find_directory_by_path("q/r/s").unwrap().is_some());
    assert!(t.find_directory_by_path("q").unwrap().is_some());
}

#[test]
fn attachments_and_hashes() {
    let mut t = DocTree::new();
    t.write_attachment("img/p.png", "h123", 4, 1).unwrap();
    assert_eq!(t.file_hash("img/p.png").unwrap(), "h123");
    t.write_text_file("n.md", "abc", 1).unwrap();
    assert_eq!(t.file_hash("n.md").unwrap(), content_hash(b"abc"));
    assert!(t.read_file("img/p.png").is_err());
}

#[test]
fn delete_file_and_restore() {
    let mut t = DocTree::new();
    t.write_text_file("a.md", "one", 1).unwrap();
    let mut past = DocTree::new();
    past.write_text_file("a.md", "one", 1).unwrap();
    let fid = t.find_file_by_path("a.md").unwrap().unwrap();
    past.files[0].meta.id = fid.clone();
    t.write_text_file("a.md", "two", 2).unwrap();
    t.write_text_file("b.md", "new", 2).unwrap();
    t.restore_to(&past, 9);
    assert_eq!(t.read_file("a.md").unwrap(), "one");
    assert!(!t.file_exists("b.md"));
    t.delete_file("a.md", 10).unwrap();
    assert!(matches!(t.delete_file("a.md", 11), Err(Error::NotFound(_))));
}

#[test]
fn list_files_sorted_by_path() {
    let mut t = DocTree::new();
    t.write_text_file("b.md", "", 1).unwrap();
    t.write_text_file("a.md", "", 1).unwrap();
    t.write_text_file("a/c.md", "", 1).unwrap();
    let paths = t.list_file_paths();
    assert_eq!(paths, vec!["a.md", "a/c.md", "b.md"]);
}

#[test]
fn heads_round_trip() {
    let heads = vec![[1u8; 32], [2u8; 32]];
    let enc = encode_heads(&heads);
    assert_eq!(enc.len(), 64);
    assert_eq!(decode_heads(&enc).unwrap(), heads);
    assert!(decode_heads(&enc[..63]).is_err());
    let text = b64_heads(&heads);
    assert_eq!(decode_b64_heads(&text).unwrap(), heads);
    assert!(decode_b64_heads("!!!").is_err());
}

#[test]
fn heads_at_time_picks_frontier() {
    let a = [1u8; 32];
    let b = [2u8; 32];
    let c = [3u8; 32];
    let changes = vec![
        Change { hash: a, timestamp: 10, deps: vec![] },
        Change { hash: b, timestamp: 20, deps: vec![a] },
        Change { hash: c, timestamp: 30, deps: vec![b] },
    ];
    assert_eq!(heads_at_time(&changes, 25), vec![b]);
    assert_eq!(heads_at_time(&changes, 5), Vec::<[u8; 32]>::new());
    assert_eq!(heads_at_time(&changes, 100), vec![c]);
}

#[test]
fn labels_listed_by_name() {
    let h1 = [1u8; 32];
    let h2 = [2u8; 32];
    let entries = vec![
        (
            "zeta".to_string(),
            LabelValue::Record { heads: Some(encode_heads(&[h1, h2])), created_at: LabelTime::At(42) },
        ),
        ("alpha".to_string(), LabelValue::Legacy(encode_heads(&[h2]))),
        ("mid".to_string(), LabelValue::Record { heads: None, created_at: LabelTime::At(1) }),
        ("other".to_string(), LabelValue::Other),
        ("beta".to_string(), LabelValue::Record { heads: Some(vec![]), created_at: LabelTime::Missing }),
    ];
    let labels = list_labels(&entries).unwrap();
    let names: Vec<&str> = labels.iter().map(|l| l.name.as_str()).collect();
    assert_eq!(names, vec!["alpha", "beta", "zeta"]);
    assert_eq!(labels[0].heads, vec![h2]);
    assert_eq!(labels[0].created_at, 0);
    assert_eq!(labels[1].heads.len(), 0);
    assert_eq!(labels[2].heads, vec![h1, h2]);
    assert_eq!(labels[2].created_at, 42);
}

#[test]
fn unreadable_label_fails_the_listing() {
    let bad_time = vec![(
        "a".to_string(),
        LabelValue::Record { heads: Some(vec![]), created_at: LabelTime::WrongType },
    )];
    assert!(matches!(list_labels(&bad_time), Err(Error::Other(_))));
    let bad_heads = vec![("a".to_string(), LabelValue::Legacy(vec![1, 2, 3]))];
    assert!(matches!(list_labels(&bad_heads), Err(Error::Other(_))));
}

#[test]
fn refusing_a_non_empty_directory_names_it() {
    let mut t = DocTree::new();
    t.write_text_file("d/x.md", "x", 1).unwrap();
    t.write_text_file("d/e/y.md", "y", 1).unwrap();
    match t.delete_directory("./d/", false, 2) {
        Err(Error::Other(m)) => assert_eq!(m, "directory not empty: d (2 child files)"),
        other => panic!("unexpected {:?}", other),
    }
}

#[test]
fn directory_rename_lists_exactly_the_moved_directories() {
    let mut t = DocTree::new();
    t.write_text_file("a/x.md", "1", 1).unwrap();
    t.write_text_file("ab/y.md", "2", 1).unwrap();
    t.rename_directory("a", "b", 2).unwrap();
    assert_eq!(t.list_file_paths(), vec!["ab/y.md", "b/x.md"]);
    let dirs: Vec<String> = t.list_directories().into_iter().map(|d| d.path).collect();
    assert_eq!(dirs, vec!["ab".to_string(), "b".to_string()]);
    assert_eq!(t.read_file("b/x.md").unwrap(), "1");
}

#[test]
fn restore_leaves_only_past_entries_live() {
    let mut t = DocTree::new();
    t.write_text_file("a.md", "one", 1).unwrap();
    t.create_directory("keep", 1).unwrap();
    let past = DocTree { files: t.files.clone(), dirs: t.dirs.clone() };
    t.write_text_file("b.md", "two", 2).unwrap();
    t.create_directory("gone", 2).unwrap();
    t.rename_file("a.md", "c.md", 3).unwrap();
    assert!(t.can_restore_to(&past));
    t.restore_to(&past, 9);
    assert_eq!(t.list_file_paths(), vec!["a.md"]);
    let dirs: Vec<String> = t.list_directories().into_iter().map(|d| d.path).collect();
    assert_eq!(dirs, vec!["keep".to_string()]);
    let mut twice = t.files.clone();
    twice.push(t.files[0].clone());
    let dup = DocTree { files: twice, dirs: t.dirs.clone() };
    assert!(!dup.can_restore_to(&past));
}

#[test]
fn document_round_trip_through_automerge() {
    let mut d = new_doc("vault-1").unwrap();
    assert_eq!(vault_id_of(&d).unwrap(), "vault-1");
    let before = read_tree(&d).unwrap();
    assert!(before.files.is_empty() && before.dirs.is_empty());
    let mut after = read_tree(&d).unwrap();
    after.write_text_file("a/x.md", "hello", 5).unwrap();
    assert!(write_tree(&mut d, &before, &after, 5).unwrap());
    assert!(!write_tree(&mut d, &after, &after, 6).unwrap());
    let bytes = d.save();
    let (_, t) = open_doc(&bytes, "vault-1").unwrap();
    assert_eq!(t.read_file("a/x.md").unwrap(), "hello");
    assert_eq!(t.list_directories().into_iter().map(|m| m.path).collect::<Vec<_>>(), vec!["a".to_string()]);
    assert!(matches!(open_doc(&bytes, "other"), Err(Error::Vault(_))));
    assert!(matches!(open_doc(b"not a document", "vault-1"), Err(Error::Automerge(_))));
}

#[test]
fn labels_and_sync_through_automerge() {
    let mut a = new_doc("v").unwrap();
    let t0 = read_tree(&a).unwrap();
    let mut t1 = read_tree(&a).unwrap();
    t1.write_text_file("n.md", "one", 1).unwrap();
    write_tree(&mut a, &t0, &t1, 1).unwrap();
    create_label(&mut a, "first", 2).unwrap();
    let labels = doc_labels(&a).unwrap();
    assert_eq!(labels.len(), 1);
    assert_eq!(labels[0].name, "first");
    let mut t2 = read_tree(&a).unwrap();
    t2.write_text_file("n.md", "two", 3).unwrap();
    write_tree(&mut a, &t1, &t2, 3).unwrap();
    let past = tree_at(&mut a, &labels[0].heads).unwrap();
    assert_eq!(past.read_file("n.md").unwrap(), "one");
    delete_label(&mut a, "first", 4).unwrap();
    assert!(doc_labels(&a).unwrap().is_empty());

    let mut b = new_doc("v").unwrap();
    let mut sa = automerge::sync::State::new();
    let mut sb = automerge::sync::State::new();
    for _ in 0..10 {
        if let Some(m) = sync_message_for(&mut a, &mut sa) {
            receive_sync(&mut b, &mut sb, &m).unwrap();
        }
        if let Some(m) = sync_message_for(&mut b, &mut sb) {
            receive_sync(&mut a, &mut sa, &m).unwrap();
        }
    }
    assert_eq!(read_tree(&b).unwrap().read_file("n.md").unwrap(), "two");
    match receive_sync(&mut b, &mut sb, &[0xff, 0x00, 0x01]) {
        Err(Error::Protocol(m)) => assert!(m.starts_with("sync decode: ")),
        _ => panic!("expected a protocol error"),
    }
}

#[test]
fn field_reads_and_changes() {
    assert_eq!(str_field("path", Ok(Some((AmScalar::Str("p".into()), "Str(\"p\")".into())))).unwrap(), Some("p".to_string()));
    assert_eq!(str_field("path", Ok(None)).unwrap(), None);
    match str_field("path", Ok(Some((AmScalar::Int(3), "Int(3)".into())))) {
        Err(Error::Other(m)) => assert_eq!(m, "expected string at path, got Int(3)"),
        _ => panic!("expected refusal"),
    }
    assert_eq!(int_field("size", Ok(Some((AmScalar::Uint(7), "Uint(7)".into())))).unwrap(), Some(7));
    assert!(matches!(int_field("size", Err("boom".into())), Err(Error::Automerge(m)) if m == "boom"));
    let mut t = DocTree::new();
    t.write_text_file("a.md", "x", 1).unwrap();
    let f = t.files[0].clone();
    let mut g = f.clone();
    g.content = Some("y".into());
    let c = file_changes(Some(&f), &g);
    assert!(c.content && !c.path && !c.size);
    let n = file_changes(None, &f);
    assert!(n.path && n.content);
}
