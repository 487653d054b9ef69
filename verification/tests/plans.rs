use thumper::api::{FileMeta, RemoteTree};
use thumper::checksum::content_digest;
use thumper::error::SyncError;
use thumper::pathmap::PathMap;
use thumper::planning::{
    first_wave_len, names_document, plan_execution, plan_sync, remote_name, settle, LocalTree,
    SyncAction, SyncPlan,
};

fn local_of(entries: &[(&str, &str)]) -> LocalTree {
    let mut tree: LocalTree = PathMap::new();
    for (remote, local) in entries {
        tree.insert(remote.to_string(), local.to_string());
    }
    tree
}

fn remote_of(entries: &[(&str, Option<[u8; 32]>)]) -> RemoteTree {
    let mut tree: RemoteTree = PathMap::new();
    for (remote, checksum) in entries {
        tree.insert(remote.to_string(), FileMeta { checksum: *checksum });
    }
    tree
}

fn deletions(plan: &[SyncPlan]) -> Vec<String> {
    let mut paths: Vec<String> = plan
        .iter()
        .filter_map(|entry| match entry {
            SyncPlan::Delete { remote } => Some(remote.clone()),
            SyncPlan::Put { .. } => None,
        })
        .collect();
    paths.sort();
    paths
}

fn candidates(plan: &[SyncPlan]) -> Vec<(String, String, Option<[u8; 32]>)> {
    plan.iter()
        .filter_map(|entry| match entry {
            SyncPlan::Put { remote, local, checksum } => {
                Some((remote.clone(), local.clone(), *checksum))
            }
            SyncPlan::Delete { .. } => None,
        })
        .collect()
}

fn path_of(entry: &SyncPlan) -> &str {
    match entry {
        SyncPlan::Put { remote, .. } => remote,
        SyncPlan::Delete { remote } => remote,
    }
}

#[test]
fn ignored_prefix_protects_remote_files() {
    let local = local_of(&[]);
    let remote = remote_of(&[("a/index.html", None), ("b/index.html", None)]);
    let plan = plan_sync(&local, &remote, &vec!["a".to_string()]);
    assert_eq!(deletions(&plan), vec!["b/index.html"]);
    assert_eq!(plan.len(), 1);
}

#[test]
fn unchanged_files_are_neither_deleted_nor_uploaded() {
    let content = b"<html>h</html>".to_vec();
    let digest = content_digest(&content);
    let local = local_of(&[("a/index.html", "site/a/index.html"), ("b/index.html", "site/b/index.html")]);
    let remote = remote_of(&[("a/index.html", Some(digest)), ("b/index.html", Some(digest))]);
    let plan = plan_sync(&local, &remote, &Vec::new());
    assert!(deletions(&plan).is_empty());
    assert_eq!(plan.len(), 2);
    let mut puts = 0;
    for entry in &plan {
        let execution = plan_execution(entry, Some(content.clone())).unwrap();
        match execution.action {
            SyncAction::Ignore => {}
            SyncAction::Put { .. } => puts += 1,
            SyncAction::Delete => panic!("nothing is to be deleted"),
        }
    }
    assert_eq!(puts, 0);
}

#[test]
fn remote_files_without_local_counterpart_are_deleted() {
    let local = local_of(&[]);
    let remote = remote_of(&[("x", None), ("y", None)]);
    let plan = plan_sync(&local, &remote, &Vec::new());
    assert_eq!(deletions(&plan), vec!["x", "y"]);
    assert_eq!(plan.len(), 2);
}

#[test]
fn every_local_file_is_a_candidate() {
    let sum = content_digest(b"old");
    let local = local_of(&[("new.css", "site/new.css"), ("kept.css", "site/kept.css")]);
    let remote = remote_of(&[("kept.css", Some(sum)), ("gone.css", None)]);
    let plan = plan_sync(&local, &remote, &Vec::new());
    assert_eq!(
        candidates(&plan),
        vec![
            ("new.css".to_string(), "site/new.css".to_string(), None),
            ("kept.css".to_string(), "site/kept.css".to_string(), Some(sum)),
        ]
    );
    assert_eq!(deletions(&plan), vec!["gone.css"]);
    assert_eq!(plan.len(), 3);
}

#[test]
fn a_remote_file_with_local_counterpart_is_not_deleted() {
    let local = local_of(&[("a.css", "site/a.css")]);
    let remote = remote_of(&[("a.css", None)]);
    let plan = plan_sync(&local, &remote, &Vec::new());
    assert!(deletions(&plan).is_empty());
    assert_eq!(candidates(&plan).len(), 1);
}

#[test]
fn ignore_does_not_keep_local_files_from_upload() {
    let local = local_of(&[("a/index.html", "site/a/index.html")]);
    let remote = remote_of(&[("a/old.html", None)]);
    let plan = plan_sync(&local, &remote, &vec!["a".to_string()]);
    assert_eq!(candidates(&plan).len(), 1);
    assert!(deletions(&plan).is_empty());
}

#[test]
fn empty_ignore_prefix_protects_everything() {
    let local = local_of(&[]);
    let remote = remote_of(&[("x", None), ("y", None)]);
    let plan = plan_sync(&local, &remote, &vec![String::new()]);
    assert!(plan.is_empty());
}

#[test]
fn two_empty_trees_need_no_plan() {
    let plan = plan_sync(&local_of(&[]), &remote_of(&[]), &Vec::new());
    assert!(plan.is_empty());
    assert_eq!(first_wave_len(&plan), 0);
}

#[test]
fn documents_come_after_other_uploads_and_deletions_last() {
    let local = local_of(&[
        ("index.html", "s/index.html"),
        ("site.css", "s/site.css"),
        ("about.htm", "s/about.htm"),
        ("logo.png", "s/logo.png"),
        ("notes.html.bak", "s/notes.html.bak"),
    ]);
    let remote = remote_of(&[("old.css", None), ("old.html", None)]);
    let plan = plan_sync(&local, &remote, &Vec::new());
    let order: Vec<&str> = plan.iter().map(path_of).collect();
    assert_eq!(
        order,
        vec![
            "site.css",
            "logo.png",
            "notes.html.bak",
            "index.html",
            "about.htm",
            "old.css",
            "old.html"
        ]
    );
    assert_eq!(first_wave_len(&plan), 3);
}

#[test]
fn first_wave_ends_at_the_first_entry_of_a_later_stage() {
    let document = SyncPlan::Put {
        remote: "a.html".to_string(),
        local: "a.html".to_string(),
        checksum: None,
    };
    let asset =
        SyncPlan::Put { remote: "a.css".to_string(), local: "a.css".to_string(), checksum: None };
    let removal = SyncPlan::Delete { remote: "b.css".to_string() };
    assert_eq!(first_wave_len(&vec![asset.clone(), asset.clone()]), 2);
    assert_eq!(first_wave_len(&vec![asset.clone(), document.clone(), asset.clone()]), 1);
    assert_eq!(first_wave_len(&vec![removal.clone(), asset.clone()]), 0);
    assert_eq!(first_wave_len(&vec![document, asset]), 0);
}

#[test]
fn documents_are_told_by_their_ending() {
    assert!(names_document("index.html"));
    assert!(names_document("a/b/page.htm"));
    assert!(names_document(".html"));
    assert!(!names_document("index.HTML"));
    assert!(!names_document("index.html.gz"));
    assert!(!names_document("html"));
    assert!(!names_document(""));
}

#[test]
fn deletion_passes_through_resolution() {
    let job = SyncPlan::Delete { remote: "old.css".to_string() };
    let execution = plan_execution(&job, None).unwrap();
    assert_eq!(execution.remote, "old.css");
    assert!(matches!(execution.action, SyncAction::Delete));
    let execution = plan_execution(&job, Some(vec![1, 2, 3])).unwrap();
    assert!(matches!(execution.action, SyncAction::Delete));
}

#[test]
fn unreadable_local_file_fails_resolution() {
    let job = SyncPlan::Put {
        remote: "a.css".to_string(),
        local: "site/a.css".to_string(),
        checksum: None,
    };
    assert_eq!(plan_execution(&job, None).err(), Some(SyncError::LocalRead));
}

#[test]
fn new_file_is_uploaded() {
    let job = SyncPlan::Put {
        remote: "a.txt".to_string(),
        local: "site/a.txt".to_string(),
        checksum: None,
    };
    let execution = plan_execution(&job, Some(b"plain words".to_vec())).unwrap();
    assert_eq!(execution.remote, "a.txt");
    match execution.action {
        SyncAction::Put { content, mime_type } => {
            assert_eq!(content, b"plain words".to_vec());
            assert_eq!(mime_type, None);
        }
        _ => panic!("a new file is uploaded"),
    }
}

#[test]
fn changed_file_is_uploaded_with_its_media_type() {
    let png: Vec<u8> = vec![0x89, 0x50, 0x4E, 0x47, 0x0D, 0x0A, 0x1A, 0x0A, 0, 0, 0, 0];
    let job = SyncPlan::Put {
        remote: "logo.png".to_string(),
        local: "site/logo.png".to_string(),
        checksum: Some(content_digest(b"the old picture")),
    };
    let execution = plan_execution(&job, Some(png.clone())).unwrap();
    match execution.action {
        SyncAction::Put { content, mime_type } => {
            assert_eq!(content, png);
            assert_eq!(mime_type.as_deref(), Some("image/png"));
        }
        _ => panic!("a changed file is uploaded"),
    }
}

#[test]
fn unchanged_file_is_ignored() {
    let content = b"body { color: red }".to_vec();
    let job = SyncPlan::Put {
        remote: "site.css".to_string(),
        local: "site/site.css".to_string(),
        checksum: Some(content_digest(&content)),
    };
    let execution = plan_execution(&job, Some(content)).unwrap();
    assert_eq!(execution.remote, "site.css");
    assert!(matches!(execution.action, SyncAction::Ignore));
}

#[test]
fn empty_file_is_compared_by_its_digest_too() {
    let job = SyncPlan::Put {
        remote: "empty".to_string(),
        local: "site/empty".to_string(),
        checksum: Some(content_digest(b"")),
    };
    assert!(matches!(plan_execution(&job, Some(Vec::new())).unwrap().action, SyncAction::Ignore));
}

#[test]
fn settle_compares_the_digests_it_is_given() {
    let one = [1u8; 32];
    let other = [2u8; 32];
    assert!(matches!(settle(Some(one), vec![7], one, None), SyncAction::Ignore));
    match settle(Some(one), vec![7], other, Some("text/css".to_string())) {
        SyncAction::Put { content, mime_type } => {
            assert_eq!(content, vec![7]);
            assert_eq!(mime_type.as_deref(), Some("text/css"));
        }
        _ => panic!("digests differ"),
    }
    assert!(matches!(settle(None, vec![7], one, None), SyncAction::Put { .. }));
}

#[test]
fn local_files_are_named_as_the_store_names_them() {
    assert_eq!(remote_name("/", "index.html"), "index.html");
    assert_eq!(remote_name("/", "css/site.css"), "css/site.css");
    assert_eq!(remote_name("docs/", "guide/intro.html"), "docs/guide/intro.html");
    assert_eq!(remote_name("/docs/", "a.txt"), "docs/a.txt");
    assert_eq!(remote_name("", "a.txt"), "a.txt");
}
