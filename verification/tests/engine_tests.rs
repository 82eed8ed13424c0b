use podsync::doc::Doc;
use podsync::engine::{classify, complete_new, SyncAction};
use podsync::episode::Episode;
use podsync::publisher::{delivery_plan, Channel};

fn sample_doc(identifier: &str, downloads: u64) -> Doc {
    Doc::new(
        String::from(identifier),
        String::from("2023-07-22T06:30:00Z"),
        vec![String::from("linux"), String::from("podcast")],
        String::from("Un episodio sobre cosas interesantes del mundo del software libre."),
        String::from("Un Título"),
        downloads,
    )
}

#[test]
fn equal_download_counts_leave_the_record_alone() {
    let doc = sample_doc("ep1", 10);
    let local = Episode::from_doc(sample_doc("ep1", 10));
    let action = classify(&doc, Some(&local));
    assert!(matches!(action, SyncAction::Unchanged));
}

#[test]
fn drifted_download_count_updates_only_that_field() {
    let doc = sample_doc("ep1", 37);
    let mut local = Episode::from_doc(sample_doc("ep1", 10));
    let action = classify(&doc, Some(&local));
    assert!(matches!(action, SyncAction::Update(37)));
    let before_title = local.metadata.title.clone();
    let before_excerpt = local.metadata.excerpt.clone();
    let before_slug = local.metadata.slug.clone();
    let before_content = local.content.clone();
    local.set_downloads(37);
    assert_eq!(local.metadata.downloads, 37);
    assert_eq!(local.metadata.title, before_title);
    assert_eq!(local.metadata.excerpt, before_excerpt);
    assert_eq!(local.metadata.slug, before_slug);
    assert_eq!(local.content, before_content);
}

#[test]
fn missing_record_needs_the_manifest() {
    let doc = sample_doc("ep1", 10);
    assert!(matches!(classify(&doc, None), SyncAction::NeedsManifest));
}

#[test]
fn new_entry_builds_a_record_from_the_manifest() {
    let doc = sample_doc("ep42", 3);
    let manifest = "<files>\n  <file name=\"ep42.mp3\" source=\"original\">\n    <mtime>1690000000</mtime>\n    <size>2048000</size>\n    <length>301.4</length>\n  </file>\n</files>\n";
    let text = String::from(manifest);
    let episode = complete_new(doc, Some(text.as_str())).expect("a record should be built");
    assert_eq!(episode.metadata.identifier, "ep42");
    assert_eq!(episode.metadata.filename, "ep42.mp3");
    assert_eq!(episode.metadata.mtime, 1690000000);
    assert_eq!(episode.metadata.size, 2048000);
    assert_eq!(episode.metadata.length, 301);
    assert_eq!(episode.metadata.slug, "un-titulo");
    let plan = delivery_plan(true, true);
    assert_eq!(plan.len(), 2);
    assert!(matches!(plan[0], Channel::Telegram));
    assert!(matches!(plan[1], Channel::Mastodon));
}

#[test]
fn failed_manifest_fetch_builds_nothing() {
    let doc = sample_doc("ep42", 3);
    assert!(complete_new(doc, None).is_none());
}

#[test]
fn malformed_manifest_numbers_build_nothing() {
    let doc = sample_doc("ep42", 3);
    let manifest = "  <file name=\"ep42.mp3\" source=\"original\">\n    <mtime>not-a-number</mtime>\n    <size>2048000</size>\n    <length>301.4</length>\n  </file>\n";
    let text = String::from(manifest);
    assert!(complete_new(doc, Some(text.as_str())).is_none());
}

#[test]
fn manifest_without_audio_block_keeps_zero_fields() {
    let doc = sample_doc("ep42", 3);
    let text = String::from("<files>\n  <file name=\"cover.png\" source=\"original\">\n  </file>\n</files>\n");
    let episode = complete_new(doc, Some(text.as_str())).expect("the entry proceeds unchanged");
    assert_eq!(episode.metadata.filename, "");
    assert_eq!(episode.metadata.size, 0);
    assert_eq!(episode.metadata.length, 0);
}

#[test]
fn delivery_plan_covers_each_configured_channel_once() {
    assert_eq!(delivery_plan(false, false).len(), 0);
    let t = delivery_plan(true, false);
    assert_eq!(t.len(), 1);
    assert!(matches!(t[0], Channel::Telegram));
    let m = delivery_plan(false, true);
    assert_eq!(m.len(), 1);
    assert!(matches!(m[0], Channel::Mastodon));
}
