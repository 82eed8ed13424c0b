use podsync::catalog::IAClient;
use podsync::config::{public_root, sort_posts_by_date_desc, url_prefix, Configuration, Podcast, Post};
use podsync::datetime::check_datetime;
use podsync::doc::Doc;
use podsync::episode::Episode;
use podsync::error::Error;
use podsync::feed::Feed;
use podsync::manifest::Mp3Metadata;
use podsync::metadata::AOMetadata;
use podsync::publisher::{audio_url, Mastodon, Telegram};

fn sample_podcast() -> Podcast {
    Podcast {
        base_url: String::from("pod"),
        feed_url: String::from("feed.xml"),
        url: String::from("https://example.org"),
        author: String::from("Autora"),
        email: String::from("a@example.org"),
        image_url: String::from("https://example.org/img.png"),
        category: String::from("Technology"),
        subcategory: None,
        explicit: false,
        title: String::from("Un Podcast"),
        description: String::from("Sobre software"),
        keywords: vec![String::from("linux")],
        license: String::from("CC-BY"),
    }
}

#[test]
fn configuration_getters_hand_values_back() {
    let c = Configuration::new(
        String::from("public"),
        String::from("assets"),
        sample_podcast(),
        IAClient::new("atareao", "prueba"),
    );
    assert_eq!(c.get_public(), "public");
    assert_eq!(c.get_assets(), "assets");
    assert_eq!(c.get_podcast().title, "Un Podcast");
    assert_eq!(c.get_iaclient().uploader, "atareao");
}

#[test]
fn feed_binds_its_podcast() {
    let f = Feed::new(sample_podcast());
    assert_eq!(f.get_podcast().title, "Un Podcast");
}

#[test]
fn error_carries_its_message() {
    let e = Error::new("algo falló");
    assert_eq!(e.get_details(), "algo falló");
}

#[test]
fn check_datetime_accepts_only_the_fixed_shape() {
    assert!(check_datetime("2023-07-22T06:30:00Z"));
    assert!(check_datetime("2024-02-29T23:59:59Z"));
    assert!(!check_datetime("2023-02-29T00:00:00Z"));
    assert!(!check_datetime("2023-13-01T00:00:00Z"));
    assert!(!check_datetime("2023-07-22 06:30:00"));
    assert!(!check_datetime("2023-07-22T06:30:00+00:00"));
}

#[test]
fn audio_url_is_built_from_identifier_and_filename() {
    assert_eq!(
        audio_url("ep42", "ep42.mp3"),
        "https://archive.org/download/ep42/ep42.mp3"
    );
}

#[test]
fn telegram_endpoint_and_caption() {
    let t = Telegram::new("token123", "12345");
    assert_eq!(
        t.send_audio_endpoint(),
        "https://api.telegram.org/bottoken123/sendAudio"
    );
    assert_eq!(t.chat_id, "12345");
    assert_eq!(Telegram::prepare("dijo \"hola\""), "dijo 'hola'");
}

#[test]
fn mastodon_endpoint() {
    let m = Mastodon::new("tok", "mastodon.example");
    assert_eq!(m.status_endpoint(), "https://mastodon.example/api/v1/statuses");
}

#[test]
fn url_helpers_handle_the_base_path() {
    assert_eq!(public_root("public", ""), "public");
    assert_eq!(public_root("public", "pod"), "public/pod");
    assert_eq!(url_prefix(""), "");
    assert_eq!(url_prefix("pod"), "/pod");
    assert_eq!(url_prefix("/pod"), "/pod");
}

#[test]
fn posts_sort_most_recent_first() {
    let mk = |id: &str, date: &str| {
        let d = Doc::new(
            String::from(id),
            String::from(date),
            Vec::new(),
            String::from("d"),
            String::from("t"),
            0,
        );
        Episode::from_doc(d).get_post()
    };
    let posts: Vec<Post> = vec![
        mk("a", "2021-05-01T00:00:00Z"),
        mk("b", "2023-05-01T00:00:00Z"),
        mk("c", "2022-05-01T00:00:00Z"),
    ];
    let sorted = sort_posts_by_date_desc(posts);
    let ids: Vec<&str> = sorted.iter().map(|p| p.identifier.as_str()).collect();
    assert_eq!(ids, vec!["b", "c", "a"]);
}

#[test]
fn rendered_post_holds_html() {
    let d = Doc::new(
        String::from("ep1"),
        String::from("2023-07-22T06:30:00Z"),
        Vec::new(),
        String::from("# Hola"),
        String::from("Título"),
        0,
    );
    let e = Episode::from_doc(d);
    let p = e.get_post();
    assert_eq!(p.content, "<h1>Hola</h1>\n");
    assert_eq!(p.identifier, "ep1");
    assert_eq!(p.date, "2023-07-22T06:30:00Z");
}

#[test]
fn mp3_metadata_scrapes_the_first_original_mp3_block() {
    let content = "<files>\n  <file name=\"cover.png\" source=\"original\">\n    <size>100</size>\n  </file>\n  <file name=\"ep1.mp3\" source=\"original\">\n    <title>Un título</title>\n    <mtime>1690000000</mtime>\n    <size>2048</size>\n    <length>12.9</length>\n    <comment>nota</comment>\n  </file>\n</files>\n";
    let m = Mp3Metadata::new(content).expect("the block is scraped");
    assert_eq!(m.filename, "ep1.mp3");
    assert_eq!(m.title, "Un título");
    assert_eq!(m.comment, "nota");
    assert_eq!(m.mtime, 1690000000);
    assert_eq!(m.size, 2048);
    assert_eq!(m.length, 12);
}

#[test]
fn mp3_metadata_ignores_derived_copies() {
    let content = "  <file name=\"ep1.mp3\" source=\"derivative\">\n    <mtime>1</mtime>\n  </file>\n";
    assert!(Mp3Metadata::new(content).is_none());
}

#[test]
fn item_metadata_decodes_and_renders_the_description() {
    let content = "<metadata><identifier>ep1</identifier><description>&lt;b&gt;hola&lt;/b&gt;</description></metadata>";
    let m = AOMetadata::new(content).expect("both fields are present");
    assert_eq!(m.identifier, "ep1");
    assert_eq!(m.description, "**hola**");
}

#[test]
fn item_metadata_without_identifier_is_none() {
    assert!(AOMetadata::new("<description>x</description>").is_none());
}

#[test]
fn doc_excerpt_and_slug_come_from_its_fields() {
    let d = Doc::new(
        String::from("ep1"),
        String::from("2023-07-22T06:30:00Z"),
        Vec::new(),
        String::from("uno  dos   tres"),
        String::from("Él Ñandú"),
        0,
    );
    assert_eq!(d.get_exceprt(), "uno  dos   tres");
    assert_eq!(d.get_slug(), "el-nandu");
}
