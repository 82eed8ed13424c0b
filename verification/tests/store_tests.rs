use podsync::doc::Doc;
use podsync::episode::{Episode, Metadata};
use podsync::store::{load_episode, parse_episode, serialize_episode};

fn sample_episode() -> Episode {
    Episode {
        metadata: Metadata {
            number: 7,
            identifier: String::from("ep7"),
            title: String::from("Séptimo episodio"),
            subject: vec![String::from("linux"), String::from("audio")],
            downloads: 42,
            filename: String::from("ep7.mp3"),
            mtime: 1690000000,
            datetime: Some(String::from("2023-07-22T06:30:00Z")),
            size: 123456,
            length: 301,
            excerpt: String::from("Un pequeño resumen"),
            slug: String::from("septimo-episodio"),
        },
        content: String::from("Cuerpo del episodio.\n\nCon dos párrafos.\n"),
    }
}

#[test]
fn serialize_then_parse_returns_the_record() {
    let e = sample_episode();
    let text = serialize_episode(&e);
    let back = parse_episode(&text).expect("the canonical form parses");
    assert_eq!(back.metadata.number, 7);
    assert_eq!(back.metadata.identifier, "ep7");
    assert_eq!(back.metadata.title, "Séptimo episodio");
    assert_eq!(back.metadata.subject, vec![String::from("linux"), String::from("audio")]);
    assert_eq!(back.metadata.downloads, 42);
    assert_eq!(back.metadata.filename, "ep7.mp3");
    assert_eq!(back.metadata.mtime, 1690000000);
    assert_eq!(back.metadata.datetime, Some(String::from("2023-07-22T06:30:00Z")));
    assert_eq!(back.metadata.size, 123456);
    assert_eq!(back.metadata.length, 301);
    assert_eq!(back.metadata.excerpt, "Un pequeño resumen");
    assert_eq!(back.metadata.slug, "septimo-episodio");
    assert_eq!(back.content, e.content);
}

#[test]
fn round_trip_survives_values_that_need_quoting() {
    let mut e = sample_episode();
    e.metadata.title = String::from("\"Comillas\" y\nsaltos \\ raros");
    e.metadata.excerpt = String::from("línea una\nlínea dos");
    e.metadata.datetime = None;
    e.metadata.subject = vec![String::from("a\nb"), String::from("\"c\"")];
    let text = serialize_episode(&e);
    let back = parse_episode(&text).expect("the canonical form parses");
    assert_eq!(back.metadata.title, e.metadata.title);
    assert_eq!(back.metadata.excerpt, e.metadata.excerpt);
    assert_eq!(back.metadata.datetime, None);
    assert_eq!(back.metadata.subject, e.metadata.subject);
}

#[test]
fn empty_subject_round_trips() {
    let mut e = sample_episode();
    e.metadata.subject = Vec::new();
    let text = serialize_episode(&e);
    let back = parse_episode(&text).expect("the canonical form parses");
    assert!(back.metadata.subject.is_empty());
}

#[test]
fn parse_rejects_a_file_without_fences() {
    assert!(parse_episode("no front matter at all").is_err());
    let err = parse_episode("---\nnumber: 1\n").unwrap_err();
    assert!(!err.get_details().is_empty());
}

#[test]
fn parse_rejects_a_bad_number_line() {
    let e = sample_episode();
    let text = serialize_episode(&e).replace("number: 7", "number: seven");
    assert!(parse_episode(&text).is_err());
}

#[test]
fn load_fills_missing_slug_and_excerpt_and_reports_dirty() {
    let mut e = sample_episode();
    e.metadata.slug = String::new();
    e.metadata.excerpt = String::new();
    let text = serialize_episode(&e);
    let (loaded, dirty) = load_episode(&text).expect("the record loads");
    assert!(dirty);
    assert_eq!(loaded.metadata.slug, "septimo-episodio");
    assert_eq!(loaded.metadata.excerpt, "Cuerpo del episodio.\n\nCon dos párrafos.");
}

#[test]
fn load_of_a_normalized_record_is_clean() {
    let e = sample_episode();
    let text = serialize_episode(&e);
    let (_, dirty) = load_episode(&text).expect("the record loads");
    assert!(!dirty);
}

#[test]
fn record_filename_is_derived_from_the_identifier() {
    let e = sample_episode();
    assert_eq!(e.get_filename(), "episodes/ep7.md");
    assert_eq!(e.get_identifier(), "ep7");
    let d = Doc::new(
        String::from("ep9"),
        String::from("2023-07-22T06:30:00Z"),
        Vec::new(),
        String::new(),
        String::new(),
        0,
    );
    assert_eq!(d.get_post_filename(), "ep9.md");
}
