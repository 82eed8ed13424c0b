use podsync::catalog::{CatalogMerger, IAClient, ArchiveOrg, PageData, PAGESIZE};
use podsync::doc::Doc;
use podsync::json::parse_page;

fn doc(identifier: &str, date: &str) -> Doc {
    Doc::new(
        String::from(identifier),
        String::from(date),
        vec![String::from("tag")],
        String::from("descripción"),
        String::from("título"),
        1,
    )
}

#[test]
fn query_has_the_fixed_shape() {
    let c = IAClient::new("atareao", "prueba");
    assert_eq!(
        c.get_query(),
        "uploader:(atareao) AND publicdate:[1970-01-01 TO 9999-12-31] AND podcast:(prueba) AND mediatype:(audio)"
    );
}

#[test]
fn archive_org_client_keeps_its_fields() {
    let c = ArchiveOrg::new("atareao", "prueba");
    assert_eq!(c.uploader, "atareao");
    assert_eq!(c.podcast, "prueba");
}

#[test]
fn single_page_merge_counts_and_orders() {
    let mut merger = CatalogMerger::new();
    let page = PageData {
        num_found: 3,
        start: 0,
        docs: vec![
            doc("a", "2023-01-05T00:00:00Z"),
            doc("b", "2024-06-01T12:00:00Z"),
        ],
        skipped: 1,
    };
    let more = merger.add_page(page);
    assert!(!more);
    let docs = merger.finish();
    // the reported total minus the skipped entry
    assert_eq!(docs.len(), 2);
    // most recent first
    assert_eq!(docs[0].identifier, "b");
    assert_eq!(docs[1].identifier, "a");
}

#[test]
fn pagination_fetches_deeper_pages_until_the_total_is_covered() {
    let mut merger = CatalogMerger::new();
    let mut first: Vec<Doc> = Vec::new();
    for i in 0..PAGESIZE {
        first.push(doc(&format!("ep{}", i), "2020-01-01T00:00:00Z"));
    }
    let more = merger.add_page(PageData { num_found: 201, start: 0, docs: first, skipped: 0 });
    assert!(more);
    let more2 = merger.add_page(PageData {
        num_found: 201,
        start: 200,
        docs: vec![doc("last", "2021-01-01T00:00:00Z")],
        skipped: 0,
    });
    assert!(!more2);
    let docs = merger.finish();
    assert_eq!(docs.len(), 201);
    assert_eq!(docs[0].identifier, "last");
    // no identifier appears twice
    let mut ids: Vec<String> = docs.iter().map(|d| d.identifier.clone()).collect();
    ids.sort();
    ids.dedup();
    assert_eq!(ids.len(), 201);
}

#[test]
fn parse_page_reads_entries_and_assigns_sequence_numbers() {
    let body = "{\"response\":{\"numFound\":2,\"start\":0,\"docs\":[{\"identifier\":\"a\",\"publicdate\":\"2024-01-02T10:00:00Z\",\"title\":\"T A\",\"description\":\"da\",\"downloads\":5,\"subject\":\"tag\"},{\"identifier\":\"b\",\"publicdate\":\"2023-01-02T10:00:00Z\",\"title\":\"T B\",\"description\":\"db\",\"downloads\":7,\"subject\":[\"x\",\"y\"]}]}}";
    let page = parse_page(body, 1).expect("the page parses");
    assert_eq!(page.num_found, 2);
    assert_eq!(page.start, 0);
    assert_eq!(page.skipped, 0);
    assert_eq!(page.docs.len(), 2);
    assert_eq!(page.docs[0].identifier, "a");
    assert_eq!(page.docs[0].number, 1);
    assert_eq!(page.docs[0].downloads, 5);
    assert_eq!(page.docs[0].subject, vec![String::from("tag")]);
    assert_eq!(page.docs[1].identifier, "b");
    assert_eq!(page.docs[1].number, 2);
    assert_eq!(page.docs[1].subject, vec![String::from("x"), String::from("y")]);
}

#[test]
fn parse_page_skips_malformed_entries() {
    let body = "{\"response\":{\"numFound\":2,\"start\":0,\"docs\":[{\"identifier\":\"a\",\"publicdate\":\"not a date\",\"title\":\"T\",\"description\":\"d\",\"downloads\":5,\"subject\":\"tag\"},{\"identifier\":\"b\",\"publicdate\":\"2023-01-02T10:00:00Z\",\"title\":\"T B\",\"description\":\"db\",\"downloads\":7,\"subject\":\"z\"}]}}";
    let page = parse_page(body, 1).expect("the page parses");
    assert_eq!(page.skipped, 1);
    assert_eq!(page.docs.len(), 1);
    assert_eq!(page.docs[0].identifier, "b");
    // the sequence number keeps the entry's position in the page
    assert_eq!(page.docs[0].number, 2);
}

#[test]
fn parse_page_skips_a_subject_list_with_a_non_string_element() {
    let body = "{\"response\":{\"numFound\":2,\"start\":0,\"docs\":[{\"identifier\":\"a\",\"publicdate\":\"2023-01-02T10:00:00Z\",\"title\":\"T\",\"description\":\"d\",\"downloads\":5,\"subject\":[\"ok\",5]},{\"identifier\":\"b\",\"publicdate\":\"2023-01-02T10:00:00Z\",\"title\":\"T B\",\"description\":\"db\",\"downloads\":7,\"subject\":[]}]}}";
    let page = parse_page(body, 1).expect("the page parses");
    assert_eq!(page.skipped, 1);
    assert_eq!(page.docs.len(), 1);
    assert_eq!(page.docs[0].identifier, "b");
    assert!(page.docs[0].subject.is_empty());
}

#[test]
fn parse_page_rejects_a_missing_envelope() {
    assert!(parse_page("{}", 1).is_err());
    assert!(parse_page("not json", 1).is_err());
}

#[test]
fn page_second_number_offset() {
    let body = "{\"response\":{\"numFound\":201,\"start\":200,\"docs\":[{\"identifier\":\"x\",\"publicdate\":\"2023-01-02T10:00:00Z\",\"title\":\"T\",\"description\":\"d\",\"downloads\":1,\"subject\":\"s\"}]}}";
    let page = parse_page(body, 2).expect("the page parses");
    assert_eq!(page.docs[0].number, 201);
}
