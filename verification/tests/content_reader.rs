use odt_reader::content::{
    read_content, read_document, Action, Attr, Block, ContentEvent, ContentReader, Outcome, QName,
};
use std::io::Write;

fn start(prefix: &str, local: &str, attributes: Vec<Attr>) -> ContentEvent {
    ContentEvent::Start { name: qname(Some(prefix), local), attributes }
}

fn end(prefix: &str, local: &str) -> ContentEvent {
    ContentEvent::End { name: qname(Some(prefix), local) }
}

fn chars(s: &str) -> ContentEvent {
    ContentEvent::Characters(s.as_bytes().to_vec())
}

fn qname(prefix: Option<&str>, local: &str) -> QName {
    QName { prefix: prefix.map(|p| p.as_bytes().to_vec()), local: local.as_bytes().to_vec() }
}

fn attr(prefix: Option<&str>, local: &str, value: &str) -> Attr {
    Attr { name: qname(prefix, local), value: value.as_bytes().to_vec() }
}

fn step(r: &mut ContentReader, e: ContentEvent) -> Action {
    assert!(r.accepts(&e));
    r.step(&e)
}

fn texts(b: &Block) -> Vec<String> {
    let t = match b {
        Block::Heading { texts, .. } => texts,
        Block::Paragraph { texts } => texts,
    };
    t.iter().map(|v| String::from_utf8(v.clone()).unwrap()).collect()
}

#[test]
fn reads_heading_and_paragraph() {
    let mut r = ContentReader::new();
    assert!(matches!(step(&mut r, start("office", "document-content", vec![])), Action::Continue));
    assert!(matches!(step(&mut r, start("office", "body", vec![])), Action::Continue));
    let a = step(&mut r, start("text", "h", vec![
        attr(Some("text"), "style-name", "H1"),
        attr(Some("text"), "outline-level", "2"),
    ]));
    match a {
        Action::CheckLevels(v) => assert_eq!(v, vec![b"2".to_vec()]),
        _ => panic!("expected the level to be checked"),
    }
    assert!(matches!(step(&mut r, chars("Title")), Action::Continue));
    assert!(matches!(step(&mut r, end("text", "h")), Action::Continue));
    assert!(matches!(step(&mut r, start("text", "p", vec![])), Action::Continue));
    step(&mut r, chars("Hello "));
    step(&mut r, chars("world"));
    assert!(matches!(step(&mut r, end("text", "p")), Action::Continue));
    assert!(matches!(step(&mut r, end("office", "body")), Action::Stop));
    let doc = r.finish();
    assert_eq!(doc.title, "Kauri (Working title)");
    assert_eq!(doc.paper, "A4");
    assert_eq!(doc.children.len(), 2);
    match &doc.children[0] {
        Some(b @ Block::Heading { level, .. }) => {
            assert_eq!(level.as_deref(), Some(&b"2"[..]));
            assert_eq!(texts(b), vec!["Title".to_string()]);
        },
        _ => panic!("expected a heading"),
    }
    match &doc.children[1] {
        Some(b @ Block::Paragraph { .. }) => {
            assert_eq!(texts(b), vec!["Hello ".to_string(), "world".to_string()])
        },
        _ => panic!("expected a paragraph"),
    }
}

#[test]
fn heading_without_level_has_none() {
    let mut r = ContentReader::new();
    step(&mut r, start("office", "body", vec![]));
    match step(&mut r, start("text", "h", vec![])) {
        Action::CheckLevels(v) => assert!(v.is_empty()),
        _ => panic!("expected CheckLevels"),
    }
    step(&mut r, end("text", "h"));
    let doc = r.finish();
    assert!(matches!(&doc.children[0], Some(Block::Heading { level: None, .. })));
}

#[test]
fn last_level_attribute_wins() {
    let mut r = ContentReader::new();
    step(&mut r, start("office", "body", vec![]));
    let a = step(&mut r, start("text", "h", vec![
        attr(Some("text"), "outline-level", "1"),
        attr(Some("text"), "outline-level", "3"),
    ]));
    match a {
        Action::CheckLevels(v) => assert_eq!(v, vec![b"1".to_vec(), b"3".to_vec()]),
        _ => panic!("expected CheckLevels"),
    }
    step(&mut r, end("text", "h"));
    let doc = r.finish();
    match &doc.children[0] {
        Some(Block::Heading { level, .. }) => assert_eq!(level.as_deref(), Some(&b"3"[..])),
        _ => panic!("expected a heading"),
    }
}

#[test]
fn tags_before_body_are_ignored() {
    let mut r = ContentReader::new();
    step(&mut r, start("text", "p", vec![]));
    step(&mut r, end("text", "p"));
    step(&mut r, end("office", "body"));
    let doc = r.finish();
    assert!(doc.children.is_empty());
}

#[test]
fn characters_outside_a_block_are_refused() {
    let mut r = ContentReader::new();
    assert!(!r.accepts(&chars("x")));
    step(&mut r, start("office", "body", vec![]));
    assert!(!r.accepts(&chars("x")));
    step(&mut r, start("text", "p", vec![]));
    assert!(r.accepts(&chars("x")));
}

#[test]
fn heading_attribute_without_prefix_is_refused() {
    let mut r = ContentReader::new();
    step(&mut r, start("office", "body", vec![]));
    let e = start("text", "h", vec![attr(None, "id", "x")]);
    assert!(!r.accepts(&e));
    let p = start("text", "p", vec![attr(None, "id", "x")]);
    assert!(r.accepts(&p));
}

#[test]
fn end_without_block_adds_empty_child() {
    let mut r = ContentReader::new();
    step(&mut r, start("office", "body", vec![]));
    step(&mut r, start("text", "h", vec![]));
    step(&mut r, start("text", "p", vec![]));
    step(&mut r, end("text", "p"));
    step(&mut r, end("text", "h"));
    let doc = r.finish();
    assert_eq!(doc.children.len(), 2);
    assert!(matches!(&doc.children[0], Some(Block::Paragraph { .. })));
    assert!(doc.children[1].is_none());
}

#[test]
fn failure_aborts() {
    let mut r = ContentReader::new();
    assert!(matches!(step(&mut r, ContentEvent::Failure), Action::Abort));
    assert!(matches!(step(&mut r, ContentEvent::Other), Action::Continue));
}

#[test]
fn unprefixed_tags_are_ignored() {
    let mut r = ContentReader::new();
    step(&mut r, start("office", "body", vec![]));
    let e = ContentEvent::Start { name: qname(None, "p"), attributes: vec![] };
    assert!(matches!(step(&mut r, e), Action::Continue));
    assert!(!r.accepts(&chars("x")));
    let e = ContentEvent::End { name: qname(None, "body") };
    assert!(matches!(step(&mut r, e), Action::Continue));
}

const CONTENT: &str = r#"<?xml version="1.0" encoding="UTF-8"?>
<office:document-content xmlns:office="urn:oasis:names:tc:opendocument:xmlns:office:1.0" xmlns:text="urn:oasis:names:tc:opendocument:xmlns:text:1.0"><office:body><office:text><text:h text:outline-level="1">Title</text:h><text:p>a &amp; b</text:p></office:text></office:body></office:document-content>"#;

#[test]
fn reads_content_bytes() {
    let r = read_content(CONTENT.as_bytes(), false);
    assert_eq!(r.levels, vec![vec![b"1".to_vec()]]);
    match r.outcome {
        Outcome::Document(doc) => {
            assert_eq!(doc.children.len(), 2);
            match &doc.children[0] {
                Some(b @ Block::Heading { .. }) => assert_eq!(texts(b), vec!["Title".to_string()]),
                _ => panic!("expected a heading"),
            }
            match &doc.children[1] {
                Some(b @ Block::Paragraph { .. }) => assert_eq!(texts(b), vec!["a & b".to_string()]),
                _ => panic!("expected a paragraph"),
            }
        },
        _ => panic!("expected a document"),
    }
}

#[test]
fn malformed_content_is_empty() {
    let r = read_content(b"<office:body><text:p>x</text:q>", false);
    assert!(matches!(r.outcome, Outcome::Empty));
}

#[test]
fn stray_text_is_refused() {
    let r = read_content(b"<a>x</a>", false);
    assert!(matches!(r.outcome, Outcome::Refused));
}

fn zipped(name: &str, data: &str) -> Vec<u8> {
    let mut w = zip::ZipWriter::new(std::io::Cursor::new(Vec::new()));
    w.start_file(name, zip::write::FileOptions::default()).unwrap();
    w.write_all(data.as_bytes()).unwrap();
    w.finish().unwrap().into_inner()
}

#[test]
fn reads_document_from_archive() {
    let r = read_document(&zipped("content.xml", CONTENT));
    match r.outcome {
        Outcome::Document(doc) => assert_eq!(doc.children.len(), 2),
        _ => panic!("expected a document"),
    }
}

#[test]
fn archive_without_content_is_unreadable() {
    let r = read_document(&zipped("styles.xml", CONTENT));
    assert!(matches!(r.outcome, Outcome::Unreadable(_)));
    let r = read_document(b"not a zip");
    assert!(matches!(r.outcome, Outcome::Unreadable(_)));
}

fn stored(name: &str, data: &str) -> Vec<u8> {
    let mut w = zip::ZipWriter::new(std::io::Cursor::new(Vec::new()));
    let options = zip::write::FileOptions::default().compression_method(zip::CompressionMethod::Stored);
    w.start_file(name, options).unwrap();
    w.write_all(data.as_bytes()).unwrap();
    w.finish().unwrap().into_inner()
}

fn corrupt_last(archive: &mut Vec<u8>, data: &str, needle: &str) {
    let at = archive.windows(data.len()).position(|w| w == data.as_bytes()).unwrap();
    let off = data.find(needle).unwrap();
    archive[at + off] ^= 0x20;
}

#[test]
fn cut_short_content_after_body_end_is_read() {
    let mut a = stored("content.xml", CONTENT);
    corrupt_last(&mut a, CONTENT, "document-content>");
    let r = read_document(&a);
    assert!(matches!(r.outcome, Outcome::Document(_)));
}

#[test]
fn cut_short_content_before_body_end_is_empty() {
    let open = r#"<office:body xmlns:office="o" xmlns:text="t"><text:p>x</text:p>"#;
    assert!(matches!(read_content(open.as_bytes(), true).outcome, Outcome::Empty));
    assert!(matches!(read_content(open.as_bytes(), false).outcome, Outcome::Empty));
    let closed = r#"<office:body xmlns:office="o"></office:body>"#;
    assert!(matches!(read_content(closed.as_bytes(), true).outcome, Outcome::Document(_)));
    let other = r#"<office:text xmlns:office="o"></office:text>"#;
    assert!(matches!(read_content(other.as_bytes(), true).outcome, Outcome::Empty));
    assert!(matches!(read_content(other.as_bytes(), false).outcome, Outcome::Document(_)));
}

#[test]
fn oversized_offsets_are_unreadable() {
    let mut a = vec![0u8; 64];
    a[10] = 1;
    a[11] = 0;
    for b in &mut a[14..22] {
        *b = 0xff;
    }
    match read_document(&a).outcome {
        Outcome::Unreadable(m) => assert_eq!(m, "archive offsets out of range"),
        _ => panic!("expected the archive to be refused"),
    }
    assert!(!odt_reader::archive::check_offsets(&a));
    a[21] = 0;
    assert!(odt_reader::archive::check_offsets(&a));
}
