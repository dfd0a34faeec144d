use odt_reader::document::{DistanceUnit, Node};
use odt_reader::names::{decode_name, split_name, splittable_name};
use odt_reader::odt::{ODTParser, OdtEvent, RawAttribute};
use odt_reader::table::Table;
use std::io::Write;

fn attr(key: &str, value: &str) -> Option<RawAttribute> {
    Some(RawAttribute { key: key.as_bytes().to_vec(), value: value.as_bytes().to_vec() })
}

fn tag(name: &str, attributes: &[(&str, &str)]) -> (Vec<u8>, usize) {
    let mut t = name.as_bytes().to_vec();
    for (k, v) in attributes {
        t.extend_from_slice(format!(" {}=\"{}\"", k, v).as_bytes());
    }
    (t, name.len())
}

fn start(name: &str, attributes: &[(&str, &str)]) -> OdtEvent {
    let (tag, name_len) = tag(name, attributes);
    OdtEvent::Start(tag, name_len)
}

fn empty(name: &str, attributes: &[(&str, &str)]) -> OdtEvent {
    let (tag, name_len) = tag(name, attributes);
    OdtEvent::Empty(tag, name_len)
}

fn end(name: &str) -> OdtEvent {
    OdtEvent::End(name.as_bytes().to_vec())
}

fn text(s: &str) -> OdtEvent {
    OdtEvent::Text(s.as_bytes().to_vec())
}

fn props(t: &Table<Vec<u8>>) -> Vec<(String, String)> {
    t.entries()
        .iter()
        .map(|(k, v)| (String::from_utf8(k.clone()).unwrap(), String::from_utf8(v.clone()).unwrap()))
        .collect()
}

fn parse(p: &mut ODTParser, events: Vec<OdtEvent>) -> Result<(), String> {
    assert!(ODTParser::names_ok(&events));
    p.parse_events(events)
}

#[test]
fn new_parser_has_empty_a4_document() {
    let p = ODTParser::new();
    let d = p.document();
    assert_eq!(d.title, "Kauri (Working Title)");
    assert_eq!(d.paper.height, 297);
    assert_eq!(d.paper.width, 210);
    assert_eq!(d.paper.units, DistanceUnit::Millimetres);
    assert!(d.children.is_empty());
}

fn styles_events() -> Vec<OdtEvent> {
    vec![
        start("office:document-content", &[]),
        start("office:automatic-styles", &[]),
        start("style:style", &[("style:family", "table"), ("style:name", "Table&amp;1")]),
        empty("style:table-properties", &[("style:width", "17cm")]),
        start("style:table-properties", &[("style:width", "16cm"), ("table:align", "left")]),
        end("style:table-properties"),
        end("style:style"),
        start("style:style", &[("style:name", "P1")]),
        empty("style:text-properties", &[("fo:color", "&lt;red&gt;")]),
        end("style:style"),
        end("office:automatic-styles"),
    ]
}

#[test]
fn automatic_styles_are_stored_by_name() {
    let mut p = ODTParser::new();
    assert_eq!(parse(&mut p, styles_events()), Ok(()));
    let t = p.style(b"Table&1").expect("style stored under its unescaped name");
    assert_eq!(props(t), vec![
        ("style:width".to_string(), "16cm".to_string()),
        ("table:align".to_string(), "left".to_string()),
    ]);
    let p1 = p.style(b"P1").expect("style P1");
    assert_eq!(props(p1), vec![("fo:color".to_string(), "<red>".to_string())]);
    assert!(p.style(b"Table&amp;1").is_none());
    assert!(p.document().children.is_empty());
}

#[test]
fn body_blocks_build_the_tree() {
    let mut p = ODTParser::new();
    let mut events = styles_events();
    events.extend(vec![
        start("office:body", &[]),
        start("office:text", &[]),
        start("text:h", &[("text:outline-level", "1")]),
        text("Title"),
        end("text:h"),
        start("text:p", &[]),
        text("a &amp; b"),
        start("text:span", &[]),
        text("inner"),
        end("text:span"),
        text(""),
        end("text:p"),
        end("office:text"),
        end("office:body"),
        OdtEvent::Eof,
        start("text:p", &[]),
    ]);
    assert_eq!(parse(&mut p, events), Ok(()));
    let d = p.document();
    assert_eq!(d.children.len(), 2);
    match &d.children[0] {
        Node::Element(h) => {
            assert_eq!(h.name, b"h".to_vec());
            assert_eq!(h.children.len(), 1);
            assert!(matches!(&h.children[0], Node::Text(t) if t.content == b"Title".to_vec()));
        },
        _ => panic!("expected an element"),
    }
    match &d.children[1] {
        Node::Element(para) => {
            assert_eq!(para.name, b"p".to_vec());
            assert_eq!(para.children.len(), 2);
            assert!(matches!(&para.children[0], Node::Text(t) if t.content == b"a & b".to_vec()));
            match &para.children[1] {
                Node::Element(span) => {
                    assert_eq!(span.name, b"span".to_vec());
                    assert!(matches!(&span.children[0], Node::Text(t) if t.content == b"inner".to_vec()));
                },
                _ => panic!("expected the span"),
            }
        },
        _ => panic!("expected an element"),
    }
}

#[test]
fn failure_is_the_error() {
    let mut p = ODTParser::new();
    let events = vec![
        start("office:body", &[]),
        start("text:p", &[]),
        OdtEvent::Error("bad xml".to_string()),
        end("text:p"),
    ];
    assert_eq!(parse(&mut p, events), Err("bad xml".to_string()));
    assert!(p.document().children.is_empty());
}

#[test]
fn text_outside_blocks_and_bad_text_are_dropped() {
    let mut p = ODTParser::new();
    let events = vec![
        text("before"),
        start("office:body", &[]),
        start("text:p", &[]),
        text("&bogus;"),
        OdtEvent::Text(vec![0xff]),
        text("ok"),
        end("text:p"),
    ];
    assert_eq!(parse(&mut p, events), Ok(()));
    match &p.document().children[0] {
        Node::Element(para) => {
            assert_eq!(para.children.len(), 1);
            assert!(matches!(&para.children[0], Node::Text(t) if t.content == b"ok".to_vec()));
        },
        _ => panic!("expected an element"),
    }
}

#[test]
fn end_hands_style_back_unless_stored() {
    let mut p = ODTParser::new();
    let (n, v) = p.handle_element_start(b"office:automatic-styles", &vec![]);
    assert!(n.is_none() && v.is_none());
    let (n, _) = p.handle_element_start(b"style:style", &vec![attr("style:name", "S")]);
    assert_eq!(n, Some(b"S".to_vec()));
    let back = p.handle_element_end(b"style:table-properties", b"S".to_vec(), Table::new());
    assert!(matches!(back, Some((ref k, _)) if *k == b"S".to_vec()));
    let back = p.handle_element_end(b"style:style", b"S".to_vec(), Table::new());
    assert!(back.is_none());
    assert!(p.style(b"S").is_some());
}

#[test]
fn style_name_defaults_to_empty() {
    let mut p = ODTParser::new();
    p.handle_element_start(b"office:automatic-styles", &vec![]);
    let (n, _) = p.handle_element_start(b"style:style", &vec![attr("style:family", "text")]);
    assert_eq!(n, Some(Vec::new()));
    let (n, _) = p.handle_element_start(b"style:style", &vec![attr("style:name", "&bad")]);
    assert_eq!(n, Some(Vec::new()));
}

#[test]
fn empty_properties_tags() {
    let mut p = ODTParser::new();
    let v = p.handle_element_empty(b"style:table-column-properties", &vec![attr("style:column-width", "5cm")]);
    assert_eq!(props(&v.unwrap()), vec![("style:column-width".to_string(), "5cm".to_string())]);
    assert!(p.handle_element_empty(b"text:s", &vec![]).is_none());
}

#[test]
fn characters_need_an_open_element() {
    let mut p = ODTParser::new();
    p.handle_characters(b"x".to_vec());
    p.handle_element_start(b"office:body", &vec![]);
    p.handle_element_start(b"text:p", &vec![]);
    p.handle_characters(Vec::new());
    p.handle_characters(b"y".to_vec());
    p.handle_element_end(b"text:p", Vec::new(), Table::new());
    match &p.document().children[0] {
        Node::Element(e) => assert_eq!(e.children.len(), 1),
        _ => panic!("expected an element"),
    }
}

#[test]
fn names_are_cut_at_the_first_colon() {
    let (p, l) = split_name(b"text:outline:level");
    assert_eq!(p, b"text".to_vec());
    assert_eq!(l, b"outline:level".to_vec());
    let (p, l) = split_name(b"body");
    assert_eq!(p, Vec::<u8>::new());
    assert_eq!(l, b"ody".to_vec());
    assert!(!splittable_name(b""));
    assert!(!splittable_name("éa".as_bytes()));
    assert!(splittable_name("é:a".as_bytes()));
}

#[test]
fn invalid_names_become_colon() {
    assert_eq!(decode_name(&[0xff, b'a']), b":".to_vec());
    assert_eq!(decode_name(b"text:p"), b"text:p".to_vec());
    let events = vec![OdtEvent::Start(vec![0xff], 1)];
    assert!(ODTParser::names_ok(&events));
    let events = vec![start("é", &[])];
    assert!(!ODTParser::names_ok(&events));
    let events = vec![OdtEvent::Eof, start("é", &[])];
    assert!(ODTParser::names_ok(&events));
}

const CONTENT: &str = r#"<?xml version="1.0" encoding="UTF-8"?>
<office:document-content xmlns:office="o" xmlns:style="s" xmlns:text="t"><office:automatic-styles><style:style style:name="P&amp;1"><style:text-properties fo:color="red"/></style:style></office:automatic-styles><office:body><office:text><text:p>x &lt; y<text:span>z</text:span></text:p></office:text></office:body></office:document-content>"#;

#[test]
fn parses_content_bytes() {
    let mut p = ODTParser::new();
    assert_eq!(p.parse_xml(CONTENT.as_bytes()), Some(Ok(())));
    let t = p.style(b"P&1").expect("style P&1");
    assert_eq!(props(t), vec![("fo:color".to_string(), "red".to_string())]);
    match &p.document().children[0] {
        Node::Element(para) => {
            assert_eq!(para.name, b"p".to_vec());
            assert!(matches!(&para.children[0], Node::Text(t) if t.content == b"x < y".to_vec()));
            assert!(matches!(&para.children[1], Node::Element(s) if s.name == b"span".to_vec()));
        },
        _ => panic!("expected an element"),
    }
}

#[test]
fn malformed_content_gives_the_error() {
    let mut p = ODTParser::new();
    let r = p.parse_xml(b"<office:body><text:p>x</text:q>");
    assert!(matches!(r, Some(Err(_))));
}

#[test]
fn uncuttable_name_is_refused() {
    let mut p = ODTParser::new();
    assert_eq!(p.parse_xml("<é/>".as_bytes()), None);
    assert!(p.document().children.is_empty());
}

fn zipped(name: &str, data: &str) -> Vec<u8> {
    let mut w = zip::ZipWriter::new(std::io::Cursor::new(Vec::new()));
    w.start_file(name, zip::write::FileOptions::default()).unwrap();
    w.write_all(data.as_bytes()).unwrap();
    w.finish().unwrap().into_inner()
}

#[test]
fn parses_archive_bytes() {
    let mut p = ODTParser::new();
    assert_eq!(p.parse(&zipped("content.xml", CONTENT)), Some(Ok(())));
    assert_eq!(p.document().children.len(), 1);
    let mut q = ODTParser::new();
    assert!(matches!(q.parse(&zipped("meta.xml", CONTENT)), Some(Err(_))));
    assert!(matches!(q.parse(b"no zip"), Some(Err(_))));
}

#[test]
fn plain_values_are_kept() {
    assert_eq!(odt_reader::escape::decode_attribute_value(b"P1"), b"P1".to_vec());
    assert_eq!(odt_reader::escape::decode_text(b"plain"), Some(b"plain".to_vec()));
    assert_eq!(odt_reader::escape::decode_text(&[0xff]), None);
    assert_eq!(odt_reader::escape::decode_attribute_value(b"a&amp;b"), b"a&b".to_vec());
}

#[test]
fn broken_attributes_are_skipped() {
    let attrs = odt_reader::odt::read_attributes(b"style:style a=\"1\" a=\"2\"", 11);
    assert_eq!(attrs.len(), 2);
    assert!(attrs[0].is_some());
    assert!(attrs[1].is_none());
}

#[test]
fn unreadable_member_gives_io_error_after_its_events() {
    let mut a = {
        let mut w = zip::ZipWriter::new(std::io::Cursor::new(Vec::new()));
        let options = zip::write::FileOptions::default().compression_method(zip::CompressionMethod::Stored);
        w.start_file("content.xml", options).unwrap();
        w.write_all(CONTENT.as_bytes()).unwrap();
        w.finish().unwrap().into_inner()
    };
    let at = a.windows(CONTENT.len()).position(|w| w == CONTENT.as_bytes()).unwrap();
    let x = at + CONTENT.find("x &lt;").unwrap();
    a[x] ^= 0x20;
    let mut p = ODTParser::new();
    match p.parse(&a) {
        Some(Err(m)) => assert!(m.starts_with("I/O error: "), "{}", m),
        other => panic!("expected an I/O error, got {:?}", other),
    }
    assert_eq!(p.document().children.len(), 1);
    assert!(p.style(b"P&1").is_some());
}
