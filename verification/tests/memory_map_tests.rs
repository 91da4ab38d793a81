use gdb_flash::client::GdbClient;
use gdb_flash::error::GdbError;
use gdb_flash::hex::parse_hex_u64;
use gdb_flash::memory_map::{
    collect_flash_regions, flash_info_from_reply, parse_flash_regions_from_xml, FlashRegion,
    XmlAttribute, XmlEvent,
};
use gdb_flash::transport::MockTransport;

const MAP: &[u8] = br#"
<memory-map>
  <memory type="ram" start="0x00000000" length="0x08000000"/>
  <memory type="flash" start="0x08000000" length="0x8000">
    <property name="blocksize">0x400</property>
  </memory>
  <memory type="ram" start="0x08008000" length="0xf7ff8000"/>
</memory-map>
"#;

#[test]
fn test_parse_flash_regions_from_xml() {
    let regions = parse_flash_regions_from_xml(MAP).unwrap();

    assert_eq!(regions.len(), 1);

    let r = &regions[0];
    assert_eq!(r.start, 0x0800_0000);
    assert_eq!(r.length, 0x8000);
    assert_eq!(r.blocksize, Some(0x400));
}

#[test]
fn regions_come_in_document_order() {
    let xml = br#"<memory-map>
        <memory type="flash" start="0x1000" length="0x10"></memory>
        <memory type="ram" start="0x0" length="0x100"></memory>
        <memory type="flash" start="2000" length="20"><property name="blocksize">800</property></memory>
    </memory-map>"#;
    let regions = parse_flash_regions_from_xml(xml).unwrap();
    assert_eq!(
        regions,
        vec![
            FlashRegion { start: 0x1000, length: 0x10, blocksize: None },
            FlashRegion { start: 0x2000, length: 0x20, blocksize: Some(0x800) },
        ]
    );
}

#[test]
fn empty_document_has_no_region() {
    assert_eq!(parse_flash_regions_from_xml(b"").unwrap(), vec![]);
    assert_eq!(
        parse_flash_regions_from_xml(b"<memory-map></memory-map>").unwrap(),
        vec![]
    );
}

#[test]
fn self_closed_flash_element_is_a_region() {
    let xml = br#"<memory-map><memory type="flash" start="0x0" length="0x10"/></memory-map>"#;
    assert_eq!(
        parse_flash_regions_from_xml(xml).unwrap(),
        vec![FlashRegion { start: 0, length: 0x10, blocksize: None }]
    );
    let map = br#"<memory-map><memory type="flash" start="0x08000000" length="0x8000"/></memory-map>"#;
    assert_eq!(
        parse_flash_regions_from_xml(map).unwrap(),
        vec![FlashRegion { start: 0x0800_0000, length: 0x8000, blocksize: None }]
    );
}

#[test]
fn each_flash_element_is_one_region_in_document_order() {
    let xml = br#"<memory-map>
        <memory type="flash" start="0x100" length="0x10"/>
        <memory type="ram" start="0x0" length="0x100"/>
        <memory type="flash" start="0x200" length="0x20"><property name="blocksize">0x8</property></memory>
        <memory type="rom" start="0x300" length="0x30"></memory>
        <memory type="flash" start="0x400" length="0x40"></memory>
    </memory-map>"#;
    assert_eq!(
        parse_flash_regions_from_xml(xml).unwrap(),
        vec![
            FlashRegion { start: 0x100, length: 0x10, blocksize: None },
            FlashRegion { start: 0x200, length: 0x20, blocksize: Some(8) },
            FlashRegion { start: 0x400, length: 0x40, blocksize: None },
        ]
    );
}

#[test]
fn attributes_that_cannot_be_read_fail_the_parse() {
    for xml in [
        &br#"<memory-map><memory type="flash" start=0x10 length="0x10"></memory></memory-map>"#[..],
        &br#"<memory-map><memory type="flash" start="0x10" start="0x20" length="0x10"/></memory-map>"#[..],
        &br#"<memory-map><memory type="ram" start length="0x10"/></memory-map>"#[..],
    ] {
        assert!(matches!(
            parse_flash_regions_from_xml(xml),
            Err(GdbError::MalformedMemoryMap)
        ));
    }
    let other = br#"<memory-map><note a=1/><memory type="flash" start="0x10" length="0x10"/></memory-map>"#;
    assert_eq!(
        parse_flash_regions_from_xml(other).unwrap(),
        vec![FlashRegion { start: 0x10, length: 0x10, blocksize: None }]
    );
}

#[test]
fn malformed_number_fails_the_parse() {
    let xml = br#"<memory-map><memory type="flash" start="0xZZ" length="0x10"></memory></memory-map>"#;
    assert!(matches!(
        parse_flash_regions_from_xml(xml),
        Err(GdbError::MalformedMemoryMap)
    ));
    let ram = br#"<memory-map><memory type="ram" start="0x0" length=""></memory></memory-map>"#;
    assert!(matches!(
        parse_flash_regions_from_xml(ram),
        Err(GdbError::MalformedMemoryMap)
    ));
}

#[test]
fn malformed_document_fails_the_parse() {
    let xml = br#"<memory-map><memory type="flash" start="0x0" length="0x10"></wrong></memory-map>"#;
    assert!(matches!(
        parse_flash_regions_from_xml(xml),
        Err(GdbError::MalformedMemoryMap)
    ));
}

#[test]
fn text_that_is_no_number_leaves_the_block_size_open() {
    let xml = br#"<memory-map><memory type="flash" start="0x0" length="0x10"><property>big</property></memory></memory-map>"#;
    assert_eq!(
        parse_flash_regions_from_xml(xml).unwrap(),
        vec![FlashRegion { start: 0, length: 0x10, blocksize: None }]
    );
}

#[test]
fn entities_in_text_are_resolved() {
    let xml = br#"<memory-map><memory type="flash" start="0x0" length="0x10"><property>&#x34;00</property></memory></memory-map>"#;
    assert_eq!(
        parse_flash_regions_from_xml(xml).unwrap(),
        vec![FlashRegion { start: 0, length: 0x10, blocksize: Some(0x400) }]
    );
}

fn attr(key: &str, value: &str) -> XmlAttribute {
    XmlAttribute { key: key.as_bytes().to_vec(), value: value.as_bytes().to_vec() }
}

#[test]
fn collect_walks_given_events() {
    let events = vec![
        XmlEvent::Start { name: b"memory-map".to_vec(), attributes: Some(vec![]) },
        XmlEvent::Start {
            name: b"memory".to_vec(),
            attributes: Some(vec![
                attr("type", "flash"),
                attr("start", "0x10"),
                attr("length", " 20 "),
            ]),
        },
        XmlEvent::Text { text: Some("0X40".to_string()) },
        XmlEvent::End { name: b"memory".to_vec() },
        XmlEvent::Other,
        XmlEvent::End { name: b"memory-map".to_vec() },
        XmlEvent::Eof,
        XmlEvent::Malformed,
    ];
    assert_eq!(
        collect_flash_regions(&events).unwrap(),
        vec![FlashRegion { start: 0x10, length: 0x20, blocksize: Some(0x40) }]
    );
}

#[test]
fn collect_fails_on_text_that_cannot_be_resolved() {
    let open = XmlEvent::Start {
        name: b"memory".to_vec(),
        attributes: Some(vec![attr("type", "flash")]),
    };
    let events = vec![open, XmlEvent::Text { text: None }];
    assert!(matches!(
        collect_flash_regions(&events),
        Err(GdbError::MalformedMemoryMap)
    ));
    let outside = vec![XmlEvent::Text { text: None }, XmlEvent::Eof];
    assert_eq!(collect_flash_regions(&outside).unwrap(), vec![]);
}

#[test]
fn collect_fails_on_attribute_bytes_that_are_no_text() {
    let events = vec![XmlEvent::Start {
        name: b"memory".to_vec(),
        attributes: Some(vec![XmlAttribute { key: b"start".to_vec(), value: vec![0xff, 0x30] }]),
    }];
    assert!(matches!(
        collect_flash_regions(&events),
        Err(GdbError::MalformedMemoryMap)
    ));
}

#[test]
fn hex_numbers() {
    assert_eq!(parse_hex_u64("0x08000000"), Some(0x0800_0000));
    assert_eq!(parse_hex_u64("8000"), Some(0x8000));
    assert_eq!(parse_hex_u64("  0XfF\n"), Some(0xff));
    assert_eq!(parse_hex_u64("\u{a0}10\u{3000}"), Some(0x10));
    assert_eq!(parse_hex_u64("+1f"), Some(0x1f));
    assert_eq!(parse_hex_u64("0x+1f"), Some(0x1f));
    assert_eq!(parse_hex_u64("ffffffffffffffff"), Some(u64::MAX));
    assert_eq!(parse_hex_u64("0000000000000000000001"), Some(1));
    assert_eq!(parse_hex_u64("10000000000000000"), None);
    assert_eq!(parse_hex_u64(""), None);
    assert_eq!(parse_hex_u64("0x"), None);
    assert_eq!(parse_hex_u64("+"), None);
    assert_eq!(parse_hex_u64("-1"), None);
    assert_eq!(parse_hex_u64("12g"), None);
    assert_eq!(parse_hex_u64("1 2"), None);
    assert_eq!(parse_hex_u64("0x0x1"), None);
}

#[test]
fn hex_numbers_agree_with_std() {
    for text in ["0", "7", "0x7", "abc", "ABC", "+0", " 12 ", "x1", "0X", "1_0", "fffffffffffffffff"] {
        let trimmed = text.trim();
        let digits = trimmed
            .strip_prefix("0x")
            .or_else(|| trimmed.strip_prefix("0X"))
            .unwrap_or(trimmed);
        assert_eq!(parse_hex_u64(text), u64::from_str_radix(digits, 16).ok(), "{}", text);
    }
}

#[test]
fn flash_info_from_reply_judges_the_marker() {
    let mut reply = vec![b'l'];
    reply.extend_from_slice(MAP);
    assert_eq!(
        flash_info_from_reply(reply).unwrap(),
        vec![FlashRegion { start: 0x0800_0000, length: 0x8000, blocksize: Some(0x400) }]
    );
    let mut more = vec![b'm'];
    more.extend_from_slice(MAP);
    assert_eq!(flash_info_from_reply(more).unwrap().len(), 1);
    match flash_info_from_reply(Vec::new()) {
        Err(GdbError::RemoteRejected { command, response }) => {
            assert_eq!(command, b"qXfer:memory-map:read::0,fff");
            assert!(response.is_empty());
        }
        other => panic!("{:?}", other),
    }
    match flash_info_from_reply(b"E01".to_vec()) {
        Err(GdbError::RemoteRejected { response, .. }) => assert_eq!(response, b"E01"),
        other => panic!("{:?}", other),
    }
}

#[test]
fn get_flash_info_asks_and_parses() {
    let mut payload = vec![b'l'];
    payload.extend_from_slice(MAP);
    let responses = vec![vec![b'+'], MockTransport::rsp_packet(&payload)];
    let mut client = GdbClient::new(MockTransport::new(responses, true));
    let regions = client.get_flash_info().unwrap();
    assert_eq!(
        regions,
        vec![FlashRegion { start: 0x0800_0000, length: 0x8000, blocksize: Some(0x400) }]
    );
    let sent = &client.transport().sent_packets;
    assert_eq!(sent.len(), 2);
    assert!(sent[0].starts_with(b"$qXfer:memory-map:read::0,fff#"));
    assert_eq!(sent[1], b"+");
}

#[test]
fn collect_fails_on_a_memory_element_without_readable_attributes() {
    let broken = vec![XmlEvent::Start { name: b"memory".to_vec(), attributes: None }];
    assert!(matches!(
        collect_flash_regions(&broken),
        Err(GdbError::MalformedMemoryMap)
    ));
    let other = vec![XmlEvent::Start { name: b"note".to_vec(), attributes: None }, XmlEvent::Eof];
    assert_eq!(collect_flash_regions(&other).unwrap(), vec![]);
}
