use evtcollect::event_meta::{EventFields, EvtEventMetadata};
use evtcollect::events::{message_or_diagnostic, EvtError, EvtEvent};
use evtcollect::export::csv_row;
use evtcollect::provider::EvtProvider;
use evtcollect::schedule::sort_events_by_timestamp;
use evtcollect::strutil::parse_u32;
use evtcollect::tables::{ChannelEntry, ChannelTable, SymbolEntry, SymbolTable};

const SAMPLE_XML: &str = "<Event><System><Provider Name=\"Prov\"/><Channel>App</Channel>\
<TimeCreated SystemTime=\"2023-01-01T00:00:00.0000000Z\"/><EventRecordID>12</EventRecordID>\
</System><RenderingInfo><Keywords><Keyword>Perf</Keyword><Keyword>Net</Keyword></Keywords>\
</RenderingInfo></Event>";

#[test]
fn record_envelope_is_read_from_the_payload() {
    let ev = EvtEvent::new(SAMPLE_XML, String::from("hello")).unwrap();
    assert_eq!(ev.get_provider(), "Prov");
    assert_eq!(ev.get_channel(), "App");
    assert_eq!(ev.get_timestamp(), "2023-01-01T00:00:00.0000000Z");
    assert_eq!(ev.get_record_id(), 12);
    assert_eq!(ev.get_event_message(), "hello");
    assert_eq!(ev.get_xml(), SAMPLE_XML);
    assert_eq!(
        ev.get_keywords(),
        &vec![String::from("Perf"), String::from("Net")]
    );
}

#[test]
fn record_defaults_fill_missing_envelope_parts() {
    let xml = "<Event><System><EventRecordID>7</EventRecordID></System></Event>";
    let ev = EvtEvent::new(xml, String::new()).unwrap();
    assert_eq!(ev.get_provider(), "");
    assert_eq!(ev.get_channel(), "");
    assert_eq!(ev.get_timestamp(), "1970-01-01T00:00:00.0000000Z");
    assert_eq!(ev.get_keywords(), &Vec::<String>::new());
}

#[test]
fn record_errors_name_what_is_wrong() {
    assert_eq!(
        EvtEvent::new("not xml at all", String::new()),
        Err(EvtError::MalformedPayload)
    );
    assert_eq!(
        EvtEvent::new("<Event><Other/></Event>", String::new()),
        Err(EvtError::MalformedPayload)
    );
    assert_eq!(
        EvtEvent::new("<Event><System><Channel>App</Channel></System></Event>", String::new()),
        Err(EvtError::MalformedPayload)
    );
    assert_eq!(
        EvtEvent::new(
            "<Event><System><EventRecordID>abc</EventRecordID></System></Event>",
            String::new(),
        ),
        Err(EvtError::InvalidRecordId)
    );
}

#[test]
fn message_diagnostic_substitutes_for_failures() {
    assert_eq!(
        message_or_diagnostic(Some(String::from("fine")), "ignored"),
        "fine"
    );
    assert_eq!(
        message_or_diagnostic(None, "no publisher"),
        "Failed to get event message: no publisher"
    );
}

#[test]
fn numeric_parsing_is_exact() {
    assert_eq!(parse_u32("42"), Some(42));
    assert_eq!(parse_u32("+7"), Some(7));
    assert_eq!(parse_u32("0"), Some(0));
    assert_eq!(parse_u32("4294967295"), Some(u32::MAX));
    assert_eq!(parse_u32("4294967296"), None);
    assert_eq!(parse_u32(""), None);
    assert_eq!(parse_u32("+"), None);
    assert_eq!(parse_u32("12a"), None);
    assert_eq!(parse_u32("-1"), None);
}

#[test]
fn csv_row_flattens_the_system_section() {
    let xml = "<Event><System><Provider Name=\"P\"/><EventRecordID>5</EventRecordID>\
<TimeCreated SystemTime=\"T\"/></System></Event>";
    let ev = EvtEvent::new(xml, String::from("line one\nline two")).unwrap();
    let (headers, cells) = csv_row(&ev).unwrap();
    assert_eq!(
        headers,
        vec![
            String::from("Provider"),
            String::from("EventRecordID"),
            String::from("TimeCreated"),
            String::from("Message"),
            String::from("XML"),
        ]
    );
    assert_eq!(
        cells,
        vec![
            String::from("P"),
            String::from("5"),
            String::from("T"),
            String::from("line one"),
            String::from(xml),
        ]
    );
}

#[test]
fn csv_row_replaces_line_breaks_in_the_payload_cell() {
    let xml = "<Event><System><EventRecordID>1</EventRecordID></System></Event>";
    let ev = EvtEvent::new(xml, String::new()).unwrap();
    let (headers, cells) = csv_row(&ev).unwrap();
    assert_eq!(headers.last().unwrap(), "XML");
    assert_eq!(cells.last().unwrap(), xml);
    assert_eq!(headers.len(), 3);
    assert_eq!(cells.len(), 2);
}

#[test]
fn end_to_end_single_provider_scenario() {
    let mut channels = ChannelTable::new();
    channels.insert(
        1,
        ChannelEntry { name: String::from("App"), message: None, index: None, imported: None },
    );
    let mut levels = SymbolTable::new();
    levels.insert(
        4,
        SymbolEntry { name: String::from("Information"), message: None, guid: None },
    );
    let mut keywords = SymbolTable::new();
    keywords.insert(
        0x1,
        SymbolEntry { name: String::from("Perf"), message: None, guid: None },
    );
    let provider = EvtProvider::new(
        String::from("Prov"),
        String::from("host"),
        Some(channels),
        Some(levels),
        None,
        None,
        Some(keywords),
    );
    let template = EvtEventMetadata::from_event(
        EventFields {
            id: 100,
            version: 0,
            channel_id: 1,
            level: 4,
            opcode: 0,
            task: 0,
            keyword_mask: 0x1,
            message: String::from("rendered"),
            template: String::new(),
        },
        &provider,
    )
    .unwrap();
    assert_eq!(template.level, "Information");
    assert_eq!(template.keywords, vec![String::from("Perf")]);
    let xml = "<Event><System><Provider Name=\"Prov\"/><Channel>App</Channel>\
<TimeCreated SystemTime=\"2023-01-01T00:00:00.0000000Z\"/><EventRecordID>1</EventRecordID>\
</System></Event>";
    let record = EvtEvent::new(xml, String::from("rendered")).unwrap();
    let sorted = sort_events_by_timestamp(vec![record]);
    assert_eq!(sorted.len(), 1);
    assert_eq!(sorted[0].get_timestamp(), "2023-01-01T00:00:00.0000000Z");
    let (_, cells) = csv_row(&sorted[0]).unwrap();
    assert_eq!(cells[2], "2023-01-01T00:00:00.0000000Z");
}
