use evtcollect::metadata::{
    build_channel_table, build_symbol_table, classify_probe, message_id_wanted, ChannelRow,
    ProbeOutcome, SymbolRow, TableKind,
};
use evtcollect::tables::{resolve_keywords, SymbolEntry, SymbolTable};
use evtcollect::variant::VariantBuffer;

fn entry(name: &str) -> SymbolEntry {
    SymbolEntry { name: String::from(name), message: None, guid: None }
}

#[test]
fn keyword_resolution_selects_set_bits_in_order() {
    let mut t = SymbolTable::new();
    t.insert(0x1, entry("Perf"));
    t.insert(0x2, entry("Net"));
    t.insert(0x8, entry("Disk"));
    assert_eq!(resolve_keywords(0x3, &t), vec![String::from("Perf"), String::from("Net")]);
    assert_eq!(resolve_keywords(0x8, &t), vec![String::from("Disk")]);
    assert_eq!(resolve_keywords(0x4, &t), Vec::<String>::new());
}

#[test]
fn keyword_resolution_of_zero_is_empty() {
    let mut t = SymbolTable::new();
    t.insert(0x1, entry("Perf"));
    t.insert(0xFF, entry("All"));
    assert_eq!(resolve_keywords(0, &t), Vec::<String>::new());
}

#[test]
fn keyword_resolution_excludes_reserved_high_bits() {
    let mut t = SymbolTable::new();
    t.insert(0x1, entry("Perf"));
    t.insert(0x1000_0000_0000_0000, entry("Reserved"));
    assert_eq!(
        resolve_keywords(0x1000_0000_0000_0001, &t),
        vec![String::from("Perf")],
    );
}

#[test]
fn keyword_resolution_follows_insertion_order() {
    let mut t = SymbolTable::new();
    t.insert(0x2, entry("Net"));
    t.insert(0x1, entry("Perf"));
    assert_eq!(resolve_keywords(0x3, &t), vec![String::from("Net"), String::from("Perf")]);
}

#[test]
fn symbol_table_overwrites_colliding_codes_in_place() {
    let mut t = SymbolTable::new();
    t.insert(4, entry("First"));
    t.insert(5, entry("Other"));
    let replaced = t.insert(4, entry("Second"));
    assert!(replaced);
    assert_eq!(t.len(), 2);
    assert_eq!(t.get(4).unwrap().name, "Second");
    assert_eq!(t.key_at(0), 4);
}

#[test]
fn build_symbol_table_takes_named_valued_rows_only() {
    let rows = vec![
        SymbolRow {
            name: Some(VariantBuffer::StringVal(String::from("Error"))),
            message: Some(String::from("an error")),
            value: Some(VariantBuffer::UInt32Val(2)),
            guid: None,
        },
        SymbolRow {
            name: None,
            message: None,
            value: Some(VariantBuffer::UInt32Val(3)),
            guid: None,
        },
        SymbolRow {
            name: Some(VariantBuffer::StringVal(String::from("Warning"))),
            message: None,
            value: None,
            guid: None,
        },
    ];
    let t = build_symbol_table(TableKind::Levels, &rows);
    assert_eq!(t.len(), 1);
    let e = t.get(2).unwrap();
    assert_eq!(e.name, "Error");
    assert_eq!(e.message, Some(String::from("an error")));
    assert_eq!(e.guid, None);
    assert!(t.get(3).is_none());
}

#[test]
fn build_keyword_table_reads_wide_masks() {
    let rows = vec![SymbolRow {
        name: Some(VariantBuffer::StringVal(String::from("Wide"))),
        message: None,
        value: Some(VariantBuffer::UInt64Val(0x10)),
        guid: None,
    }];
    let t = build_symbol_table(TableKind::Keywords, &rows);
    assert_eq!(t.get(0x10).unwrap().name, "Wide");
}

#[test]
fn build_task_table_keeps_nonzero_guids() {
    let rows = vec![
        SymbolRow {
            name: Some(VariantBuffer::StringVal(String::from("Logon"))),
            message: None,
            value: Some(VariantBuffer::UInt32Val(1)),
            guid: Some(VariantBuffer::GuidVal(7)),
        },
        SymbolRow {
            name: Some(VariantBuffer::StringVal(String::from("Logoff"))),
            message: None,
            value: Some(VariantBuffer::UInt32Val(2)),
            guid: Some(VariantBuffer::GuidVal(0)),
        },
    ];
    let t = build_symbol_table(TableKind::Tasks, &rows);
    assert_eq!(t.get(1).unwrap().guid, Some(7));
    assert_eq!(t.get(2).unwrap().guid, None);
}

#[test]
fn build_channel_table_reads_all_sub_properties() {
    let rows = vec![ChannelRow {
        name: Some(VariantBuffer::StringVal(String::from("Security"))),
        message: Some(String::from("Security")),
        index: Some(VariantBuffer::UInt32Val(0)),
        imported: Some(VariantBuffer::UInt32Val(1)),
        id: Some(VariantBuffer::UInt32Val(10)),
    }];
    let t = build_channel_table(&rows);
    assert_eq!(t.len(), 1);
    let e = t.get(10).unwrap();
    assert_eq!(e.name, "Security");
    assert_eq!(e.message, Some(String::from("Security")));
    assert_eq!(e.index, Some(0));
    assert_eq!(e.imported, Some(true));
}

#[test]
fn message_id_wanted_honors_the_sentinel() {
    assert_eq!(message_id_wanted(&Some(VariantBuffer::UInt32Val(5))), Some(5));
    assert_eq!(message_id_wanted(&Some(VariantBuffer::UInt32Val(0xFFFF_FFFF))), None);
    assert_eq!(message_id_wanted(&Some(VariantBuffer::UInt64Val(5))), None);
    assert_eq!(message_id_wanted(&None), None);
}

#[test]
fn classify_probe_accepts_the_expected_conditions() {
    assert_eq!(classify_probe(true, false, 0), ProbeOutcome::Proceed(0));
    assert_eq!(classify_probe(false, true, 64), ProbeOutcome::Proceed(64));
    assert_eq!(classify_probe(false, false, 64), ProbeOutcome::Violation);
}
