use std::collections::hash_map::DefaultHasher;
use std::hash::{Hash, Hasher};

use evtcollect::event_meta::{EventFields, EventResolveError, EvtEventMetadata};
use evtcollect::metadata_cache::EvtCache;
use evtcollect::provider::{EvtProvider, GuidWrapper};
use evtcollect::tables::{ChannelEntry, ChannelTable, SymbolEntry, SymbolTable};

fn entry(name: &str) -> SymbolEntry {
    SymbolEntry { name: String::from(name), message: None, guid: None }
}

fn channel(name: &str) -> ChannelEntry {
    ChannelEntry { name: String::from(name), message: None, index: None, imported: None }
}

fn bare_provider(name: &str) -> EvtProvider {
    EvtProvider::new(String::from(name), String::from("host"), None, None, None, None, None)
}

#[test]
fn test_provider_initialization() {
    let provider_name = "Microsoft-Windows-Security-Auditing";
    let provider = bare_provider(provider_name);
    assert_eq!(provider.get_name(), provider_name);
}

#[test]
fn test_provider_channel_initialization() {
    let provider_name = "Microsoft-Windows-Security-Auditing";
    let mut expected_channels = ChannelTable::new();
    expected_channels.insert(
        10,
        ChannelEntry {
            name: String::from("Security"),
            message: Some(String::from("Security")),
            index: Some(0),
            imported: Some(true),
        },
    );
    let mut channels = ChannelTable::new();
    channels.insert(
        10,
        ChannelEntry {
            name: String::from("Security"),
            message: Some(String::from("Security")),
            index: Some(0),
            imported: Some(true),
        },
    );
    let provider = EvtProvider::new(
        String::from(provider_name),
        String::from("host"),
        Some(channels),
        None,
        None,
        None,
        None,
    );
    assert_eq!(provider.get_channels(), &expected_channels);
}

#[test]
fn provider_identity_is_the_name_alone() {
    let mut levels = SymbolTable::new();
    levels.insert(4, entry("Information"));
    let rich = EvtProvider::new(
        String::from("Same"),
        String::from("host-a"),
        None,
        Some(levels),
        None,
        None,
        None,
    );
    let bare = EvtProvider::new(
        String::from("Same"),
        String::from("host-b"),
        None,
        None,
        None,
        None,
        None,
    );
    assert_eq!(rich, bare);
    assert_ne!(rich, bare_provider("Other"));
}

#[test]
fn provider_identity_hashes_through_the_name() {
    let mut levels = SymbolTable::new();
    levels.insert(4, entry("Information"));
    let rich = EvtProvider::new(
        String::from("Same"),
        String::from("host-a"),
        None,
        Some(levels),
        None,
        None,
        None,
    );
    let bare = EvtProvider::new(
        String::from("Same"),
        String::from("host-b"),
        None,
        None,
        None,
        None,
        None,
    );
    let mut h1 = DefaultHasher::new();
    rich.hash(&mut h1);
    let mut h2 = DefaultHasher::new();
    bare.hash(&mut h2);
    assert_eq!(h1.finish(), h2.finish());
}

#[test]
fn guid_text_is_dashed_lowercase_hex() {
    let g = GuidWrapper(0x0123_4567_89ab_cdef_0123_4567_89ab_cdef);
    assert_eq!(g.to_guid_string(), "01234567-89ab-cdef-0123-456789abcdef");
    assert_eq!(
        GuidWrapper(0).to_guid_string(),
        "00000000-0000-0000-0000-000000000000"
    );
}

fn resolving_provider() -> EvtProvider {
    let mut channels = ChannelTable::new();
    channels.insert(1, channel("App"));
    let mut levels = SymbolTable::new();
    levels.insert(4, entry("Information"));
    let mut keywords = SymbolTable::new();
    keywords.insert(0x1, entry("Perf"));
    EvtProvider::new(
        String::from("Prov"),
        String::from("host"),
        Some(channels),
        Some(levels),
        None,
        None,
        Some(keywords),
    )
}

fn fields() -> EventFields {
    EventFields {
        id: 100,
        version: 0,
        channel_id: 1,
        level: 4,
        opcode: 0,
        task: 0,
        keyword_mask: 0x1,
        message: String::from("a message"),
        template: String::from("<template/>"),
    }
}

#[test]
fn event_template_resolution_fills_every_field() {
    let p = resolving_provider();
    let m = EvtEventMetadata::from_event(fields(), &p).unwrap();
    assert_eq!(m.id, 100);
    assert_eq!(m.version, 0);
    assert_eq!(m.channel, "App");
    assert_eq!(m.level, "Information");
    assert_eq!(m.opcode, "Info");
    assert_eq!(m.task, "None");
    assert_eq!(m.keywords, vec![String::from("Perf")]);
    assert_eq!(m.message, "a message");
    assert_eq!(m.template, "<template/>");
}

#[test]
fn event_template_resolution_reports_the_failing_field() {
    let p = resolving_provider();
    let mut f = fields();
    f.channel_id = 9;
    assert_eq!(
        EvtEventMetadata::from_event(f, &p),
        Err(EventResolveError::UnresolvedChannel(9))
    );
    let mut f = fields();
    f.level = 2;
    assert_eq!(
        EvtEventMetadata::from_event(f, &p),
        Err(EventResolveError::UnresolvedLevel(2))
    );
    let mut f = fields();
    f.opcode = 5;
    assert_eq!(
        EvtEventMetadata::from_event(f, &p),
        Err(EventResolveError::UnresolvedOpcode(5))
    );
    let mut f = fields();
    f.task = 7;
    assert_eq!(
        EvtEventMetadata::from_event(f, &p),
        Err(EventResolveError::UnresolvedTask(7))
    );
}

#[test]
fn event_template_resolution_accepts_a_missing_message() {
    let p = resolving_provider();
    let mut f = fields();
    f.message = String::new();
    let m = EvtEventMetadata::from_event(f, &p).unwrap();
    assert_eq!(m.message, "");
    assert_eq!(m.level, "Information");
}

#[test]
fn cache_stores_first_arrival_per_name() {
    let mut cache = EvtCache::new();
    cache.add_provider(bare_provider("A"));
    cache.add_provider(bare_provider("B"));
    cache.add_provider(bare_provider("A"));
    assert_eq!(cache.len(), 2);
    assert!(cache.provider_exists("A"));
    assert!(!cache.provider_exists("C"));
    assert_eq!(cache.get_provider("B").unwrap().get_name(), "B");
    assert_eq!(
        cache.get_all_providers(),
        vec![String::from("A"), String::from("B")]
    );
    cache.remove_provider("A");
    assert_eq!(cache.len(), 1);
    assert!(!cache.provider_exists("A"));
    assert_eq!(cache.get_data().len(), 1);
}
