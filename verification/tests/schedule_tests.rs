use evtcollect::events::EvtEvent;
use evtcollect::provider::EvtProvider;
use evtcollect::schedule::{divvy_tasks_from_providers, file_key_of, sort_events_by_timestamp};
use evtcollect::tables::{ChannelEntry, ChannelTable};

fn channel(name: &str) -> ChannelEntry {
    ChannelEntry { name: String::from(name), message: None, index: None, imported: None }
}

fn provider_with_channels(name: &str, chans: &[&str]) -> EvtProvider {
    let mut table = ChannelTable::new();
    let mut id: u64 = 1;
    for c in chans {
        table.insert(id, channel(c));
        id += 1;
    }
    EvtProvider::new(
        String::from(name),
        String::from("host"),
        Some(table),
        None,
        None,
        None,
        None,
    )
}

#[test]
fn task_partition_groups_providers_by_channel() {
    let providers = vec![
        provider_with_channels("A", &["X", "Y"]),
        provider_with_channels("B", &["Y"]),
    ];
    let tasks = divvy_tasks_from_providers(&providers, &Vec::new());
    assert_eq!(tasks.len(), 2);
    assert_eq!(tasks.get("X").unwrap(), &vec![String::from("A")]);
    assert_eq!(
        tasks.get("Y").unwrap(),
        &vec![String::from("A"), String::from("B")]
    );
    assert!(tasks.get("Z").is_none());
}

#[test]
fn task_partition_deduplicates_providers_by_name() {
    let providers = vec![
        provider_with_channels("A", &["X"]),
        provider_with_channels("A", &["Y"]),
    ];
    let tasks = divvy_tasks_from_providers(&providers, &Vec::new());
    assert_eq!(tasks.len(), 1);
    assert!(tasks.get("X").is_some());
    assert!(tasks.get("Y").is_none());
}

#[test]
fn archive_file_name_yields_embedded_channel_key() {
    assert_eq!(file_key_of("Archive-Security-2023-01-01.evtx"), "Security");
}

#[test]
fn escaped_file_name_yields_restored_channel_key() {
    assert_eq!(file_key_of("MyApp%4Operational.evtx"), "MyApp/Operational");
}

#[test]
fn file_key_handles_paths_and_near_misses() {
    assert_eq!(file_key_of("C:\\Logs\\Archive-App-2020.evtx"), "App");
    assert_eq!(file_key_of("/var/log/Archive-App-2020.evtx"), "App");
    assert_eq!(file_key_of("Archive-NoDate.evtx"), "Archive-NoDate");
    assert_eq!(file_key_of("Archive--x.evtx"), "Archive--x");
    assert_eq!(file_key_of("Security.evtx"), "Security");
}

#[test]
fn named_channels_narrow_the_partition() {
    let providers = vec![
        provider_with_channels("A", &["X", "Y"]),
        provider_with_channels("B", &["Y"]),
    ];
    let args = vec![String::from("Archive-Y-2023.evtx"), String::from("Other.evtx")];
    let tasks = divvy_tasks_from_providers(&providers, &args);
    assert_eq!(tasks.len(), 1);
    assert_eq!(
        tasks.get("Archive-Y-2023.evtx").unwrap(),
        &vec![String::from("A"), String::from("B")]
    );
    assert!(tasks.get("X").is_none());
}

fn event(ts: &str, rid: u32) -> EvtEvent {
    let xml = format!(
        "<Event><System><TimeCreated SystemTime=\"{}\"/><EventRecordID>{}</EventRecordID></System></Event>",
        ts, rid
    );
    EvtEvent::new(&xml, String::from("msg")).unwrap()
}

#[test]
fn ordering_is_stable_by_timestamp() {
    let e1 = event("2023-01-01T00:00:02.0000000Z", 1);
    let e2 = event("2023-01-01T00:00:01.0000000Z", 2);
    let e3 = event("2023-01-01T00:00:01.0000000Z", 3);
    let sorted = sort_events_by_timestamp(vec![e1, e2, e3]);
    assert_eq!(sorted.len(), 3);
    assert_eq!(sorted[0].get_record_id(), 2);
    assert_eq!(sorted[1].get_record_id(), 3);
    assert_eq!(sorted[2].get_record_id(), 1);
    assert_eq!(sorted[0].get_timestamp(), "2023-01-01T00:00:01.0000000Z");
    assert_eq!(sorted[2].get_timestamp(), "2023-01-01T00:00:02.0000000Z");
}
