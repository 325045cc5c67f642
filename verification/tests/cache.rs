use mon_osd::cache::{parse_state, serialize_state, Cache};
use mon_osd::ddc::VcpReply;
use std::collections::HashMap;

#[test]
fn parse_state_reads_valid_lines() {
    let contents = "# comment\n62=50,100\n10=30,100\n\n";
    let values = parse_state(contents);
    assert_eq!(values.get(&0x62), Some(&(50, 100)));
    assert_eq!(values.get(&0x10), Some(&(30, 100)));
    assert_eq!(values.len(), 2);
}

#[test]
fn parse_state_ignores_malformed_lines() {
    let contents = "not a valid line\n62=notanumber,100\n62=50\n";
    let values = parse_state(contents);
    assert!(values.is_empty());
}

#[test]
fn parse_state_handles_empty_input() {
    assert!(parse_state("").is_empty());
}

#[test]
fn cache_serialize_then_parse_round_trips() {
    let mut values = HashMap::new();
    values.insert(0x62u8, (75u16, 100u16));
    values.insert(0x10u8, (40u16, 100u16));
    let serialized = serialize_state(&values);
    let parsed = parse_state(&serialized);
    assert_eq!(parsed, values);
}

#[test]
fn serialized_state_has_header_and_hex_codes() {
    let mut values = HashMap::new();
    values.insert(0x0au8, (7u16, 65535u16));
    let serialized = serialize_state(&values);
    assert_eq!(
        serialized,
        "# mon-osd cached VCP state -- auto-generated, safe to delete\n0a=7,65535\n"
    );
}

#[test]
fn parse_state_trims_and_accepts_plus_and_uppercase_hex() {
    let values = parse_state("  8D = +3 , 010 \r\n");
    assert_eq!(values.get(&0x8d), Some(&(3, 10)));
}

#[test]
fn parse_state_rejects_out_of_range_numbers() {
    let values = parse_state("100=1,2\n10=65536,2\n10=1,-2\n+=1,2\n");
    assert!(values.is_empty());
}

#[test]
fn parse_state_later_line_wins() {
    let values = parse_state("10=1,2\n10=3,4");
    assert_eq!(values.get(&0x10), Some(&(3, 4)));
    assert_eq!(values.len(), 1);
}

#[test]
fn cache_round_trip_on_empty_map() {
    let values: HashMap<u8, (u16, u16)> = HashMap::new();
    assert_eq!(parse_state(&serialize_state(&values)), values);
}

#[test]
fn cache_read_after_write() {
    let mut cache = Cache::from_state("");
    assert_eq!(cache.get(0x62), None);
    cache.set(0x62, 20, 100);
    cache.set(0x10, 5, 50);
    assert_eq!(cache.get(0x62), Some((20, 100)));
    cache.set(0x62, 30, 90);
    assert_eq!(cache.get(0x62), Some((30, 90)));
    assert_eq!(cache.get(0x10), Some((5, 50)));
}

#[test]
fn cache_state_survives_a_save_and_load() {
    let mut cache = Cache::from_state("");
    cache.set(0x12, 44, 100);
    let text = cache.to_state();
    let loaded = Cache::from_state(&text);
    assert_eq!(loaded.get(0x12), Some((44, 100)));
    assert_eq!(loaded.values().len(), 1);
}

#[test]
fn reading_prefers_live_value_and_records_it() {
    let mut cache = Cache::from_state("62=10,80\n");
    let r = cache.reading_or_cached(0x62, Some(VcpReply { current: 33, max: 100 }));
    assert_eq!(r, VcpReply { current: 33, max: 100 });
    assert_eq!(cache.get(0x62), Some((33, 100)));
}

#[test]
fn reading_falls_back_to_cache_then_default() {
    let mut cache = Cache::from_state("62=10,80\n");
    assert_eq!(cache.reading_or_cached(0x62, None), VcpReply { current: 10, max: 80 });
    assert_eq!(cache.reading_or_cached(0x10, None), VcpReply { current: 50, max: 100 });
    assert_eq!(cache.get(0x10), None);
}

#[test]
fn record_written_keeps_known_max_or_uses_100() {
    let mut cache = Cache::from_state("62=10,80\n");
    cache.record_written(0x62, 70);
    assert_eq!(cache.get(0x62), Some((70, 80)));
    cache.record_written(0x10, 40);
    assert_eq!(cache.get(0x10), Some((40, 100)));
}

#[test]
fn cache_get_after_load_and_a_run_of_sets() {
    let mut cache = Cache::from_state("62=10,80\n12=5,100\n");
    cache.set(0x10, 1, 100);
    cache.set(0x62, 2, 90);
    cache.set(0x10, 3, 100);
    assert_eq!(cache.get(0x10), Some((3, 100)));
    assert_eq!(cache.get(0x62), Some((2, 90)));
    assert_eq!(cache.get(0x12), Some((5, 100)));
    assert_eq!(cache.get(0x8d), None);
}

#[test]
fn serialized_state_has_one_line_per_code() {
    let mut values = HashMap::new();
    for code in 0u8..20 {
        values.insert(code, (code as u16, 100u16));
    }
    let text = serialize_state(&values);
    assert_eq!(text.lines().count(), 21);
    assert_eq!(parse_state(&text), values);
}
