use mon_osd::display_map::{
    parse_mappings, parse_volume_index, serialize_mappings, volume_index_text, DisplayMap,
};
use mon_osd::ioav::DisplayIdentity;

fn id(vendor: u32, model: u32, serial: u32) -> DisplayIdentity {
    DisplayIdentity { vendor, model, serial }
}

#[test]
fn parse_mappings_with_and_without_names() {
    let contents = "1554:31292:16843009=0,Q24P2W1G5\n4268:1234=1\n";
    // second line intentionally malformed (missing a segment) -- confirms it's skipped
    let values = parse_mappings(contents);
    assert_eq!(values.len(), 1);
    assert_eq!(values.mapping(id(1554, 31292, 16843009)).unwrap().av_index, 0);
    assert_eq!(values.mapping(id(1554, 31292, 16843009)).unwrap().name.as_deref(), Some("Q24P2W1G5"));
}

#[test]
fn display_map_serialize_then_parse_round_trips() {
    let mut values = DisplayMap::new();
    values.set(id(1554, 31292, 16843009), 0, Some("Q24P2W1G5".to_string()));
    values.set(id(4268, 1, 2), 1, None);
    let serialized = serialize_mappings(&values);
    let parsed = parse_mappings(&serialized);
    assert_eq!(parsed.len(), 2);
    assert_eq!(parsed.mapping(id(1554, 31292, 16843009)).unwrap().av_index, 0);
    assert_eq!(parsed.mapping(id(1554, 31292, 16843009)).unwrap().name.as_deref(), Some("Q24P2W1G5"));
    assert_eq!(parsed.mapping(id(4268, 1, 2)).unwrap().name, None);
}

#[test]
fn ignores_malformed_lines() {
    let values = parse_mappings("garbage\n1:2:3=notanumber\n");
    assert_eq!(values.len(), 0);
}

#[test]
fn serialized_mappings_exact_text() {
    let mut values = DisplayMap::new();
    values.set(id(1, 2, 3), 4, Some("Left".to_string()));
    values.set(id(5, 6, 7), 8, None);
    assert_eq!(
        serialize_mappings(&values),
        "# mon-osd display-identity (vendor:model:serial) -> av-index mapping -- auto-generated\n1:2:3=4,Left\n5:6:7=8\n"
    );
}

#[test]
fn parse_mappings_edge_cases() {
    let values = parse_mappings(
        "# c\n 1 : 2 : 3 = 4 , x y \n1:2:3:4=5\n9:9:9=1,\n7:7:7=2,a,b=c\n4294967296:1:1=0\n",
    );
    // "1:2:3:4" has four parts and the overflowing vendor is rejected.
    assert_eq!(values.len(), 3);
    let m = values.mapping(id(1, 2, 3)).unwrap();
    assert_eq!(m.av_index, 4);
    assert_eq!(m.name.as_deref(), Some(" x y"));
    // An empty label after ',' is no label.
    assert_eq!(values.mapping(id(9, 9, 9)).unwrap().name, None);
    // Only the first ',' separates the label.
    assert_eq!(values.mapping(id(7, 7, 7)).unwrap().name.as_deref(), Some("a,b=c"));
}

#[test]
fn mapping_read_after_write() {
    let mut m = DisplayMap::new();
    assert_eq!(m.get(id(1, 1, 1)), None);
    m.set(id(1, 1, 1), 3, None);
    m.set(id(2, 2, 2), 4, Some("B".to_string()));
    m.set(id(1, 1, 1), 5, Some("A".to_string()));
    assert_eq!(m.get(id(1, 1, 1)), Some(5));
    assert_eq!(m.get(id(2, 2, 2)), Some(4));
    assert_eq!(m.len(), 2);
    assert_eq!(m.all().len(), 2);
    assert_eq!(m.all()[0].0, id(1, 1, 1));
}

#[test]
fn later_line_for_an_identity_wins() {
    let values = parse_mappings("1:1:1=0\n1:1:1=7,Z\n");
    assert_eq!(values.len(), 1);
    assert_eq!(values.get(id(1, 1, 1)), Some(7));
}

#[test]
fn volume_index_round_trips() {
    assert_eq!(volume_index_text(12), "12");
    assert_eq!(parse_volume_index(&volume_index_text(0)), Some(0));
    assert_eq!(parse_volume_index(" 3\n"), Some(3));
    assert_eq!(parse_volume_index("x"), None);
    assert_eq!(parse_volume_index(""), None);
}

#[test]
fn mapping_get_after_load_and_a_run_of_sets() {
    let mut m = parse_mappings("1:1:1=0,A\n2:2:2=5\n");
    m.set(id(3, 3, 3), 1, None);
    m.set(id(1, 1, 1), 2, None);
    m.set(id(3, 3, 3), 4, Some("C".to_string()));
    assert_eq!(m.get(id(3, 3, 3)), Some(4));
    assert_eq!(m.get(id(1, 1, 1)), Some(2));
    assert_eq!(m.get(id(2, 2, 2)), Some(5));
    assert_eq!(m.get(id(9, 9, 9)), None);
}
