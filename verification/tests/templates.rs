use world_server::prefabs::{Prefab, Template};
use world_server::tables::{AttrMap, NameMap};

fn walk(fields: &[(&str, usize)]) -> Vec<(String, usize)> {
    fields.iter().map(|(k, b)| (k.to_string(), *b)).collect()
}

fn attrs(pairs: &[(&str, u16)]) -> AttrMap {
    let mut m = AttrMap::new();
    for (k, v) in pairs {
        m.insert(k.to_string(), *v);
    }
    m
}

#[test]
fn new_template_is_empty_with_zero_pad() {
    let t = Template::new();
    assert_eq!(t.len(), 0);
    assert_eq!(t.scratch_pad(), &vec![0u16; 16]);
}

#[test]
fn add_property_replaces_same_name() {
    let mut t = Template::new();
    t.add_property("hp".to_string(), 8);
    t.add_property("hp".to_string(), 4);
    t.add_property("mp".to_string(), 4);
    assert_eq!(t.len(), 2);
}

#[test]
fn load_merges_and_later_wins() {
    let mut t = Template::new();
    t.add_property("hp".to_string(), 8);
    let mut more = NameMap::new();
    more.insert("hp".to_string(), 4);
    more.insert("x".to_string(), 16);
    t.load(more);
    assert_eq!(t.len(), 2);
    // "hp" is now 4 bits wide: a lone 4-bit field at the top of cell 0
    let order = walk(&[("hp", 4)]);
    t.pack_in_order(&order, &attrs(&[("hp", 0xF)]));
    assert_eq!(t.scratch_pad()[0], 0xF000);
}

#[test]
fn pack_in_order_places_fields_from_the_top_of_the_cell() {
    let mut t = Template::new();
    let order = walk(&[("a", 4), ("b", 12)]);
    t.pack_in_order(&order, &attrs(&[("a", 0xA), ("b", 0x123)]));
    assert_eq!(t.scratch_pad()[0], 0xA123);
    assert_eq!(t.scratch_pad()[1], 0);
}

#[test]
fn pack_in_order_moves_to_next_cell_on_boundary() {
    let mut t = Template::new();
    let order = walk(&[("a", 16), ("b", 8), ("c", 8)]);
    t.pack_in_order(&order, &attrs(&[("a", 0xBEEF), ("b", 0x12), ("c", 0x34)]));
    assert_eq!(t.scratch_pad()[0], 0xBEEF);
    assert_eq!(t.scratch_pad()[1], 0x1234);
    assert_eq!(t.scratch_pad()[2], 0);
}

#[test]
fn missing_value_packs_as_zero() {
    let mut t = Template::new();
    t.pack_raw_bytes(vec![0xFFFF]);
    let order = walk(&[("a", 8), ("b", 8)]);
    t.pack_in_order(&order, &attrs(&[("b", 0x7)]));
    assert_eq!(t.scratch_pad()[0], 0x0007);
}

#[test]
fn straddling_field_stays_in_the_same_cell() {
    // a ends at bit 12 (shift 4), b ends at bit 20 (shift 12): the cell does not move on.
    let mut t = Template::new();
    let order = walk(&[("a", 12), ("b", 8)]);
    t.pack_in_order(&order, &attrs(&[("a", 0x001), ("b", 0x03)]));
    assert_eq!(t.scratch_pad()[0], (0x001u16 << 4) | (0x03u16 << 12));
    assert_eq!(t.scratch_pad()[1], 0);
}

#[test]
fn pack_raw_bytes_overwrites_prefix_only() {
    let mut t = Template::new();
    t.pack_raw_bytes(vec![1; 16]);
    t.pack_raw_bytes(vec![7, 8, 9]);
    let mut expected = vec![1u16; 16];
    expected[0] = 7;
    expected[1] = 8;
    expected[2] = 9;
    assert_eq!(t.scratch_pad(), &expected);
}

#[test]
fn unpack_in_order_reads_fields_back() {
    let mut t = Template::new();
    t.pack_raw_bytes(vec![0xA123, 0xBEEF]);
    let order = walk(&[("a", 4), ("b", 12), ("c", 16)]);
    let got = t.unpack_in_order(&order);
    assert_eq!(got.len(), 3);
    assert_eq!(got.get(&"a".to_string()), Some(0xA));
    assert_eq!(got.get(&"b".to_string()), Some(0x123));
    assert_eq!(got.get(&"c".to_string()), Some(0xBEEF));
}

#[test]
fn unpack_in_order_of_nothing_is_empty() {
    let t = Template::new();
    let got = t.unpack_in_order(&Vec::new());
    assert_eq!(got.len(), 0);
}

#[test]
fn unpack_after_pack_in_the_same_order_gives_back_the_values() {
    let mut t = Template::new();
    let order = walk(&[("x", 3), ("y", 5), ("z", 8), ("w", 16), ("v", 1), ("u", 15)]);
    let values = attrs(&[("x", 5), ("y", 17), ("z", 200), ("w", 0xCAFE), ("v", 1), ("u", 0x7FFF)]);
    t.pack_in_order(&order, &values);
    let got = t.unpack_in_order(&order);
    for (name, _) in &order {
        assert_eq!(got.get(name), values.get(name));
    }
    assert_eq!(got.len(), order.len());
}

#[test]
fn template_pack_then_unpack_round_trips_in_walk_order() {
    // 4 + 4 + 8 bits share one cell in whatever order the table walks them.
    let mut t = Template::new();
    t.add_property("a".to_string(), 4);
    t.add_property("b".to_string(), 4);
    t.add_property("c".to_string(), 8);
    let values = attrs(&[("a", 0x9), ("b", 0x6), ("c", 0xA5)]);
    t.pack(&values);
    let got = t.unpack();
    assert_eq!(got.len(), 3);
    assert_eq!(got.get(&"a".to_string()), Some(0x9));
    assert_eq!(got.get(&"b".to_string()), Some(0x6));
    assert_eq!(got.get(&"c".to_string()), Some(0xA5));
}

#[test]
fn template_unpack_gives_zero_for_fields_without_value() {
    let mut t = Template::new();
    t.add_property("a".to_string(), 16);
    t.add_property("b".to_string(), 16);
    t.pack(&attrs(&[("a", 3), ("other", 9)]));
    let got = t.unpack();
    assert_eq!(got.len(), 2);
    assert_eq!(got.get(&"a".to_string()), Some(3));
    assert_eq!(got.get(&"b".to_string()), Some(0));
    assert_eq!(got.get(&"other".to_string()), None);
}

#[test]
fn new_prefab_defaults() {
    let p = Prefab::new();
    assert_eq!(p.entity_id(), 0);
    assert_eq!(p.entity_addr(), 0);
    assert!(!p.dirty());
    assert_eq!(p.attrs().len(), 0);
    assert_eq!(p.template().len(), 0);
}

#[test]
fn prefab_setters_and_touch() {
    let mut p = Prefab::new();
    p.set_entity_id(42);
    p.set_entity_addr(16);
    assert_eq!(p.entity_id(), 42);
    assert_eq!(p.entity_addr(), 16);
    assert!(!p.dirty());
    p.touch();
    assert!(p.dirty());
}

#[test]
fn prefab_write_attr_stores_marks_and_repacks() {
    let mut p = Prefab::new();
    p.write_attr("id".to_string(), 77);
    assert!(p.dirty());
    assert_eq!(p.attrs().get(&"id".to_string()), Some(77));
    // the template has no fields, so the pad stays zero
    assert_eq!(p.template().scratch_pad(), &vec![0u16; 16]);
}

#[test]
fn prefab_unpack_with_no_fields_clears_attrs() {
    let mut p = Prefab::new();
    p.write_attr("id".to_string(), 5);
    p.unpack();
    assert_eq!(p.attrs().len(), 0);
}

#[test]
fn attr_map_insert_get_len() {
    let mut m = AttrMap::new();
    assert_eq!(m.get(&"k".to_string()), None);
    m.insert("k".to_string(), 3);
    m.insert("j".to_string(), 4);
    m.insert("k".to_string(), 5);
    assert_eq!(m.get(&"k".to_string()), Some(5));
    assert_eq!(m.get(&"j".to_string()), Some(4));
    assert_eq!(m.len(), 2);
}

#[test]
fn name_map_operations() {
    let mut m = NameMap::new();
    m.insert("a".to_string(), 1);
    m.insert("b".to_string(), 2);
    assert!(m.contains_key(&"a".to_string()));
    assert!(!m.contains_key(&"c".to_string()));
    let mut other = NameMap::new();
    other.insert("b".to_string(), 20);
    other.insert("c".to_string(), 30);
    m.extend(other);
    assert_eq!(m.len(), 3);
    assert_eq!(m.get(&"b".to_string()), Some(20));
    let mut entries = m.entries();
    entries.sort();
    assert_eq!(entries, vec![("a".to_string(), 1), ("b".to_string(), 20), ("c".to_string(), 30)]);
}
