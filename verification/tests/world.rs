use world_server::level::world::World;
use world_server::level::Level;

#[test]
fn fresh_world_diff_reports_nothing() {
    let mut w = World::new();
    let r = w.diff();
    assert!(r.changed_indices().is_empty());
    assert!(r.contiguous_sections().is_empty());
    assert!(r.changed_bytes().is_empty());
    assert!(r.as_packets().is_empty());
}

#[test]
fn single_change_is_reported_as_one_empty_section() {
    let mut w = World::new();
    w.write(&100, vec![9]);
    let r = w.diff();
    assert_eq!(r.changed_indices(), &vec![100]);
    assert_eq!(r.contiguous_sections(), &vec![(0, 0)]);
    assert_eq!(r.changed_bytes(), &vec![Vec::<u16>::new()]);
    let packets = r.as_packets();
    assert_eq!(packets.len(), 1);
    assert_eq!(packets[0].address(), 100);
    assert_eq!(packets[0].length(), 0);
    assert!(packets[0].bytes().is_empty());
}

#[test]
fn change_at_position_one_makes_no_section() {
    let mut w = World::new();
    w.write(&1, vec![3]);
    let r = w.diff();
    assert_eq!(r.changed_indices(), &vec![1]);
    assert!(r.contiguous_sections().is_empty());
    assert!(r.changed_bytes().is_empty());
    assert!(r.as_packets().is_empty());
}

#[test]
fn diff_after_diff_reports_nothing() {
    let mut w = World::new();
    w.write(&8191, vec![1]);
    let first = w.diff();
    assert_eq!(first.changed_indices(), &vec![8191]);
    let second = w.diff();
    assert!(second.changed_indices().is_empty());
    assert!(second.as_packets().is_empty());
}

#[test]
fn writing_the_same_value_is_no_change() {
    let mut w = World::new();
    w.write(&0, vec![0, 0, 0]);
    let r = w.diff();
    assert!(r.changed_indices().is_empty());
}

#[test]
fn rewriting_a_cell_back_is_no_change() {
    let mut w = World::new();
    w.write(&50, vec![4]);
    w.write(&50, vec![0]);
    let r = w.diff();
    assert!(r.changed_indices().is_empty());
}

#[test]
fn entity_ids_are_every_eighth_cell() {
    let mut w = World::new();
    w.write(&0, vec![11]);
    w.write(&8, vec![12]);
    w.write(&9, vec![99]);
    let ids = w.entity_ids();
    assert_eq!(ids.len(), 1024);
    assert_eq!(ids[0], 11);
    assert_eq!(ids[1], 12);
    assert_eq!(ids[2], 0);
}

#[test]
fn first_free_address_skips_taken_slots() {
    let mut w = World::new();
    assert_eq!(w.first_free_address(), 0);
    w.write(&0, vec![5]);
    w.write(&8, vec![6]);
    w.write(&17, vec![7]);
    assert_eq!(w.first_free_address(), 16);
}

#[test]
fn first_free_address_is_zero_when_full() {
    let mut w = World::new();
    for slot in 0..1024usize {
        w.write(&(slot * 8), vec![1]);
    }
    assert_eq!(w.first_free_address(), 0);
}

#[test]
fn new_level_keeps_its_name() {
    let level = Level::new("lobby".to_string());
    assert_eq!(level.name, "lobby");
    level.tick();
}

#[test]
fn claim_slot_takes_first_free_slot() {
    let mut w = World::new();
    w.write(&0, vec![5]);
    let (address, id) = w.claim_slot(9);
    assert_eq!((address, id), (8, 9));
    assert_eq!(w.entity_ids()[1], 9);
    assert_eq!(w.first_free_address(), 16);
}

#[test]
fn add_player_places_the_player_in_the_world() {
    let mut level = Level::new("arena".to_string());
    level.add_player(world_server::prefabs::Prefab::new(), 3);
    assert_eq!(level.world().entity_ids()[0], 3);
    assert_eq!(level.world().first_free_address(), 8);
    level.add_player(world_server::prefabs::Prefab::new(), 4);
    assert_eq!(level.world().entity_ids()[1], 4);
}
