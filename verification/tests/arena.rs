use pyro_model::arena::{Ageing, Arena};
use pyro_model::health::Health;
use pyro_model::model::Explosion;
use pyro_model::geometry::Position;

#[test]
fn insert_hands_out_fresh_ids() {
    let mut a: Arena<u32> = Arena::new();
    assert_eq!(a.insert(10), 0);
    assert_eq!(a.insert(20), 1);
    assert_eq!(a.remove(1), Some(20));
    // Identifiers are never handed out twice.
    assert_eq!(a.insert(30), 2);
    assert_eq!(a.len(), 2);
}

#[test]
fn get_finds_what_was_inserted() {
    let mut a: Arena<u32> = Arena::new();
    let x = a.insert(7);
    let y = a.insert(8);
    assert_eq!(a.get(x), Some(&7));
    assert_eq!(a.get(y), Some(&8));
    assert_eq!(a.get(5), None);
    assert_eq!(a.find(y), Some(1));
}

#[test]
fn remove_of_a_missing_id_changes_nothing() {
    let mut a: Arena<u32> = Arena::new();
    a.insert(1);
    assert_eq!(a.remove(9), None);
    assert_eq!(a.len(), 1);
    assert_eq!(a.remove(0), Some(1));
    assert_eq!(a.get(0), None);
}

#[test]
fn entry_and_set_address_positions() {
    let mut a: Arena<u32> = Arena::new();
    a.insert(1);
    a.insert(2);
    a.set(1, 5);
    assert_eq!(a.entry(1), (1, &5));
    assert_eq!(a.entry(0), (0, &1));
}

#[test]
fn remove_listed_keeps_the_rest_in_order() {
    let mut a: Arena<u32> = Arena::new();
    for v in 0..5u32 {
        a.insert(v * 10);
    }
    a.remove_listed(&vec![1, 3, 9]);
    assert_eq!(a.len(), 3);
    assert_eq!(a.entry(0), (0, &0));
    assert_eq!(a.entry(1), (2, &20));
    assert_eq!(a.entry(2), (4, &40));
}

fn explosion(life: i64) -> Explosion {
    Explosion { position: Position { x: 0, y: 0 }, max_radius: 1000, lifetime: Health::new(life) }
}

#[test]
fn age_all_drops_the_expired() {
    let mut a: Arena<Explosion> = Arena::new();
    a.insert(explosion(500));
    a.insert(explosion(2000));
    a.insert(explosion(1000));
    a.age_all(1000);
    assert_eq!(a.len(), 1);
    let (id, e) = a.entry(0);
    assert_eq!(id, 1);
    assert_eq!(e.lifetime, Health { value: 1000, max: 2000 });
}

#[test]
fn ageing_one_explosion() {
    let e = explosion(300).age(100);
    assert_eq!(e.lifetime.value, 200);
    assert!(!e.is_expired());
    assert!(e.age(200).is_expired());
}
