use lau_evolution::room::ROOM_TYPE_COUNT;
use lau_evolution::{EvolutionEngine, RoomType};
use lau_evolution::species::count_room_types;

#[test]
fn speciate_groups_by_type() {
    let engine = EvolutionEngine::new();
    let rooms = vec![RoomType::Forest, RoomType::Desert, RoomType::Forest, RoomType::Desert];
    let species = engine.speciate(&rooms);
    assert_eq!(species.len(), 2);
}

#[test]
fn speciate_empty() {
    let engine = EvolutionEngine::new();
    let species = engine.speciate(&[]);
    assert!(species.is_empty());
}

#[test]
fn speciate_keeps_first_appearance_order() {
    let engine = EvolutionEngine::new();
    let rooms = vec![
        RoomType::Ocean,
        RoomType::Forest,
        RoomType::Ocean,
        RoomType::Nexus,
        RoomType::Forest,
        RoomType::Ocean,
    ];
    let species = engine.speciate(&rooms);
    assert_eq!(species, vec![vec![0, 2, 5], vec![1, 4], vec![3]]);
}

#[test]
fn speciate_partitions_rooms() {
    let engine = EvolutionEngine::new();
    let rooms = vec![
        RoomType::Volcano,
        RoomType::Crystal,
        RoomType::Volcano,
        RoomType::Floating,
        RoomType::Mountain,
        RoomType::Crystal,
    ];
    let species = engine.speciate(&rooms);
    for i in 0..rooms.len() {
        let holders: Vec<usize> = (0..species.len()).filter(|&k| species[k].contains(&i)).collect();
        assert_eq!(holders.len(), 1);
    }
    for group in &species {
        assert!(!group.is_empty());
        for &i in group {
            assert_eq!(rooms[i], rooms[group[0]]);
        }
    }
    assert_eq!(species.len(), count_room_types(&rooms));
}

#[test]
fn speciate_single_type() {
    let engine = EvolutionEngine::new();
    let rooms = vec![RoomType::Desert; 3];
    assert_eq!(engine.speciate(&rooms), vec![vec![0, 1, 2]]);
}

#[test]
fn count_room_types_single_type() {
    let rooms = vec![RoomType::Forest, RoomType::Forest];
    assert_eq!(count_room_types(&rooms), 1);
    let biodiversity = count_room_types(&rooms) as f64 / ROOM_TYPE_COUNT as f64;
    assert!((biodiversity - 0.125).abs() < 1e-9);
}

#[test]
fn count_room_types_all_types() {
    let rooms = vec![
        RoomType::Forest,
        RoomType::Desert,
        RoomType::Ocean,
        RoomType::Crystal,
        RoomType::Volcano,
        RoomType::Mountain,
        RoomType::Floating,
        RoomType::Nexus,
        RoomType::Forest,
    ];
    assert_eq!(count_room_types(&rooms), ROOM_TYPE_COUNT);
}

#[test]
fn count_room_types_empty() {
    assert_eq!(count_room_types(&[]), 0);
}
