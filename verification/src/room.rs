use vstd::prelude::*;

verus! {

/// How many biome types there are; biodiversity is normalised by it.
pub const ROOM_TYPE_COUNT: usize = 8;

/// The biome / flavour of an evolving room.
#[derive(Debug, Clone, Copy, PartialEq, Eq, Hash, Structural)]
pub enum RoomType {
    Forest,
    Desert,
    Mountain,
    Ocean,
    Crystal,
    Volcano,
    Floating,
    Nexus,
}

/// Every room type, each once.
pub open spec fn all_room_types() -> Set<RoomType> {
    set![
        RoomType::Forest,
        RoomType::Desert,
        RoomType::Mountain,
        RoomType::Ocean,
        RoomType::Crystal,
        RoomType::Volcano,
        RoomType::Floating,
        RoomType::Nexus,
    ]
}

/// There are exactly `ROOM_TYPE_COUNT` room types.
pub proof fn lemma_room_type_count()
    ensures
        all_room_types().len() == ROOM_TYPE_COUNT,
        forall|t: RoomType| all_room_types().contains(t),
{
    assert(all_room_types().len() == 8) by {
        let s0 = Set::<RoomType>::empty();
        let s1 = s0.insert(RoomType::Forest);
        let s2 = s1.insert(RoomType::Desert);
        let s3 = s2.insert(RoomType::Mountain);
        let s4 = s3.insert(RoomType::Ocean);
        let s5 = s4.insert(RoomType::Crystal);
        let s6 = s5.insert(RoomType::Volcano);
        let s7 = s6.insert(RoomType::Floating);
        let s8 = s7.insert(RoomType::Nexus);
        assert(s8 =~= all_room_types());
    }
    assert forall|t: RoomType| all_room_types().contains(t) by {
        match t {
            RoomType::Forest => {},
            RoomType::Desert => {},
            RoomType::Mountain => {},
            RoomType::Ocean => {},
            RoomType::Crystal => {},
            RoomType::Volcano => {},
            RoomType::Floating => {},
            RoomType::Nexus => {},
        }
    }
}

} // verus!
