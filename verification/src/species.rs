use vstd::prelude::*;

use crate::room::{all_room_types, lemma_room_type_count, RoomType, ROOM_TYPE_COUNT};

verus! {

/// The room types of `s`, each once, in the order in which they first occur.
pub open spec fn distinct_in_order(s: Seq<RoomType>) -> Seq<RoomType>
    decreases s.len(),
{
    if s.len() == 0 {
        Seq::empty()
    } else {
        let d = distinct_in_order(s.drop_last());
        if d.contains(s.last()) {
            d
        } else {
            d.push(s.last())
        }
    }
}

/// The positions in `s` that hold type `t`, in increasing order.
pub open spec fn indices_of(s: Seq<RoomType>, t: RoomType) -> Seq<usize>
    decreases s.len(),
{
    if s.len() == 0 {
        Seq::empty()
    } else {
        let rest = indices_of(s.drop_last(), t);
        if s.last() == t {
            rest.push((s.len() - 1) as usize)
        } else {
            rest
        }
    }
}

/// The species of a world whose rooms have the types `s`: one group per type,
/// in the order in which the types first occur, each group holding the
/// positions of the rooms of that type in increasing order.
pub open spec fn species_of(s: Seq<RoomType>) -> Seq<Seq<usize>> {
    distinct_in_order(s).map_values(|t: RoomType| indices_of(s, t))
}

/// Drives evolution across rooms.
#[derive(Debug, Clone, Copy)]
pub struct EvolutionEngine;

impl EvolutionEngine {
    /// A new engine.
    pub fn new() -> (engine: EvolutionEngine)
        ensures
            engine == EvolutionEngine,
    {
        EvolutionEngine
    }

    /// Cluster rooms by type: rooms of the same [`RoomType`] form a species.
    /// `types[i]` is the type of room `i`; each species is the list of the
    /// positions of its rooms.
    pub fn speciate(&self, types: &[RoomType]) -> (species: Vec<Vec<usize>>)
        ensures
            species.deep_view() == species_of(types@),
    {
        let order = distinct_types(types);
        let mut species: Vec<Vec<usize>> = Vec::new();
        for k in 0..order.len()
            invariant
                order@ == distinct_in_order(types@),
                species.len() == k,
                forall|j: int| 0 <= j < k ==> (#[trigger] species@[j])@ == indices_of(types@, order@[j]),
        {
            let group = indices_of_type(types, order[k]);
            species.push(group);
        }
        assert forall|j: int| 0 <= j < species.len() implies
            #[trigger] species.deep_view()[j] == species_of(types@)[j] by {
            assert(species.deep_view()[j] =~= species@[j]@);
        }
        assert(species.deep_view() =~= species_of(types@));
        species
    }
}

/// Whether `v` holds `t`.
fn holds_type(v: &Vec<RoomType>, t: RoomType) -> (b: bool)
    ensures
        b == v@.contains(t),
{
    for j in 0..v.len()
        invariant
            forall|k: int| 0 <= k < j ==> v@[k] != t,
    {
        if v[j] == t {
            return true;
        }
    }
    false
}

/// The types of `types`, each once, in order of first occurrence.
fn distinct_types(types: &[RoomType]) -> (order: Vec<RoomType>)
    ensures
        order@ == distinct_in_order(types@),
{
    let mut order: Vec<RoomType> = Vec::new();
    for i in 0..types.len()
        invariant
            order@ == distinct_in_order(types@.take(i as int)),
    {
        assert(types@.take(i + 1).drop_last() =~= types@.take(i as int));
        let t = types[i];
        if !holds_type(&order, t) {
            order.push(t);
        }
    }
    assert(types@.take(types@.len() as int) =~= types@);
    order
}

/// The positions of the rooms of type `t`, in increasing order.
fn indices_of_type(types: &[RoomType], t: RoomType) -> (idx: Vec<usize>)
    ensures
        idx@ == indices_of(types@, t),
{
    let mut idx: Vec<usize> = Vec::new();
    for i in 0..types.len()
        invariant
            idx@ == indices_of(types@.take(i as int), t),
    {
        assert(types@.take(i + 1).drop_last() =~= types@.take(i as int));
        if types[i] == t {
            idx.push(i);
        }
    }
    assert(types@.take(types@.len() as int) =~= types@);
    idx
}


/// How many room types occur among `types`: the number of distinct biomes.
pub fn count_room_types(types: &[RoomType]) -> (n: usize)
    ensures
        n == types@.to_set().len(),
{
    let order = distinct_types(types);
    proof {
        lemma_distinct_in_order(types@);
        order@.unique_seq_to_set();
    }
    order.len()
}

/// What `distinct_in_order` holds: the types of `s`, without repetition.
proof fn lemma_distinct_in_order(s: Seq<RoomType>)
    ensures
        forall|t: RoomType| #[trigger] distinct_in_order(s).contains(t) <==> s.contains(t),
        distinct_in_order(s).no_duplicates(),
        distinct_in_order(s).to_set() == s.to_set(),
    decreases s.len(),
{
    let d = distinct_in_order(s);
    if s.len() > 0 {
        let p = s.drop_last();
        let dp = distinct_in_order(p);
        lemma_distinct_in_order(p);
        assert forall|t: RoomType| s.contains(t) <==> (p.contains(t) || s.last() == t) by {
            if s.contains(t) {
                let i = choose|i: int| 0 <= i < s.len() && s[i] == t;
                if i < s.len() - 1 {
                    assert(p[i] == t);
                }
            }
            if p.contains(t) {
                let i = choose|i: int| 0 <= i < p.len() && p[i] == t;
                assert(s[i] == t);
            }
            if s.last() == t {
                assert(s[s.len() - 1] == t);
            }
        }
        if !dp.contains(s.last()) {
            assert forall|t: RoomType| d.contains(t) <==> (dp.contains(t) || s.last() == t) by {
                if d.contains(t) {
                    let i = choose|i: int| 0 <= i < d.len() && d[i] == t;
                    if i < dp.len() {
                        assert(dp[i] == t);
                    }
                }
                if dp.contains(t) {
                    let i = choose|i: int| 0 <= i < dp.len() && dp[i] == t;
                    assert(d[i] == t);
                }
                if s.last() == t {
                    assert(d[d.len() - 1] == t);
                }
            }
        }
    }
    assert(d.to_set() =~= s.to_set());
}

/// What `indices_of` holds: exactly the positions of `t`, in increasing order.
proof fn lemma_indices_of(s: Seq<RoomType>, t: RoomType)
    requires
        s.len() <= usize::MAX,
    ensures
        forall|k: int| 0 <= k < indices_of(s, t).len() ==>
            #[trigger] indices_of(s, t)[k] < s.len() && s[indices_of(s, t)[k] as int] == t,
        forall|i: int| 0 <= i < s.len() && #[trigger] s[i] == t ==> indices_of(s, t).contains(i as usize),
        forall|k1: int, k2: int| 0 <= k1 < k2 < indices_of(s, t).len() ==>
            #[trigger] indices_of(s, t)[k1] < #[trigger] indices_of(s, t)[k2],
    decreases s.len(),
{
    if s.len() > 0 {
        let p = s.drop_last();
        lemma_indices_of(p, t);
        let rest = indices_of(p, t);
        let idx = indices_of(s, t);
        assert(forall|i: int| 0 <= i < p.len() ==> p[i] == s[i]);
        if s.last() == t {
            assert(idx == rest.push((s.len() - 1) as usize));
            assert(forall|k: int| 0 <= k < rest.len() ==> idx[k] == rest[k]);
        } else {
            assert(idx == rest);
        }
        assert forall|i: int| 0 <= i < s.len() && #[trigger] s[i] == t implies idx.contains(i as usize) by {
            if i < s.len() - 1 {
                assert(p[i] == t);
                let k = choose|k: int| 0 <= k < rest.len() && rest[k] == i as usize;
                assert(idx[k] == i as usize);
            } else {
                assert(idx[idx.len() - 1] == i as usize);
            }
        }
    }
}

/// The species that room `i` belongs to: the one of its room type.
pub open spec fn species_index(types: Seq<RoomType>, i: int) -> int {
    distinct_in_order(types).index_of(types[i])
}

/// Every room belongs to exactly one species, the one of its type.
pub proof fn lemma_species_partition(types: Seq<RoomType>)
    requires
        types.len() <= usize::MAX,
    ensures
        forall|i: int| 0 <= i < types.len() ==>
            0 <= #[trigger] species_index(types, i) < species_of(types).len()
            && species_of(types)[species_index(types, i)].contains(i as usize),
        forall|k1: int, k2: int, i: usize|
            0 <= k1 < species_of(types).len() && 0 <= k2 < species_of(types).len()
            && #[trigger] species_of(types)[k1].contains(i)
            && #[trigger] species_of(types)[k2].contains(i)
            ==> k1 == k2,
{
    let d = distinct_in_order(types);
    let sp = species_of(types);
    lemma_distinct_in_order(types);
    assert forall|i: int| 0 <= i < types.len() implies
        0 <= #[trigger] species_index(types, i) < species_of(types).len()
        && species_of(types)[species_index(types, i)].contains(i as usize) by {
        assert(types.contains(types[i]));
        assert(d.contains(types[i]));
        let k = species_index(types, i);
        assert(0 <= k < d.len() && d[k] == types[i]);
        lemma_indices_of(types, d[k]);
        assert(sp[k] == indices_of(types, d[k]));
    }
    assert forall|k1: int, k2: int, i: usize|
        0 <= k1 < sp.len() && 0 <= k2 < sp.len()
        && #[trigger] sp[k1].contains(i) && #[trigger] sp[k2].contains(i)
        implies k1 == k2 by {
        lemma_indices_of(types, d[k1]);
        lemma_indices_of(types, d[k2]);
        let j1 = choose|j: int| 0 <= j < sp[k1].len() && sp[k1][j] == i;
        let j2 = choose|j: int| 0 <= j < sp[k2].len() && sp[k2][j] == i;
        assert(sp[k1] == indices_of(types, d[k1]));
        assert(sp[k2] == indices_of(types, d[k2]));
        assert(types[i as int] == d[k1]);
        assert(types[i as int] == d[k2]);
    }
}

/// Every species is non-empty, lists its rooms in increasing order, holds rooms
/// of a single type, and no two species share a type.
pub proof fn lemma_species_homogeneous(types: Seq<RoomType>)
    requires
        types.len() <= usize::MAX,
    ensures
        forall|k: int| 0 <= k < species_of(types).len() ==> (#[trigger] species_of(types)[k]).len() > 0,
        forall|k: int, j: int| 0 <= k < species_of(types).len() && 0 <= j < species_of(types)[k].len() ==>
            (#[trigger] species_of(types)[k][j]) < types.len()
            && types[species_of(types)[k][j] as int] == types[species_of(types)[k][0] as int],
        forall|k: int, j1: int, j2: int| 0 <= k < species_of(types).len() && 0 <= j1 < j2 < species_of(types)[k].len() ==>
            #[trigger] species_of(types)[k][j1] < #[trigger] species_of(types)[k][j2],
        forall|k1: int, k2: int| 0 <= k1 < k2 < species_of(types).len() ==>
            types[(#[trigger] species_of(types)[k1])[0] as int] != types[(#[trigger] species_of(types)[k2])[0] as int],
{
    let d = distinct_in_order(types);
    let sp = species_of(types);
    lemma_distinct_in_order(types);
    assert forall|k: int| 0 <= k < sp.len() implies
        (#[trigger] sp[k]).len() > 0
        && (forall|j: int| 0 <= j < sp[k].len() ==> sp[k][j] < types.len() && types[sp[k][j] as int] == d[k])
        && (forall|j1: int, j2: int| 0 <= j1 < j2 < sp[k].len() ==> sp[k][j1] < sp[k][j2]) by {
        lemma_indices_of(types, d[k]);
        assert(sp[k] == indices_of(types, d[k]));
        assert(d.contains(d[k]));
        let i = choose|i: int| 0 <= i < types.len() && types[i] == d[k];
        assert(indices_of(types, d[k]).contains(i as usize));
    }
    assert forall|k1: int, k2: int| 0 <= k1 < k2 < sp.len() implies
        types[(#[trigger] sp[k1])[0] as int] != types[(#[trigger] sp[k2])[0] as int] by {
        assert(d[k1] != d[k2]);
    }
}

/// The types of `distinct_in_order(s)` come in the order of their first
/// occurrence in `s`.
proof fn lemma_distinct_first_occurrence(s: Seq<RoomType>)
    requires
        s.len() <= usize::MAX,
    ensures
        forall|k1: int, k2: int| 0 <= k1 < k2 < distinct_in_order(s).len() ==>
            indices_of(s, #[trigger] distinct_in_order(s)[k1])[0]
                < indices_of(s, #[trigger] distinct_in_order(s)[k2])[0],
    decreases s.len(),
{
    if s.len() > 0 {
        let p = s.drop_last();
        let d = distinct_in_order(s);
        let dp = distinct_in_order(p);
        lemma_distinct_first_occurrence(p);
        lemma_distinct_in_order(p);
        // A type of `p` keeps its first position in `s`.
        assert forall|k: int| 0 <= k < dp.len() implies
            indices_of(s, #[trigger] dp[k])[0] == indices_of(p, dp[k])[0]
            && indices_of(p, dp[k])[0] < p.len() by {
            let t = dp[k];
            assert(dp.contains(t));
            assert(p.contains(t));
            let i = choose|i: int| 0 <= i < p.len() && p[i] == t;
            lemma_indices_of(p, t);
            assert(indices_of(p, t).contains(i as usize));
            assert(indices_of(p, t).len() > 0);
            assert(indices_of(p, t)[0] < p.len());
        }
        if !dp.contains(s.last()) {
            let t = s.last();
            lemma_indices_of(p, t);
            if indices_of(p, t).len() > 0 {
                assert(p[indices_of(p, t)[0] as int] == t);
                assert(p.contains(t));
            }
            assert(indices_of(s, t)[0] == p.len());
            assert forall|k1: int, k2: int| 0 <= k1 < k2 < d.len() implies
                indices_of(s, #[trigger] d[k1])[0] < indices_of(s, #[trigger] d[k2])[0] by {
                assert(d[k1] == dp[k1]);
                if k2 < dp.len() {
                    assert(d[k2] == dp[k2]);
                }
            }
        }
    }
}

/// Species are listed in the order in which their types first occur among
/// the rooms: each species starts at the first room of its type, and the
/// first rooms of the species increase from one species to the next.
pub proof fn lemma_species_first_appearance(types: Seq<RoomType>)
    requires
        types.len() <= usize::MAX,
    ensures
        forall|k: int, i: int| 0 <= k < species_of(types).len() && 0 <= i < (#[trigger] species_of(types)[k])[0] ==>
            #[trigger] types[i] != types[species_of(types)[k][0] as int],
        forall|k1: int, k2: int| 0 <= k1 < k2 < species_of(types).len() ==>
            (#[trigger] species_of(types)[k1])[0] < (#[trigger] species_of(types)[k2])[0],
{
    let d = distinct_in_order(types);
    let sp = species_of(types);
    lemma_distinct_in_order(types);
    lemma_distinct_first_occurrence(types);
    lemma_species_homogeneous(types);
    assert forall|k: int, i: int| 0 <= k < sp.len() && 0 <= i < (#[trigger] sp[k])[0] implies
        #[trigger] types[i] != types[sp[k][0] as int] by {
        let t = d[k];
        lemma_indices_of(types, t);
        assert(sp[k] == indices_of(types, t));
        assert(types[sp[k][0] as int] == t);
        if types[i] == t {
            assert(indices_of(types, t).contains(i as usize));
            let j = choose|j: int| 0 <= j < indices_of(types, t).len() && indices_of(types, t)[j] == i as usize;
            if j > 0 {
                assert(indices_of(types, t)[0] < indices_of(types, t)[j]);
            }
        }
    }
    assert forall|k1: int, k2: int| 0 <= k1 < k2 < sp.len() implies
        (#[trigger] sp[k1])[0] < (#[trigger] sp[k2])[0] by {
        assert(sp[k1] == indices_of(types, d[k1]));
        assert(sp[k2] == indices_of(types, d[k2]));
    }
}

/// There are as many species as distinct room types, so the species count
/// and the biome count of a world agree.
pub proof fn lemma_species_count(types: Seq<RoomType>)
    ensures
        species_of(types).len() == types.to_set().len(),
{
    lemma_distinct_in_order(types);
    distinct_in_order(types).unique_seq_to_set();
}

/// A world holds at most `ROOM_TYPE_COUNT` distinct room types, so its
/// biodiversity never exceeds one.
pub proof fn lemma_room_types_bounded(types: Seq<RoomType>)
    ensures
        types.to_set().len() <= ROOM_TYPE_COUNT,
{
    lemma_room_type_count();
    assert(types.to_set().subset_of(all_room_types()));
    vstd::set_lib::lemma_len_subset(types.to_set(), all_room_types());
}

} // verus!
