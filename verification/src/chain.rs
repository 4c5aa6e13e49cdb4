//! Location-chain resolver: the memoized reverse walk from an asset up
//! through its containers to the hosting station, cut at ten hops. The
//! result is a pure function of the store, so repeated calls return
//! bitwise-equal strings and memoization can never change them.

use vstd::prelude::*;

use crate::bytes::{
    append_bytes, bytes_eq, chain_sep, chain_sep_vec, container_prefix, container_prefix_vec,
    direct_label, direct_label_vec, prefixed_decimal, prefixed_i64, station_label,
    station_label_vec, unknown_label, unknown_label_vec,
};
use crate::store::CharacterAssets;
use crate::table::Table;
use crate::types::{AssetItem, StationId};

verus! {

/// Hop cap of the reverse walk.
pub const MAX_DEPTH: u32 = 10;

/// Counters the resolver keeps about its walks; all additions stick at
/// the counter maximum instead of wrapping.
#[derive(Clone, Copy, PartialEq, Eq, Structural, Debug)]
pub struct ChainStats {
    pub direct_station: usize,
    pub lookups: usize,
    pub max_depth: u32,
    pub total_depth: u32,
    pub total_calls: u32,
}

impl ChainStats {
    pub fn new() -> (r: ChainStats)
        ensures
            r.direct_station == 0,
            r.lookups == 0,
            r.max_depth == 0,
            r.total_depth == 0,
            r.total_calls == 0,
    {
        ChainStats { direct_station: 0, lookups: 0, max_depth: 0, total_depth: 0, total_calls: 0 }
    }
}

impl Default for ChainStats {
    fn default() -> (r: ChainStats)
        ensures
            r.direct_station == 0,
            r.lookups == 0,
            r.max_depth == 0,
            r.total_depth == 0,
            r.total_calls == 0,
    {
        ChainStats::new()
    }
}

pub open spec fn sat_add_u32(a: u32, b: u32) -> u32 {
    if a + b <= u32::MAX {
        (a + b) as u32
    } else {
        u32::MAX
    }
}

pub open spec fn sat_inc_usize(a: usize) -> usize {
    if a == usize::MAX {
        a
    } else {
        (a + 1) as usize
    }
}

fn bump_usize(a: usize) -> (r: usize)
    ensures
        r == sat_inc_usize(a),
{
    if a == usize::MAX {
        a
    } else {
        a + 1
    }
}

fn add_u32(a: u32, b: u32) -> (r: u32)
    ensures
        r == sat_add_u32(a, b),
{
    if a <= u32::MAX - b {
        a + b
    } else {
        u32::MAX
    }
}

/// The friendly name of a container: its asset name, or
/// `Container_<id>` when none is recorded.
pub open spec fn container_name(st: CharacterAssets, item_id: i64) -> Seq<u8> {
    match st.assets_names.spec_get(item_id) {
        Some(n) => n@,
        None => prefixed_decimal(container_prefix(), item_id as int),
    }
}

/// The name of the station at `location_id`, or `Unknown`.
pub open spec fn station_name_spec(st: CharacterAssets, location_id: i64) -> Seq<u8> {
    match st.stations.spec_get((location_id as StationId) as i64) {
        Some(s) => s.name@,
        None => unknown_label(),
    }
}

/// The reverse walk: collect container names going up from the location
/// node `(id, ty)` until a station, a missing parent, or exhausted fuel.
/// Returns the collected names (nearest container first) and the
/// terminal node.
pub open spec fn walk_spec(st: CharacterAssets, id: i64, ty: Seq<u8>, fuel: nat) -> (
    Seq<Seq<u8>>,
    i64,
    Seq<u8>,
)
    decreases fuel,
{
    if fuel == 0 {
        (Seq::<Seq<u8>>::empty(), id, ty)
    } else {
        match st.assets.spec_get(id) {
            Some(parent) => {
                let name = container_name(st, parent.item_id);
                if parent.location_type@ == station_label() {
                    (seq![name], parent.location_id, parent.location_type@)
                } else {
                    let r = walk_spec(
                        st,
                        parent.location_id,
                        parent.location_type@,
                        (fuel - 1) as nat,
                    );
                    (seq![name] + r.0, r.1, r.2)
                }
            },
            None => (Seq::<Seq<u8>>::empty(), id, ty),
        }
    }
}

/// The collected names joined outermost-first with `" -> "`.
pub open spec fn rev_joined(names: Seq<Seq<u8>>) -> Seq<u8>
    decreases names.len(),
{
    if names.len() == 0 {
        Seq::<u8>::empty()
    } else if names.len() == 1 {
        names[0]
    } else {
        rev_joined(names.drop_first()) + chain_sep() + names[0]
    }
}

/// The resolver's answer for an asset at `(id, ty)`: the hosting
/// station's name, the terminal location type, and the chain label.
pub open spec fn chain_spec(st: CharacterAssets, id: i64, ty: Seq<u8>) -> (Seq<u8>, Seq<u8>, Seq<u8>) {
    if ty == station_label() {
        (station_name_spec(st, id), ty, direct_label())
    } else {
        let w = walk_spec(st, id, ty, MAX_DEPTH as nat);
        let sname = if w.2 == station_label() {
            station_name_spec(st, w.1)
        } else {
            unknown_label()
        };
        let label = if w.0.len() == 0 {
            direct_label()
        } else {
            rev_joined(w.0)
        };
        (sname, w.2, label)
    }
}

/// Cycle cut: the walk visits at most `fuel` nodes, so a chain label
/// joins at most `MAX_DEPTH` container names however cyclic the
/// location graph is.
pub proof fn lemma_walk_bounded(st: CharacterAssets, id: i64, ty: Seq<u8>, fuel: nat)
    ensures
        walk_spec(st, id, ty, fuel).0.len() <= fuel,
    decreases fuel,
{
    if fuel > 0 {
        match st.assets.spec_get(id) {
            Some(parent) => {
                if parent.location_type@ == station_label() {
                } else {
                    lemma_walk_bounded(
                        st,
                        parent.location_id,
                        parent.location_type@,
                        (fuel - 1) as nat,
                    );
                }
            },
            None => {},
        }
    }
}

/// Memo of resolved locations. `direct` keys stations; `walked` keys
/// container walks, remembering the location type the walk started
/// from, so a hit is served only for the same kind of node.
pub struct ChainCache {
    pub direct: Table<(Vec<u8>, Vec<u8>, Vec<u8>)>,
    pub walked: Table<(Vec<u8>, Vec<u8>, Vec<u8>, Vec<u8>)>,
}

impl ChainCache {
    /// Every memo entry equals what the resolver would recompute.
    pub open spec fn valid_for(&self, st: CharacterAssets) -> bool {
        &&& self.direct.wf()
        &&& self.walked.wf()
        &&& forall|i: int|
            0 <= i < self.direct.entries_seq().len() ==> {
                let e = #[trigger] self.direct.entries_seq()[i];
                (e.1.0@, e.1.1@, e.1.2@) == chain_spec(st, e.0, station_label())
            }
        &&& forall|i: int|
            0 <= i < self.walked.entries_seq().len() ==> {
                let e = #[trigger] self.walked.entries_seq()[i];
                e.1.0@ != station_label() && (e.1.1@, e.1.2@, e.1.3@) == chain_spec(
                    st,
                    e.0,
                    e.1.0@,
                )
            }
    }

    pub fn new() -> (r: ChainCache)
        ensures
            forall|st: CharacterAssets| r.valid_for(st),
    {
        ChainCache { direct: Table::new(), walked: Table::new() }
    }

    pub fn len(&self) -> (r: usize)
        ensures
            r == if self.direct.entries_seq().len() + self.walked.entries_seq().len()
                <= usize::MAX {
                (self.direct.entries_seq().len() + self.walked.entries_seq().len()) as int
            } else {
                usize::MAX as int
            },
    {
        let a = self.direct.len();
        let b = self.walked.len();
        if a <= usize::MAX - b {
            a + b
        } else {
            usize::MAX
        }
    }
}

/// Resolve the station name, terminal location type and chain label of
/// an asset; memoized, and always equal to the recomputation — repeated
/// calls return bitwise-equal strings.
pub fn build_location_chain(
    st: &CharacterAssets,
    asset: &AssetItem,
    stats: &mut ChainStats,
    cache: &mut ChainCache,
) -> (r: (Vec<u8>, Vec<u8>, Vec<u8>))
    requires
        st.wf(),
        old(cache).valid_for(*st),
    ensures
        final(cache).valid_for(*st),
        (r.0@, r.1@, r.2@) == chain_spec(*st, asset.location_id, asset.location_type@),
        final(stats).total_calls == sat_add_u32(old(stats).total_calls, 1),
{
    stats.total_calls = add_u32(stats.total_calls, 1);
    let station_tag = station_label_vec();
    let loc = asset.location_id;
    if bytes_eq(&asset.location_type, &station_tag) {
        stats.direct_station = bump_usize(stats.direct_station);
        match cache.direct.get(loc) {
            Some(v) => {
                proof {
                    crate::table::lemma_get_some_index(cache.direct.entries_seq(), loc);
                }
                let r = (
                    crate::types::clone_bytes(&v.0),
                    crate::types::clone_bytes(&v.1),
                    crate::types::clone_bytes(&v.2),
                );
                return r;
            }
            None => {}
        }
        let sname: Vec<u8> = match st.stations.get((loc as StationId) as i64) {
            Some(s) => crate::types::clone_bytes(&s.name),
            None => unknown_label_vec(),
        };
        let r = (sname, station_label_vec(), direct_label_vec());
        let entry = (
            crate::types::clone_bytes(&r.0),
            crate::types::clone_bytes(&r.1),
            crate::types::clone_bytes(&r.2),
        );
        let ghost pre = cache.direct.entries_seq();
        cache.direct.insert(loc, entry);
        proof {
            assert forall|i: int|
                0 <= i < cache.direct.entries_seq().len() implies {
                let e = #[trigger] cache.direct.entries_seq()[i];
                (e.1.0@, e.1.1@, e.1.2@) == chain_spec(*st, e.0, station_label())
            } by {
                if crate::table::spec_get_in(pre, loc) is None {
                    if i < pre.len() {
                        assert(cache.direct.entries_seq()[i] == pre[i]);
                    }
                } else {
                    let iu = choose|iu: int|
                        0 <= iu < pre.len() && (#[trigger] pre[iu]).0 == loc
                            && cache.direct.entries_seq() == pre.update(iu, (loc, entry));
                    if i != iu {
                        assert(cache.direct.entries_seq()[i] == pre[i]);
                    }
                }
            }
        }
        return r;
    }
    // not directly on a station: check the walk memo
    match cache.walked.get(loc) {
        Some(v) => {
            if bytes_eq(&v.0, &asset.location_type) {
                proof {
                    crate::table::lemma_get_some_index(cache.walked.entries_seq(), loc);
                }
                let r = (
                    crate::types::clone_bytes(&v.1),
                    crate::types::clone_bytes(&v.2),
                    crate::types::clone_bytes(&v.3),
                );
                return r;
            }
        }
        None => {}
    }
    let ghost start_ty = asset.location_type@;
    let mut collected: Vec<Vec<u8>> = Vec::new();
    let mut cur_id: i64 = loc;
    let mut cur_ty: Vec<u8> = crate::types::clone_bytes(&asset.location_type);
    let mut depth: u32 = 0;
    let ghost full = walk_spec(*st, loc, start_ty, MAX_DEPTH as nat);
    while depth < MAX_DEPTH
        invariant_except_break
            st.wf(),
            station_tag@ == station_label(),
            stats.total_calls == sat_add_u32(old(stats).total_calls, 1),
            depth <= MAX_DEPTH,
            full == walk_spec(*st, loc, start_ty, MAX_DEPTH as nat),
            full.0 == names_view(collected@) + walk_spec(
                *st,
                cur_id,
                cur_ty@,
                (MAX_DEPTH - depth) as nat,
            ).0,
            full.1 == walk_spec(*st, cur_id, cur_ty@, (MAX_DEPTH - depth) as nat).1,
            full.2 == walk_spec(*st, cur_id, cur_ty@, (MAX_DEPTH - depth) as nat).2,
            cur_ty@ != station_label(),
        ensures
            stats.total_calls == sat_add_u32(old(stats).total_calls, 1),
            full.0 == names_view(collected@),
            full.1 == cur_id,
            full.2 == cur_ty@,
        decreases MAX_DEPTH - depth,
    {
        stats.lookups = bump_usize(stats.lookups);
        let ghost fuel = (MAX_DEPTH - depth) as nat;
        let ghost prev_id = cur_id;
        let ghost prev_ty = cur_ty@;
        match st.assets.get(cur_id) {
            Some(parent) => {
                let name: Vec<u8> = match st.assets_names.get(parent.item_id) {
                    Some(n) => crate::types::clone_bytes(n),
                    None => prefixed_i64(container_prefix_vec(), parent.item_id),
                };
                proof {
                    assert(name@ == container_name(*st, parent.item_id));
                }
                let ghost cprev = collected@;
                collected.push(name);
                cur_id = parent.location_id;
                cur_ty = crate::types::clone_bytes(&parent.location_type);
                proof {
                    assert(names_view(collected@) =~= names_view(cprev).push(
                        container_name(*st, parent.item_id),
                    ));
                    assert(st.assets.spec_get(prev_id) == Some(*parent));
                    assert(cur_ty@ == parent.location_type@);
                }
                if bytes_eq(&cur_ty, &station_tag) {
                    proof {
                        let w = walk_spec(*st, prev_id, prev_ty, fuel);
                        assert(parent.location_type@ == station_label());
                        assert(w.0 =~= seq![container_name(*st, parent.item_id)]);
                        assert(w.1 == parent.location_id && w.2 == parent.location_type@);
                        assert(full.0 =~= names_view(cprev) + w.0);
                        assert(full.0 =~= names_view(collected@));
                    }
                    break ;
                }
                proof {
                    let w = walk_spec(*st, prev_id, prev_ty, fuel);
                    assert(parent.location_type@ != station_label());
                    let wr = walk_spec(*st, cur_id, cur_ty@, (fuel - 1) as nat);
                    assert(w.0 =~= seq![container_name(*st, parent.item_id)] + wr.0);
                    assert(w.1 == wr.1 && w.2 == wr.2);
                    assert(full.0 =~= names_view(cprev) + w.0);
                    assert(full.0 =~= names_view(collected@) + wr.0);
                    assert(wr == walk_spec(*st, cur_id, cur_ty@, (MAX_DEPTH - (depth + 1)) as nat));
                }
            }
            None => {
                proof {
                    let w = walk_spec(*st, cur_id, cur_ty@, fuel);
                    assert(fuel > 0);
                    assert(st.assets.spec_get(cur_id) is None);
                    assert(w.0 =~= Seq::<Seq<u8>>::empty());
                    assert(w.1 == cur_id && w.2 == cur_ty@);
                    assert(full.0 =~= names_view(collected@) + w.0);
                    assert(full.0 =~= names_view(collected@));
                }
                break ;
            }
        }
        depth = depth + 1;
        proof {
            if depth == MAX_DEPTH {
                assert(walk_spec(*st, cur_id, cur_ty@, 0nat).0 =~= Seq::<Seq<u8>>::empty());
                assert(full.0 =~= names_view(collected@));
            }
        }
    }
    stats.max_depth = if depth > stats.max_depth {
        depth
    } else {
        stats.max_depth
    };
    stats.total_depth = add_u32(stats.total_depth, depth);
    // station name at the terminal
    let sname: Vec<u8> = if bytes_eq(&cur_ty, &station_tag) {
        match st.stations.get((cur_id as StationId) as i64) {
            Some(s) => crate::types::clone_bytes(&s.name),
            None => unknown_label_vec(),
        }
    } else {
        unknown_label_vec()
    };
    // join the collected names, outermost container first
    let label: Vec<u8> = if collected.len() == 0 {
        direct_label_vec()
    } else {
        let sep = chain_sep_vec();
        let n = collected.len();
        let mut out = crate::types::clone_bytes(&collected[n - 1]);
        proof {
            assert(names_view(collected@).subrange(n - 1, n as int) =~= seq![
                names_view(collected@)[n - 1],
            ]);
        }
        let mut j: usize = n - 1;
        while j > 0
            invariant
                n == collected@.len(),
                n == names_view(collected@).len(),
                j < n,
                chain_sep_vec_ok(sep),
                out@ == rev_joined(names_view(collected@).subrange(j as int, n as int)),
            decreases j,
        {
            append_bytes(&mut out, &sep);
            append_bytes(&mut out, &collected[j - 1]);
            proof {
                let nv = names_view(collected@);
                assert(nv.subrange(j - 1, n as int).drop_first() =~= nv.subrange(j as int, n as int));
                assert(nv.subrange(j - 1, n as int)[0] == nv[j - 1]);
                assert(nv[j - 1] == collected@[j - 1]@);
            }
            j = j - 1;
        }
        proof {
            assert(names_view(collected@).subrange(0, n as int) =~= names_view(collected@));
        }
        out
    };
    let r = (sname, cur_ty, label);
    let entry = (
        crate::types::clone_bytes(&asset.location_type),
        crate::types::clone_bytes(&r.0),
        crate::types::clone_bytes(&r.1),
        crate::types::clone_bytes(&r.2),
    );
    let ghost pre = cache.walked.entries_seq();
    cache.walked.insert(loc, entry);
    proof {
        assert((r.0@, r.1@, r.2@) == chain_spec(*st, loc, start_ty));
        assert forall|i: int|
            0 <= i < cache.walked.entries_seq().len() implies {
            let e = #[trigger] cache.walked.entries_seq()[i];
            e.1.0@ != station_label() && (e.1.1@, e.1.2@, e.1.3@) == chain_spec(*st, e.0, e.1.0@)
        } by {
            if crate::table::spec_get_in(pre, loc) is None {
                if i < pre.len() {
                    assert(cache.walked.entries_seq()[i] == pre[i]);
                }
            } else {
                let iu = choose|iu: int|
                    0 <= iu < pre.len() && (#[trigger] pre[iu]).0 == loc
                        && cache.walked.entries_seq() == pre.update(iu, (loc, entry));
                if i != iu {
                    assert(cache.walked.entries_seq()[i] == pre[i]);
                }
            }
        }
    }
    r
}

/// Views of a list of byte strings.
pub open spec fn names_view(v: Seq<Vec<u8>>) -> Seq<Seq<u8>> {
    v.map_values(|b: Vec<u8>| b@)
}

/// The separator vector holds `" -> "`.
pub open spec fn chain_sep_vec_ok(sep: Vec<u8>) -> bool {
    sep@ == chain_sep()
}

} // verus!
