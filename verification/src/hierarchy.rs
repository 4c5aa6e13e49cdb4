//! Market-group hierarchy names: walk a group's parents, collecting
//! names until a root, a missing group, a revisited group (a cycle), or
//! the depth cap, and join them parent-first with `" / "`.

use vstd::prelude::*;

use crate::bytes::append_bytes;
use crate::store::CharacterAssets;
use crate::types::MarketGroupId;

verus! {

/// At most this many names are collected on one walk.
pub const MAX_HIERARCHY_NAMES: u32 = 11;

/// `" / "`, the separator between hierarchy levels.
pub open spec fn level_sep() -> Seq<u8> {
    seq![32u8, 47u8, 32u8]
}

pub fn level_sep_vec() -> (r: Vec<u8>)
    ensures
        r@ == level_sep(),
{
    let mut v: Vec<u8> = Vec::new();
    v.push(32);
    v.push(47);
    v.push(32);
    proof {
        assert(v@ =~= level_sep());
    }
    v
}

/// The groups already seen on this walk.
pub open spec fn visited_set(v: Seq<MarketGroupId>) -> Set<MarketGroupId> {
    Set::new(|y: MarketGroupId| v.contains(y))
}

/// The names collected walking up from `id`: the group's own name first,
/// then its ancestors'; the walk ends at a root, a missing group, a
/// group already visited, or exhausted fuel.
pub open spec fn group_walk(
    st: CharacterAssets,
    id: MarketGroupId,
    visited: Set<MarketGroupId>,
    fuel: nat,
) -> Seq<Seq<u8>>
    decreases fuel,
{
    if visited.contains(id) || fuel == 0 {
        Seq::<Seq<u8>>::empty()
    } else {
        match st.market_groups.spec_get(id as i64) {
            Some(g) => {
                match g.parent_group_id {
                    Some(p) => seq![g.name@] + group_walk(
                        st,
                        p,
                        visited.insert(id),
                        (fuel - 1) as nat,
                    ),
                    None => seq![g.name@],
                }
            },
            None => Seq::<Seq<u8>>::empty(),
        }
    }
}

/// The collected names joined outermost ancestor first.
pub open spec fn level_joined(names: Seq<Seq<u8>>) -> Seq<u8>
    decreases names.len(),
{
    if names.len() == 0 {
        Seq::<u8>::empty()
    } else if names.len() == 1 {
        names[0]
    } else {
        level_joined(names.drop_first()) + level_sep() + names[0]
    }
}

/// The full hierarchical name of one group.
pub open spec fn full_name_spec(st: CharacterAssets, id: MarketGroupId) -> Seq<u8> {
    level_joined(group_walk(st, id, Set::empty(), MAX_HIERARCHY_NAMES as nat))
}

/// The cycle cut: a walk never collects more names than its fuel allows,
/// however the parent links loop.
pub proof fn lemma_group_walk_bounded(
    st: CharacterAssets,
    id: MarketGroupId,
    visited: Set<MarketGroupId>,
    fuel: nat,
)
    ensures
        group_walk(st, id, visited, fuel).len() <= fuel,
    decreases fuel,
{
    if !(visited.contains(id) || fuel == 0) {
        match st.market_groups.spec_get(id as i64) {
            Some(g) => {
                match g.parent_group_id {
                    Some(p) => {
                        lemma_group_walk_bounded(st, p, visited.insert(id), (fuel - 1) as nat);
                    },
                    None => {},
                }
            },
            None => {},
        }
    }
}

proof fn lemma_visited_push(v: Seq<MarketGroupId>, x: MarketGroupId)
    ensures
        visited_set(v.push(x)) =~= visited_set(v).insert(x),
{
    assert forall|y: MarketGroupId|
        visited_set(v.push(x)).contains(y) implies visited_set(v).insert(x).contains(y) by {
        let k = choose|k: int| 0 <= k < v.push(x).len() && v.push(x)[k] == y;
        if k < v.len() {
            assert(v[k] == y);
        }
    }
    assert forall|y: MarketGroupId|
        visited_set(v).insert(x).contains(y) implies visited_set(v.push(x)).contains(y) by {
        if y == x {
            assert(v.push(x)[v.len() as int] == y);
        } else {
            let k = choose|k: int| 0 <= k < v.len() && v[k] == y;
            assert(v.push(x)[k] == y);
        }
    }
}

fn seen(visited: &Vec<MarketGroupId>, id: MarketGroupId) -> (r: bool)
    ensures
        r == visited_set(visited@).contains(id),
{
    let n = visited.len();
    let mut i: usize = 0;
    while i < n
        invariant
            n == visited@.len(),
            i <= n,
            forall|j: int| 0 <= j < i ==> visited@[j] != id,
        decreases n - i,
    {
        if visited[i] == id {
            return true;
        }
        i = i + 1;
    }
    proof {
        assert(!visited@.contains(id));
    }
    false
}

/// The hierarchical name of one group.
pub fn full_group_name(st: &CharacterAssets, id: MarketGroupId) -> (r: Vec<u8>)
    ensures
        r@ == full_name_spec(*st, id),
{
    let mut collected: Vec<Vec<u8>> = Vec::new();
    let mut visited: Vec<MarketGroupId> = Vec::new();
    let mut current: MarketGroupId = id;
    let mut fuel: u32 = MAX_HIERARCHY_NAMES;
    let ghost full = group_walk(*st, id, Set::empty(), MAX_HIERARCHY_NAMES as nat);
    proof {
        assert(visited_set(visited@) =~= Set::<MarketGroupId>::empty());
    }
    loop
        invariant_except_break
            fuel <= MAX_HIERARCHY_NAMES,
            full == group_walk(*st, id, Set::empty(), MAX_HIERARCHY_NAMES as nat),
            full == crate::chain::names_view(collected@) + group_walk(
                *st,
                current,
                visited_set(visited@),
                fuel as nat,
            ),
        ensures
            full == crate::chain::names_view(collected@),
        decreases fuel,
    {
        if fuel == 0 {
            proof {
                assert(group_walk(*st, current, visited_set(visited@), 0nat)
                    =~= Seq::<Seq<u8>>::empty());
                assert(full =~= crate::chain::names_view(collected@));
            }
            break ;
        }
        if seen(&visited, current) {
            proof {
                assert(group_walk(*st, current, visited_set(visited@), fuel as nat)
                    =~= Seq::<Seq<u8>>::empty());
                assert(full =~= crate::chain::names_view(collected@));
            }
            break ;
        }
        let ghost vpre = visited_set(visited@);
        let ghost vseq = visited@;
        let ghost cpre = collected@;
        match st.market_groups.get(current as i64) {
            Some(g) => {
                collected.push(crate::types::clone_bytes(&g.name));
                visited.push(current);
                proof {
                    lemma_visited_push(vseq, current);
                    assert(visited_set(visited@) =~= vpre.insert(current));
                    assert(crate::chain::names_view(collected@) =~= crate::chain::names_view(
                        cpre,
                    ).push(g.name@));
                }
                match g.parent_group_id {
                    Some(p) => {
                        let prev = current;
                        current = p;
                        fuel = fuel - 1;
                        proof {
                            let w = group_walk(*st, prev, vpre, (fuel + 1) as nat);
                            assert(w =~= seq![g.name@] + group_walk(
                                *st,
                                current,
                                vpre.insert(prev),
                                fuel as nat,
                            ));
                            assert(full =~= crate::chain::names_view(collected@) + group_walk(
                                *st,
                                current,
                                visited_set(visited@),
                                fuel as nat,
                            ));
                        }
                    }
                    None => {
                        proof {
                            let w = group_walk(*st, current, vpre, fuel as nat);
                            assert(w =~= seq![g.name@]);
                            assert(full =~= crate::chain::names_view(collected@));
                        }
                        break ;
                    }
                }
            }
            None => {
                proof {
                    assert(group_walk(*st, current, visited_set(visited@), fuel as nat)
                        =~= Seq::<Seq<u8>>::empty());
                    assert(full =~= crate::chain::names_view(collected@));
                }
                break ;
            }
        }
    }
    // join the names, outermost ancestor first
    if collected.len() == 0 {
        let r: Vec<u8> = Vec::new();
        proof {
            assert(r@ =~= full_name_spec(*st, id));
        }
        return r;
    }
    let sep = level_sep_vec();
    let n = collected.len();
    let mut out = crate::types::clone_bytes(&collected[n - 1]);
    proof {
        assert(crate::chain::names_view(collected@).subrange(n - 1, n as int) =~= seq![
            crate::chain::names_view(collected@)[n - 1],
        ]);
    }
    let mut j: usize = n - 1;
    while j > 0
        invariant
            n == collected@.len(),
            n == crate::chain::names_view(collected@).len(),
            j < n,
            sep@ == level_sep(),
            out@ == level_joined(
                crate::chain::names_view(collected@).subrange(j as int, n as int),
            ),
        decreases j,
    {
        append_bytes(&mut out, &sep);
        append_bytes(&mut out, &collected[j - 1]);
        proof {
            let nv = crate::chain::names_view(collected@);
            assert(nv.subrange(j - 1, n as int).drop_first() =~= nv.subrange(j as int, n as int));
            assert(nv.subrange(j - 1, n as int)[0] == nv[j - 1]);
            assert(nv[j - 1] == collected@[j - 1]@);
        }
        j = j - 1;
    }
    proof {
        assert(crate::chain::names_view(collected@).subrange(0, n as int) =~= crate::chain::names_view(
            collected@,
        ));
    }
    out
}

/// Resolve the full hierarchical names of the given groups.
pub fn resolve_market_group_hierarchy(st: &CharacterAssets, ids: &Vec<MarketGroupId>) -> (r: Vec<
    (MarketGroupId, Vec<u8>),
>)
    requires
        st.wf(),
    ensures
        r@.len() == ids@.len(),
        forall|i: int|
            0 <= i < r@.len() ==> (#[trigger] r@[i]).0 == ids@[i] && r@[i].1@ == full_name_spec(
                *st,
                ids@[i],
            ),
{
    let mut out: Vec<(MarketGroupId, Vec<u8>)> = Vec::new();
    let n = ids.len();
    let mut i: usize = 0;
    while i < n
        invariant
            st.wf(),
            n == ids@.len(),
            i <= n,
            out@.len() == i,
            forall|k: int|
                0 <= k < i ==> (#[trigger] out@[k]).0 == ids@[k] && out@[k].1@ == full_name_spec(
                    *st,
                    ids@[k],
                ),
        decreases n - i,
    {
        let gid = ids[i];
        let name = full_group_name(st, gid);
        out.push((gid, name));
        i = i + 1;
    }
    out
}

} // verus!
