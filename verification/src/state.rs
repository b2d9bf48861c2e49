//! State diagrams: the member states of a composite state, found through
//! the composites nested in it.

use vstd::prelude::*;
use vstd::hash_map::StringHashMap;

verus! {

/// A composite state: its id and, per concurrent region, the ids of the
/// states in it.
#[derive(Clone, Debug)]
pub struct CompositeState {
    pub id: String,
    pub regions: Vec<Vec<String>>,
}

/// Abstract value of a [`CompositeState`].
pub struct CompositeV {
    pub id: Seq<char>,
    pub regions: Seq<Seq<Seq<char>>>,
}

pub open spec fn strings_view(v: Seq<String>) -> Seq<Seq<char>> {
    v.map_values(|s: String| s@)
}

impl View for CompositeState {
    type V = CompositeV;

    open spec fn view(&self) -> CompositeV {
        CompositeV {
            id: self.id@,
            regions: self.regions@.map_values(|r: Vec<String>| strings_view(r@)),
        }
    }
}

pub open spec fn composites_view(v: Seq<CompositeState>) -> Seq<CompositeV> {
    v.map_values(|c: CompositeState| c@)
}

/// `by_id` maps an id to the last composite declared with it.
pub open spec fn indexes_last(comps: Seq<CompositeV>, by_id: Map<Seq<char>, usize>) -> bool {
    &&& forall|k: Seq<char>| #[trigger]
        by_id.contains_key(k) <==> exists|i: int| 0 <= i < comps.len() && comps[i].id == k
    &&& forall|k: Seq<char>| #[trigger]
        by_id.contains_key(k) ==> {
            &&& by_id[k] < comps.len()
            &&& comps[by_id[k] as int].id == k
            &&& forall|j: int| by_id[k] < j < comps.len() ==> comps[j].id != k
        }
}

/// `rank` strictly decreases from a composite to every composite nested
/// in it, so the nesting has no cycle.
pub open spec fn ranked(comps: Seq<CompositeV>, by_id: Map<Seq<char>, usize>, rank: Seq<nat>) -> bool {
    &&& rank.len() == comps.len()
    &&& forall|k: Seq<char>| #[trigger] by_id.contains_key(k) ==> by_id[k] < comps.len()
    &&& forall|i: int, r: int, c: int|
        0 <= i < comps.len() && 0 <= r < comps[i].regions.len() && 0 <= c < comps[i].regions[r].len()
            && by_id.contains_key(#[trigger] comps[i].regions[r][c]) ==> rank[by_id[comps[i].regions[r][c]] as int]
            < rank[i]
}

/// The composite nesting reached through `by_id` is free of cycles.
pub open spec fn acyclic(comps: Seq<CompositeV>, by_id: Map<Seq<char>, usize>) -> bool {
    exists|rank: Seq<nat>| ranked(comps, by_id, rank)
}

/// Members of composite `i` from child `c` of region `r` on: each child id,
/// followed by the members of the composite it names, region by region.
pub open spec fn members_from(
    comps: Seq<CompositeV>,
    by_id: Map<Seq<char>, usize>,
    rank: Seq<nat>,
    i: int,
    r: int,
    c: int,
) -> Seq<Seq<char>>
    decreases rank[i], comps[i].regions.len() - r, comps[i].regions[r].len() - c,
    when ranked(comps, by_id, rank) && 0 <= i < comps.len() && 0 <= r && 0 <= c
{
    let regions = comps[i].regions;
    if r >= regions.len() {
        seq![]
    } else if c >= regions[r].len() {
        members_from(comps, by_id, rank, i, r + 1, 0)
    } else {
        let child = regions[r][c];
        let nested = if by_id.contains_key(child) {
            members_from(comps, by_id, rank, by_id[child] as int, 0, 0)
        } else {
            seq![]
        };
        seq![child] + nested + members_from(comps, by_id, rank, i, r, c + 1)
    }
}

/// Every state inside composite `i`, nested composites expanded in place.
pub open spec fn members(comps: Seq<CompositeV>, by_id: Map<Seq<char>, usize>, i: int) -> Seq<Seq<char>> {
    members_from(comps, by_id, choose|rank: Seq<nat>| ranked(comps, by_id, rank), i, 0, 0)
}

/// Map each composite id to the last composite declared with it.
pub fn composites_by_id(comps: &[CompositeState]) -> (m: StringHashMap<usize>)
    ensures
        indexes_last(composites_view(comps@), m@),
{
    let ghost cv = composites_view(comps@);
    let mut m: StringHashMap<usize> = StringHashMap::new();
    let mut i: usize = 0;
    while i < comps.len()
        invariant
            i <= comps.len(),
            cv == composites_view(comps@),
            indexes_last(cv.take(i as int), m@),
        decreases comps.len() - i,
    {
        let ghost prev = cv.take(i as int);
        let ghost before = m@;
        m.insert(comps[i].id.clone(), i);
        i = i + 1;
        proof {
            let cur = cv.take(i as int);
            assert(cur[i - 1].id == comps@[i - 1].id@);
            assert forall|k: Seq<char>| #[trigger]
                m@.contains_key(k) <==> exists|j: int| 0 <= j < cur.len() && cur[j].id == k by {
                if m@.contains_key(k) && k != cur[i - 1].id {
                    let j = choose|j: int| 0 <= j < prev.len() && prev[j].id == k;
                    assert(cur[j].id == k);
                }
                if exists|j: int| 0 <= j < cur.len() && cur[j].id == k {
                    let j = choose|j: int| 0 <= j < cur.len() && cur[j].id == k;
                    if j < i - 1 {
                        assert(prev[j].id == k);
                    }
                }
            }
            assert forall|k: Seq<char>| #[trigger] m@.contains_key(k) implies {
                &&& m@[k] < cur.len()
                &&& cur[m@[k] as int].id == k
                &&& forall|j: int| m@[k] < j < cur.len() ==> cur[j].id != k
            } by {
                if k != cur[i - 1].id {
                    assert(before.contains_key(k));
                    assert forall|j: int| m@[k] < j < cur.len() implies cur[j].id != k by {
                        if j < i - 1 {
                            assert(prev[j] == cur[j]);
                        }
                    }
                    assert(prev[m@[k] as int] == cur[m@[k] as int]);
                }
            }
        }
    }
    assert(cv.take(comps.len() as int) =~= cv);
    m
}

/// Append every state inside composite `c` to `out`: each region's child
/// ids in order, each followed by the members of the composite it names.
pub fn collect_member_ids(
    comps: &[CompositeState],
    c: usize,
    by_id: &StringHashMap<usize>,
    out: &mut Vec<String>,
)
    requires
        c < comps.len(),
        acyclic(composites_view(comps@), by_id@),
    ensures
        strings_view(final(out)@) == strings_view(old(out)@) + members(
            composites_view(comps@),
            by_id@,
            c as int,
        ),
    decreases (choose|rank: Seq<nat>| ranked(composites_view(comps@), by_id@, rank))[c as int],
{
    let ghost cv = composites_view(comps@);
    let ghost rank = choose|rank: Seq<nat>| ranked(cv, by_id@, rank);
    let ghost target = strings_view(old(out)@) + members_from(cv, by_id@, rank, c as int, 0, 0);
    let comp = &comps[c];
    assert(cv[c as int] == comp@);
    let mut r: usize = 0;
    while r < comp.regions.len()
        invariant
            r <= comp.regions.len(),
            c < comps.len(),
            cv == composites_view(comps@),
            cv[c as int] == comp@,
            ranked(cv, by_id@, rank),
            rank == choose|rank: Seq<nat>| ranked(cv, by_id@, rank),
            strings_view(out@) + members_from(cv, by_id@, rank, c as int, r as int, 0) == target,
        decreases comp.regions.len() - r,
    {
        let region = &comp.regions[r];
        assert(comp@.regions[r as int] == strings_view(region@));
        let mut k: usize = 0;
        while k < region.len()
            invariant
                k <= region.len(),
                r < comp.regions.len(),
                c < comps.len(),
                cv == composites_view(comps@),
                cv[c as int] == comp@,
                comp@.regions[r as int] == strings_view(region@),
                ranked(cv, by_id@, rank),
                rank == choose|rank: Seq<nat>| ranked(cv, by_id@, rank),
                strings_view(out@) + members_from(cv, by_id@, rank, c as int, r as int, k as int)
                    == target,
            decreases region.len() - k,
        {
            let child = &region[k];
            let ghost before = strings_view(out@);
            let ghost rest = members_from(cv, by_id@, rank, c as int, r as int, k as int + 1);
            assert(cv[c as int].regions[r as int][k as int] == child@);
            out.push(child.clone());
            assert(strings_view(out@) =~= before.push(child@));
            match by_id.get(child.as_str()) {
                Some(idx) => {
                    let n = *idx;
                    assert(rank[n as int] < rank[c as int]);
                    let ghost mid = strings_view(out@);
                    collect_member_ids(comps, n, by_id, out);
                    assert(strings_view(out@) + rest =~= before + members_from(
                        cv,
                        by_id@,
                        rank,
                        c as int,
                        r as int,
                        k as int,
                    ));
                },
                None => {
                    assert(strings_view(out@) + rest =~= before + members_from(
                        cv,
                        by_id@,
                        rank,
                        c as int,
                        r as int,
                        k as int,
                    ));
                },
            }
            k = k + 1;
        }
        r = r + 1;
    }
    assert(strings_view(out@) =~= target);
}

} // verus!
