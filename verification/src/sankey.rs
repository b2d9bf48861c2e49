//! Sankey diagrams: link-colour and node-alignment settings, and the column
//! each node is placed in.
//!
//! Columns come from two relaxations over the links: a node's depth (longest
//! path from a source) and its height (longest path to a sink). Each runs
//! whole passes over the links until a pass changes nothing, and at most
//! `MAX_PASSES` passes, so a cycle cannot keep it going forever.

use vstd::prelude::*;
use vstd::hash_map::StringHashMap;
use crate::text::{chars_of, eq_str, string_of, trim, trim_chars};

verus! {

/// Most relaxation passes run for depths or heights.
pub const MAX_PASSES: u32 = 200;

/// Most links the column assignment takes, so that no column number can
/// leave `u32` (each pass raises a number by at most one per link).
pub const MAX_LINKS: usize = 20_000_000;

/// How a link's stroke colour is derived (`config.sankey.linkColor`).
#[derive(Clone, Debug)]
pub enum LinkColor {
    /// The source node's palette colour.
    Source,
    /// The target node's palette colour.
    Target,
    /// A source-to-target gradient per link (the default).
    Gradient,
    /// A literal colour, as configured.
    Fixed(String),
}

/// Abstract value of a [`LinkColor`].
pub enum LinkColorV {
    Source,
    Target,
    Gradient,
    Fixed(Seq<char>),
}

impl View for LinkColor {
    type V = LinkColorV;

    open spec fn view(&self) -> LinkColorV {
        match self {
            LinkColor::Source => LinkColorV::Source,
            LinkColor::Target => LinkColorV::Target,
            LinkColor::Gradient => LinkColorV::Gradient,
            LinkColor::Fixed(s) => LinkColorV::Fixed(s@),
        }
    }
}

pub open spec fn link_color_spec(s: Option<Seq<char>>) -> LinkColorV {
    match s {
        None => LinkColorV::Gradient,
        Some(v) => {
            let k = trim(v);
            if k == seq!['s', 'o', 'u', 'r', 'c', 'e'] {
                LinkColorV::Source
            } else if k == seq!['t', 'a', 'r', 'g', 'e', 't'] {
                LinkColorV::Target
            } else if k == seq!['g', 'r', 'a', 'd', 'i', 'e', 'n', 't'] {
                LinkColorV::Gradient
            } else {
                LinkColorV::Fixed(k)
            }
        },
    }
}

impl LinkColor {
    /// Parse `config.sankey.linkColor` (trimmed): `source`, `target`,
    /// `gradient` (also the default when unset), or any other text taken as
    /// a literal colour.
    pub fn parse(s: Option<&str>) -> (r: LinkColor)
        ensures
            r@ == link_color_spec(
                match s {
                    Some(v) => Some(v@),
                    None => None,
                },
            ),
    {
        match s {
            None => LinkColor::Gradient,
            Some(v) => {
                let c = chars_of(v);
                let k = trim_chars(c.as_slice());
                proof {
                    reveal_strlit("source");
                    reveal_strlit("target");
                    reveal_strlit("gradient");
                    assert("source"@ =~= seq!['s', 'o', 'u', 'r', 'c', 'e']);
                    assert("target"@ =~= seq!['t', 'a', 'r', 'g', 'e', 't']);
                    assert("gradient"@ =~= seq!['g', 'r', 'a', 'd', 'i', 'e', 'n', 't']);
                }
                if eq_str(k.as_slice(), "source") {
                    LinkColor::Source
                } else if eq_str(k.as_slice(), "target") {
                    LinkColor::Target
                } else if eq_str(k.as_slice(), "gradient") {
                    LinkColor::Gradient
                } else {
                    LinkColor::Fixed(string_of(k.as_slice()))
                }
            },
        }
    }
}

/// Column alignment mode (`config.sankey.nodeAlignment`).
#[derive(Clone, Copy, PartialEq, Eq, Debug, Structural)]
pub enum Alignment {
    /// Sinks pushed to the last column, other nodes by depth (the default).
    Justify,
    /// Nodes without incoming links moved next to their nearest target.
    Center,
    /// Every node at its depth from a source.
    Left,
    /// Every node at its distance from a sink, counted from the last column.
    Right,
}

pub open spec fn alignment_spec(s: Option<Seq<char>>) -> Alignment {
    match s {
        None => Alignment::Justify,
        Some(v) => {
            let k = trim(v);
            if k == seq!['l', 'e', 'f', 't'] {
                Alignment::Left
            } else if k == seq!['r', 'i', 'g', 'h', 't'] {
                Alignment::Right
            } else if k == seq!['c', 'e', 'n', 't', 'e', 'r'] {
                Alignment::Center
            } else {
                Alignment::Justify
            }
        },
    }
}

impl Alignment {
    /// Parse `config.sankey.nodeAlignment` (trimmed): `left`, `right`,
    /// `center`; anything else, or nothing, is `Justify`.
    pub fn parse(s: Option<&str>) -> (r: Alignment)
        ensures
            r == alignment_spec(
                match s {
                    Some(v) => Some(v@),
                    None => None,
                },
            ),
    {
        match s {
            None => Alignment::Justify,
            Some(v) => {
                let c = chars_of(v);
                let k = trim_chars(c.as_slice());
                proof {
                    reveal_strlit("left");
                    reveal_strlit("right");
                    reveal_strlit("center");
                    assert("left"@ =~= seq!['l', 'e', 'f', 't']);
                    assert("right"@ =~= seq!['r', 'i', 'g', 'h', 't']);
                    assert("center"@ =~= seq!['c', 'e', 'n', 't', 'e', 'r']);
                }
                if eq_str(k.as_slice(), "left") {
                    Alignment::Left
                } else if eq_str(k.as_slice(), "right") {
                    Alignment::Right
                } else if eq_str(k.as_slice(), "center") {
                    Alignment::Center
                } else {
                    Alignment::Justify
                }
            },
        }
    }
}


/// A link between two named nodes; its value plays no part in the columns.
#[derive(Clone, Debug)]
pub struct SankeyLink {
    pub source: String,
    pub target: String,
}

/// The names, as character sequences.
pub open spec fn names_view(order: Seq<String>) -> Seq<Seq<char>> {
    order.map_values(|s: String| s@)
}

/// The links as `(source, target)` pairs of names.
pub open spec fn links_view(links: Seq<SankeyLink>) -> Seq<(Seq<char>, Seq<char>)> {
    links.map_values(|l: SankeyLink| (l.source@, l.target@))
}

/// The number a node has in `m`, or 0 when it has none.
pub open spec fn lookup(m: Map<Seq<char>, u32>, k: Seq<char>) -> u32 {
    if m.contains_key(k) {
        m[k]
    } else {
        0
    }
}

/// The end of a link that a relaxation reads: the source for depths
/// (`forward`), the target for heights.
pub open spec fn near_end(l: (Seq<char>, Seq<char>), forward: bool) -> Seq<char> {
    if forward {
        l.0
    } else {
        l.1
    }
}

/// The end of a link that a relaxation raises.
pub open spec fn far_end(l: (Seq<char>, Seq<char>), forward: bool) -> Seq<char> {
    if forward {
        l.1
    } else {
        l.0
    }
}

/// One step: a far end not above the near end is set one above it.
pub open spec fn relax_link(m: Map<Seq<char>, u32>, l: (Seq<char>, Seq<char>), forward: bool) -> (
    Map<Seq<char>, u32>,
    bool,
) {
    let a = lookup(m, near_end(l, forward));
    let b = lookup(m, far_end(l, forward));
    if b <= a {
        (m.insert(far_end(l, forward), (a + 1) as u32), true)
    } else {
        (m, false)
    }
}

/// The first `i` links relaxed in order, and whether any step changed `m`.
pub open spec fn relax_pass(
    m: Map<Seq<char>, u32>,
    links: Seq<(Seq<char>, Seq<char>)>,
    forward: bool,
    i: nat,
) -> (Map<Seq<char>, u32>, bool)
    decreases i,
{
    if i == 0 {
        (m, false)
    } else {
        let p = relax_pass(m, links, forward, (i - 1) as nat);
        let q = relax_link(p.0, links[i - 1], forward);
        (q.0, p.1 || q.1)
    }
}

/// Whole passes after `done` of them: another runs while the last one
/// changed something and fewer than `MAX_PASSES` have run.
pub open spec fn relax_rounds(
    m: Map<Seq<char>, u32>,
    links: Seq<(Seq<char>, Seq<char>)>,
    forward: bool,
    done: nat,
) -> Map<Seq<char>, u32>
    decreases MAX_PASSES - done,
{
    let p = relax_pass(m, links, forward, links.len());
    if p.1 && done + 1 < MAX_PASSES {
        relax_rounds(p.0, links, forward, done + 1)
    } else {
        p.0
    }
}

/// Every declared node at 0.
pub open spec fn zero_map(names: Seq<Seq<char>>) -> Map<Seq<char>, u32> {
    Map::new(|k: Seq<char>| names.contains(k), |k: Seq<char>| 0u32)
}

/// Longest-path depth from a source, as relaxed.
pub open spec fn depths_spec(order: Seq<String>, links: Seq<SankeyLink>) -> Map<Seq<char>, u32> {
    relax_rounds(zero_map(names_view(order)), links_view(links), true, 0)
}

/// Longest-path distance to a sink, as relaxed.
pub open spec fn heights_spec(order: Seq<String>, links: Seq<SankeyLink>) -> Map<Seq<char>, u32> {
    relax_rounds(zero_map(names_view(order)), links_view(links), false, 0)
}

/// Is `k` the far end of some link?
pub open spec fn is_far_end(links: Seq<(Seq<char>, Seq<char>)>, forward: bool, k: Seq<char>) -> bool {
    exists|j: int| 0 <= j < links.len() && far_end(links[j], forward) == k
}

fn zero_columns(order: &[String]) -> (m: StringHashMap<u32>)
    ensures
        m@ == zero_map(names_view(order@)),
{
    let ghost names = names_view(order@);
    let mut m: StringHashMap<u32> = StringHashMap::new();
    let mut i: usize = 0;
    while i < order.len()
        invariant
            i <= order.len(),
            names == names_view(order@),
            m@ == zero_map(names.take(i as int)),
        decreases order.len() - i,
    {
        m.insert(order[i].clone(), 0);
        assert(names[i as int] == order@[i as int]@);
        i = i + 1;
        proof {
            lemma_take_contains(names, i - 1);
            assert(m@ =~= zero_map(names.take(i as int)));
        }
    }
    assert(names.take(order.len() as int) =~= names);
    m
}

fn lookup_exec(m: &StringHashMap<u32>, k: &String) -> (r: u32)
    ensures
        r == lookup(m@, k@),
{
    match m.get(k.as_str()) {
        Some(v) => *v,
        None => 0,
    }
}

/// Relaxation shared by depths (`forward`) and heights.
fn relax_columns(order: &[String], links: &[SankeyLink], forward: bool) -> (r: StringHashMap<u32>)
    requires
        links.len() <= MAX_LINKS,
    ensures
        r@ == relax_rounds(zero_map(names_view(order@)), links_view(links@), forward, 0),
        forall|k: Seq<char>| #[trigger]
            r@.contains_key(k) <==> (names_view(order@).contains(k) || is_far_end(
                links_view(links@),
                forward,
                k,
            )),
        forall|k: Seq<char>| #[trigger] r@.contains_key(k) ==> r@[k] <= MAX_PASSES * links.len(),
{
    let ghost lv = links_view(links@);
    let ghost names = names_view(order@);
    let ghost n: int = links.len() as int;
    let mut m = zero_columns(order);
    let ghost init = m@;
    let mut changed = true;
    let mut passes: u32 = 0;
    while changed && passes < MAX_PASSES
        invariant
            passes <= MAX_PASSES,
            n == links.len(),
            n <= MAX_LINKS,
            lv == links_view(links@),
            names == names_view(order@),
            init == zero_map(names),
            passes == 0 ==> changed,
            changed && passes < MAX_PASSES ==> relax_rounds(m@, lv, forward, passes as nat)
                == relax_rounds(init, lv, forward, 0),
            !(changed && passes < MAX_PASSES) ==> m@ == relax_rounds(init, lv, forward, 0),
            forall|k: Seq<char>| #[trigger] m@.contains_key(k) ==> m@[k] <= passes * n,
            forall|k: Seq<char>| #[trigger]
                m@.contains_key(k) <==> (names.contains(k) || (passes > 0 && is_far_end(
                    lv,
                    forward,
                    k,
                ))),
        decreases MAX_PASSES - passes,
    {
        let ghost start = m@;
        let ghost base: int = passes * n;
        assert(base + n <= MAX_PASSES * n) by (nonlinear_arith)
            requires
                base == passes * n,
                passes < MAX_PASSES,
                n >= 0,
        ;
        changed = false;
        let mut j: usize = 0;
        while j < links.len()
            invariant
                j <= links.len(),
                n == links.len(),
                n <= MAX_LINKS,
                lv == links_view(links@),
                names == names_view(order@),
                base + n <= MAX_PASSES * n,
                base >= 0,
                (m@, changed) == relax_pass(start, lv, forward, j as nat),
                forall|k: Seq<char>| #[trigger] m@.contains_key(k) ==> m@[k] <= base + j,
                forall|k: Seq<char>| #[trigger] start.contains_key(k) ==> m@.contains_key(k),
                forall|k: Seq<char>| #[trigger]
                    m@.contains_key(k) <==> (start.contains_key(k) || exists|w: int|
                        0 <= w < j && far_end(lv[w], forward) == k),
            decreases links.len() - j,
        {
            let l = &links[j];
            let (near, far) = if forward {
                (&l.source, &l.target)
            } else {
                (&l.target, &l.source)
            };
            let a = lookup_exec(&m, near);
            let b = lookup_exec(&m, far);
            let ghost before = m@;
            if b <= a {
                m.insert(far.clone(), a + 1);
                changed = true;
            }
            j = j + 1;
            proof {
                assert(lv[j - 1] == (links@[j - 1].source@, links@[j - 1].target@));
                assert forall|k: Seq<char>| #[trigger]
                    m@.contains_key(k) <==> (start.contains_key(k) || exists|w: int|
                        0 <= w < j && far_end(lv[w], forward) == k) by {
                    if m@.contains_key(k) && !start.contains_key(k) {
                        if before.contains_key(k) {
                            let w = choose|w: int| 0 <= w < j - 1 && far_end(lv[w], forward) == k;
                            assert(0 <= w < j && far_end(lv[w], forward) == k);
                        } else {
                            assert(far_end(lv[j - 1], forward) == k);
                        }
                    }
                    if exists|w: int| 0 <= w < j && far_end(lv[w], forward) == k {
                        let w = choose|w: int| 0 <= w < j && far_end(lv[w], forward) == k;
                        if w < j - 1 {
                            assert(before.contains_key(k));
                        } else {
                            assert(far_end(lv[j - 1], forward) == k);
                            if !(b <= a) {
                                assert(lookup(before, k) > 0);
                            }
                        }
                    }
                }
            }
        }
        passes = passes + 1;
        proof {
            assert(base + n == passes * n) by (nonlinear_arith)
                requires
                    base == (passes - 1) * n,
            ;
            assert forall|k: Seq<char>| #[trigger]
                m@.contains_key(k) <==> (names.contains(k) || (passes > 0 && is_far_end(
                    lv,
                    forward,
                    k,
                ))) by {
                if m@.contains_key(k) && !start.contains_key(k) {
                    let w = choose|w: int| 0 <= w < n && far_end(lv[w], forward) == k;
                    assert(is_far_end(lv, forward, k));
                }
                if is_far_end(lv, forward, k) {
                    let w = choose|w: int| 0 <= w < lv.len() && far_end(lv[w], forward) == k;
                    assert(0 <= w < n && far_end(lv[w], forward) == k);
                }
            }
        }
    }
    assert(passes * n <= MAX_PASSES * n) by (nonlinear_arith)
        requires
            passes <= MAX_PASSES,
            n >= 0,
    ;
    m
}

/// Longest-path depth from a source node (the column when left-aligned).
///
/// Every declared node and every link target gets a depth.
pub fn column_depths(order: &[String], links: &[SankeyLink]) -> (r: StringHashMap<u32>)
    requires
        links.len() <= MAX_LINKS,
    ensures
        r@ == depths_spec(order@, links@),
        forall|k: Seq<char>| #[trigger]
            r@.contains_key(k) <==> (names_view(order@).contains(k) || is_far_end(
                links_view(links@),
                true,
                k,
            )),
        forall|k: Seq<char>| #[trigger] r@.contains_key(k) ==> r@[k] <= MAX_PASSES * links.len(),
{
    relax_columns(order, links, true)
}

/// Longest-path distance to a sink node (used by right and center alignment).
///
/// Every declared node and every link source gets a height.
pub fn column_heights(order: &[String], links: &[SankeyLink]) -> (r: StringHashMap<u32>)
    requires
        links.len() <= MAX_LINKS,
    ensures
        r@ == heights_spec(order@, links@),
        forall|k: Seq<char>| #[trigger]
            r@.contains_key(k) <==> (names_view(order@).contains(k) || is_far_end(
                links_view(links@),
                false,
                k,
            )),
        forall|k: Seq<char>| #[trigger] r@.contains_key(k) ==> r@[k] <= MAX_PASSES * links.len(),
{
    relax_columns(order, links, false)
}

/// Does some link leave `n`?
pub open spec fn has_out(links: Seq<(Seq<char>, Seq<char>)>, n: Seq<char>) -> bool {
    is_far_end(links, false, n)
}

/// Does some link enter `n`?
pub open spec fn has_in(links: Seq<(Seq<char>, Seq<char>)>, n: Seq<char>) -> bool {
    is_far_end(links, true, n)
}

/// Is `v` the largest number in `m`?
pub open spec fn is_max(m: Map<Seq<char>, u32>, v: u32) -> bool {
    &&& exists|k: Seq<char>| #[trigger] m.contains_key(k) && m[k] == v
    &&& forall|k: Seq<char>| #[trigger] m.contains_key(k) ==> m[k] <= v
}

/// The largest number in `m`, 0 for an empty map.
pub open spec fn max_value(m: Map<Seq<char>, u32>) -> u32 {
    if exists|v: u32| is_max(m, v) {
        choose|v: u32| is_max(m, v)
    } else {
        0
    }
}

/// Smallest depth among the targets of the first `i` links that leave `n`.
pub open spec fn min_target_depth(
    links: Seq<(Seq<char>, Seq<char>)>,
    n: Seq<char>,
    depth: Map<Seq<char>, u32>,
    i: nat,
) -> Option<u32>
    decreases i,
{
    if i == 0 {
        None
    } else {
        let rest = min_target_depth(links, n, depth, (i - 1) as nat);
        let l = links[i - 1];
        if l.0 == n {
            let d = lookup(depth, l.1);
            match rest {
                Some(r) => Some(
                    if d < r {
                        d
                    } else {
                        r
                    },
                ),
                None => Some(d),
            }
        } else {
            rest
        }
    }
}

/// The column of node `n`; `last` is the last column (the largest depth).
pub open spec fn column_of(
    n: Seq<char>,
    links: Seq<(Seq<char>, Seq<char>)>,
    align: Alignment,
    depth: Map<Seq<char>, u32>,
    height: Map<Seq<char>, u32>,
    last: u32,
) -> u32 {
    match align {
        Alignment::Left => lookup(depth, n),
        Alignment::Right => if lookup(height, n) >= last {
            0
        } else {
            (last - lookup(height, n)) as u32
        },
        Alignment::Justify => if has_out(links, n) {
            lookup(depth, n)
        } else {
            last
        },
        Alignment::Center => if has_in(links, n) {
            lookup(depth, n)
        } else {
            match min_target_depth(links, n, depth, links.len()) {
                Some(d) => if d == 0 {
                    0
                } else {
                    (d - 1) as u32
                },
                None => 0,
            }
        },
    }
}

/// The column of every declared node.
pub open spec fn columns_spec(order: Seq<String>, links: Seq<SankeyLink>, align: Alignment) -> Map<
    Seq<char>,
    u32,
> {
    let depth = depths_spec(order, links);
    let height = heights_spec(order, links);
    Map::new(
        |k: Seq<char>| names_view(order).contains(k),
        |k: Seq<char>| column_of(k, links_view(links), align, depth, height, max_value(depth)),
    )
}

proof fn lemma_take_contains(names: Seq<Seq<char>>, i: int)
    requires
        0 <= i < names.len(),
    ensures
        forall|k: Seq<char>| #![trigger names.take(i + 1).contains(k)]
            names.take(i + 1).contains(k) <==> (names.take(i).contains(k) || k == names[i]),
{
    let cur = names.take(i + 1);
    let prev = names.take(i);
    assert forall|k: Seq<char>| cur.contains(k) <==> (prev.contains(k) || k == names[i]) by {
        if cur.contains(k) {
            let w = choose|w: int| 0 <= w < cur.len() && cur[w] == k;
            if w < i {
                assert(prev[w] == k);
            }
        }
        if prev.contains(k) {
            let w = choose|w: int| 0 <= w < prev.len() && prev[w] == k;
            assert(cur[w] == k);
        }
        if k == names[i] {
            assert(cur[i] == k);
        }
    }
}

proof fn lemma_max_unique(m: Map<Seq<char>, u32>, v: u32)
    requires
        is_max(m, v),
    ensures
        max_value(m) == v,
{
    let w = choose|w: u32| is_max(m, w);
    let kv = choose|k: Seq<char>| #[trigger] m.contains_key(k) && m[k] == v;
    let kw = choose|k: Seq<char>| #[trigger] m.contains_key(k) && m[k] == w;
    assert(m[kv] <= w);
    assert(m[kw] <= v);
}

proof fn lemma_min_target_some(
    links: Seq<(Seq<char>, Seq<char>)>,
    n: Seq<char>,
    depth: Map<Seq<char>, u32>,
    i: nat,
)
    requires
        i <= links.len(),
    ensures
        min_target_depth(links, n, depth, i) is Some <==> exists|j: int| 0 <= j < i && links[j].0 == n,
    decreases i,
{
    if i > 0 {
        lemma_min_target_some(links, n, depth, (i - 1) as nat);
        if exists|j: int| 0 <= j < i && links[j].0 == n {
            let j = choose|j: int| 0 <= j < i && links[j].0 == n;
            if j < i - 1 {
                assert(exists|j: int| 0 <= j < i - 1 && links[j].0 == n);
            }
        }
    }
}

/// The set of link ends on one side: targets when `forward`, else sources.
fn far_ends(links: &[SankeyLink], forward: bool) -> (r: StringHashMap<bool>)
    ensures
        forall|k: Seq<char>| #[trigger]
            r@.contains_key(k) <==> is_far_end(links_view(links@), forward, k),
{
    let ghost lv = links_view(links@);
    let mut r: StringHashMap<bool> = StringHashMap::new();
    let mut j: usize = 0;
    while j < links.len()
        invariant
            j <= links.len(),
            lv == links_view(links@),
            forall|k: Seq<char>| #[trigger]
                r@.contains_key(k) <==> exists|w: int| 0 <= w < j && far_end(lv[w], forward) == k,
        decreases links.len() - j,
    {
        let l = &links[j];
        if forward {
            r.insert(l.target.clone(), true);
        } else {
            r.insert(l.source.clone(), true);
        }
        j = j + 1;
        proof {
            assert(lv[j - 1] == (links@[j - 1].source@, links@[j - 1].target@));
            assert forall|k: Seq<char>| #[trigger]
                r@.contains_key(k) <==> exists|w: int| 0 <= w < j && far_end(lv[w], forward) == k by {
                if exists|w: int| 0 <= w < j && far_end(lv[w], forward) == k {
                    let w = choose|w: int| 0 <= w < j && far_end(lv[w], forward) == k;
                    if w < j - 1 {
                        assert(exists|w: int| 0 <= w < j - 1 && far_end(lv[w], forward) == k);
                    }
                }
                if r@.contains_key(k) && k != far_end(lv[j - 1], forward) {
                    let w = choose|w: int| 0 <= w < j - 1 && far_end(lv[w], forward) == k;
                    assert(0 <= w < j && far_end(lv[w], forward) == k);
                }
            }
        }
    }
    r
}

/// For every node that some link leaves, the smallest depth among those
/// links' targets.
fn min_target_depths(links: &[SankeyLink], depth: &StringHashMap<u32>) -> (r: StringHashMap<u32>)
    ensures
        forall|k: Seq<char>| #[trigger]
            min_target_depth(links_view(links@), k, depth@, links.len() as nat) == (if r@.contains_key(
                k,
            ) {
                Some(r@[k])
            } else {
                None
            }),
{
    let ghost lv = links_view(links@);
    let mut r: StringHashMap<u32> = StringHashMap::new();
    let mut j: usize = 0;
    while j < links.len()
        invariant
            j <= links.len(),
            lv == links_view(links@),
            forall|k: Seq<char>| #[trigger]
                min_target_depth(lv, k, depth@, j as nat) == (if r@.contains_key(k) {
                    Some(r@[k])
                } else {
                    None
                }),
        decreases links.len() - j,
    {
        let l = &links[j];
        let d = lookup_exec(depth, &l.target);
        let cur = match r.get(l.source.as_str()) {
            Some(v) => if d < *v {
                d
            } else {
                *v
            },
            None => d,
        };
        let ghost before = r@;
        r.insert(l.source.clone(), cur);
        j = j + 1;
        proof {
            assert(lv[j - 1] == (links@[j - 1].source@, links@[j - 1].target@));
            assert forall|k: Seq<char>| #[trigger]
                min_target_depth(lv, k, depth@, j as nat) == (if r@.contains_key(k) {
                    Some(r@[k])
                } else {
                    None
                }) by {
                assert(min_target_depth(lv, k, depth@, (j - 1) as nat) == (if before.contains_key(
                    k,
                ) {
                    Some(before[k])
                } else {
                    None
                }));
            }
        }
    }
    r
}

/// The largest number in `m`, given that every key of `m` is a declared
/// node or a far end of a link.
fn largest_column(
    m: &StringHashMap<u32>,
    order: &[String],
    links: &[SankeyLink],
    forward: bool,
) -> (r: u32)
    requires
        forall|k: Seq<char>| #[trigger]
            m@.contains_key(k) <==> (names_view(order@).contains(k) || is_far_end(
                links_view(links@),
                forward,
                k,
            )),
    ensures
        r == max_value(m@),
{
    let ghost names = names_view(order@);
    let ghost lv = links_view(links@);
    let mut best: u32 = 0;
    let mut i: usize = 0;
    while i < order.len()
        invariant
            i <= order.len(),
            names == names_view(order@),
            forall|k: Seq<char>| #[trigger]
                m@.contains_key(k) <==> (names.contains(k) || is_far_end(lv, forward, k)),
            best == 0 || exists|k: Seq<char>| #[trigger] m@.contains_key(k) && m@[k] == best,
            forall|w: int| 0 <= w < i ==> lookup(m@, #[trigger] names[w]) <= best,
        decreases order.len() - i,
    {
        let v = lookup_exec(m, &order[i]);
        assert(names[i as int] == order@[i as int]@);
        if v > best {
            best = v;
        }
        i = i + 1;
    }
    let mut j: usize = 0;
    while j < links.len()
        invariant
            j <= links.len(),
            names == names_view(order@),
            lv == links_view(links@),
            forall|k: Seq<char>| #[trigger]
                m@.contains_key(k) <==> (names.contains(k) || is_far_end(lv, forward, k)),
            best == 0 || exists|k: Seq<char>| #[trigger] m@.contains_key(k) && m@[k] == best,
            forall|w: int| 0 <= w < order.len() ==> lookup(m@, #[trigger] names[w]) <= best,
            forall|w: int| 0 <= w < j ==> lookup(m@, #[trigger] far_end(lv[w], forward)) <= best,
        decreases links.len() - j,
    {
        let l = &links[j];
        let v = if forward {
            lookup_exec(m, &l.target)
        } else {
            lookup_exec(m, &l.source)
        };
        assert(lv[j as int] == (links@[j as int].source@, links@[j as int].target@));
        if v > best {
            best = v;
        }
        j = j + 1;
    }
    proof {
        assert forall|k: Seq<char>| #[trigger] m@.contains_key(k) implies m@[k] <= best by {
            if names.contains(k) {
                let w = choose|w: int| 0 <= w < names.len() && names[w] == k;
                assert(lookup(m@, names[w]) <= best);
            } else {
                let w = choose|w: int| 0 <= w < lv.len() && far_end(lv[w], forward) == k;
                assert(lookup(m@, far_end(lv[w], forward)) <= best);
            }
        }
        if exists|k: Seq<char>| m@.contains_key(k) {
            let k0 = choose|k: Seq<char>| m@.contains_key(k);
            if best == 0 {
                assert(m@.contains_key(k0) && m@[k0] == best);
            }
            lemma_max_unique(m@, best);
        } else {
            assert forall|v: u32| !is_max(m@, v) by {}
        }
    }
    best
}

/// Assign a column to every declared node under the chosen [`Alignment`].
pub fn assign_columns(order: &[String], links: &[SankeyLink], align: Alignment) -> (r:
    StringHashMap<u32>)
    requires
        links.len() <= MAX_LINKS,
    ensures
        r@ == columns_spec(order@, links@, align),
{
    let ghost names = names_view(order@);
    let ghost lv = links_view(links@);
    let depth = column_depths(order, links);
    let height = column_heights(order, links);
    let last = largest_column(&depth, order, links, true);
    let ins = far_ends(links, true);
    let mins = min_target_depths(links, &depth);
    let mut r: StringHashMap<u32> = StringHashMap::new();
    let mut i: usize = 0;
    while i < order.len()
        invariant
            i <= order.len(),
            names == names_view(order@),
            lv == links_view(links@),
            depth@ == depths_spec(order@, links@),
            height@ == heights_spec(order@, links@),
            last == max_value(depth@),
            forall|k: Seq<char>| #[trigger] ins@.contains_key(k) <==> has_in(lv, k),
            forall|k: Seq<char>| #[trigger]
                min_target_depth(lv, k, depth@, links.len() as nat) == (if mins@.contains_key(k) {
                    Some(mins@[k])
                } else {
                    None
                }),
            r@ == Map::new(
                |k: Seq<char>| names.take(i as int).contains(k),
                |k: Seq<char>| column_of(k, lv, align, depth@, height@, last),
            ),
        decreases order.len() - i,
    {
        let n = &order[i];
        assert(names[i as int] == n@);
        let c: u32 = match align {
            Alignment::Left => lookup_exec(&depth, n),
            Alignment::Right => {
                let h = lookup_exec(&height, n);
                if h >= last {
                    0
                } else {
                    last - h
                }
            },
            Alignment::Justify => {
                proof {
                    lemma_min_target_some(lv, n@, depth@, links.len() as nat);
                    if has_out(lv, n@) {
                        let w = choose|w: int| 0 <= w < lv.len() && far_end(lv[w], false) == n@;
                        assert(lv[w].0 == n@);
                    }
                    if mins@.contains_key(n@) {
                        let w = choose|w: int| 0 <= w < links.len() && lv[w].0 == n@;
                        assert(far_end(lv[w], false) == n@);
                    }
                }
                if mins.contains_key(n.as_str()) {
                    lookup_exec(&depth, n)
                } else {
                    last
                }
            },
            Alignment::Center => {
                if ins.contains_key(n.as_str()) {
                    lookup_exec(&depth, n)
                } else {
                    match mins.get(n.as_str()) {
                        Some(d) => if *d == 0 {
                            0
                        } else {
                            *d - 1
                        },
                        None => 0,
                    }
                }
            },
        };
        r.insert(n.clone(), c);
        proof {
            lemma_take_contains(names, i as int);
        }
        i = i + 1;
        assert(r@ =~= Map::new(
            |k: Seq<char>| names.take(i as int).contains(k),
            |k: Seq<char>| column_of(k, lv, align, depth@, height@, last),
        ));
    }
    assert(names.take(order.len() as int) =~= names);
    assert(r@ =~= columns_spec(order@, links@, align));
    r
}

proof fn lemma_pass_keeps_other_keys(
    m: Map<Seq<char>, u32>,
    links: Seq<(Seq<char>, Seq<char>)>,
    forward: bool,
    i: nat,
    k: Seq<char>,
)
    requires
        i <= links.len(),
        !is_far_end(links, forward, k),
    ensures
        lookup(relax_pass(m, links, forward, i).0, k) == lookup(m, k),
    decreases i,
{
    if i > 0 {
        lemma_pass_keeps_other_keys(m, links, forward, (i - 1) as nat, k);
        assert(far_end(links[i - 1], forward) != k);
    }
}

proof fn lemma_rounds_keep_other_keys(
    m: Map<Seq<char>, u32>,
    links: Seq<(Seq<char>, Seq<char>)>,
    forward: bool,
    done: nat,
    k: Seq<char>,
)
    requires
        !is_far_end(links, forward, k),
    ensures
        lookup(relax_rounds(m, links, forward, done), k) == lookup(m, k),
    decreases MAX_PASSES - done,
{
    lemma_pass_keeps_other_keys(m, links, forward, links.len(), k);
    let p = relax_pass(m, links, forward, links.len());
    if p.1 && done + 1 < MAX_PASSES {
        lemma_rounds_keep_other_keys(p.0, links, forward, done + 1, k);
    }
}

proof fn lemma_quiet_pass(
    m: Map<Seq<char>, u32>,
    links: Seq<(Seq<char>, Seq<char>)>,
    forward: bool,
    i: nat,
)
    requires
        i <= links.len(),
        !relax_pass(m, links, forward, i).1,
    ensures
        relax_pass(m, links, forward, i).0 == m,
        forall|j: int|
            0 <= j < i ==> lookup(m, #[trigger] far_end(links[j], forward)) > lookup(
                m,
                near_end(links[j], forward),
            ),
    decreases i,
{
    if i > 0 {
        lemma_quiet_pass(m, links, forward, (i - 1) as nat);
    }
}

/// Under left alignment, a declared node that no link enters sits in the
/// first column.
pub proof fn law_left_sources_first_column(order: Seq<String>, links: Seq<SankeyLink>, n: Seq<char>)
    requires
        names_view(order).contains(n),
        !has_in(links_view(links), n),
    ensures
        columns_spec(order, links, Alignment::Left)[n] == 0,
{
    lemma_rounds_keep_other_keys(zero_map(names_view(order)), links_view(links), true, 0, n);
}

/// Under right or justify alignment, a declared node that no link leaves
/// sits in the last column (the largest depth).
pub proof fn law_sinks_last_column(
    order: Seq<String>,
    links: Seq<SankeyLink>,
    n: Seq<char>,
    align: Alignment,
)
    requires
        names_view(order).contains(n),
        !has_out(links_view(links), n),
        align == Alignment::Right || align == Alignment::Justify,
    ensures
        columns_spec(order, links, align)[n] == max_value(depths_spec(order, links)),
{
    lemma_rounds_keep_other_keys(zero_map(names_view(order)), links_view(links), false, 0, n);
}

/// Every raised number is backed by a link: a node above 0 is the far end
/// of a link whose near end is at most one below it.
pub open spec fn backed(m: Map<Seq<char>, u32>, links: Seq<(Seq<char>, Seq<char>)>, forward: bool) -> bool {
    forall|k: Seq<char>|
        #![trigger lookup(m, k)]
        lookup(m, k) > 0 ==> exists|j: int|
            0 <= j < links.len() && far_end(links[j], forward) == k && lookup(
                m,
                #[trigger] near_end(links[j], forward),
            ) + 1 >= lookup(m, k)
}

proof fn lemma_step_backed(
    p: Map<Seq<char>, u32>,
    links: Seq<(Seq<char>, Seq<char>)>,
    forward: bool,
    idx: int,
)
    requires
        0 <= idx < links.len(),
        backed(p, links, forward),
        lookup(p, near_end(links[idx], forward)) < u32::MAX,
    ensures
        backed(relax_link(p, links[idx], forward).0, links, forward),
        forall|k: Seq<char>| lookup(p, k) <= #[trigger] lookup(relax_link(p, links[idx], forward).0, k),
{
    let l = links[idx];
    let a = lookup(p, near_end(l, forward));
    let b = lookup(p, far_end(l, forward));
    if b <= a {
        let q = p.insert(far_end(l, forward), (a + 1) as u32);
        assert forall|k: Seq<char>| lookup(p, k) <= #[trigger] lookup(q, k) by {}
        assert forall|k: Seq<char>| #![trigger lookup(q, k)] lookup(q, k) > 0 implies exists|j: int|
            0 <= j < links.len() && far_end(links[j], forward) == k && lookup(
                q,
                #[trigger] near_end(links[j], forward),
            ) + 1 >= lookup(q, k) by {
            if k == far_end(l, forward) {
                assert(lookup(q, near_end(links[idx], forward)) + 1 >= lookup(q, k));
            } else {
                assert(lookup(p, k) == lookup(q, k));
                let j = choose|j: int|
                    0 <= j < links.len() && far_end(links[j], forward) == k && lookup(
                        p,
                        #[trigger] near_end(links[j], forward),
                    ) + 1 >= lookup(p, k);
                assert(lookup(q, near_end(links[j], forward)) >= lookup(p, near_end(links[j], forward)));
            }
        }
    }
}

proof fn lemma_pass_backed(
    m: Map<Seq<char>, u32>,
    links: Seq<(Seq<char>, Seq<char>)>,
    forward: bool,
    i: nat,
    b: int,
)
    requires
        i <= links.len(),
        backed(m, links, forward),
        b >= 0,
        b + i < u32::MAX,
        forall|k: Seq<char>| #[trigger] m.contains_key(k) ==> m[k] <= b,
    ensures
        backed(relax_pass(m, links, forward, i).0, links, forward),
    decreases i,
{
    if i > 0 {
        lemma_pass_backed(m, links, forward, (i - 1) as nat, b);
        lemma_pass_bound(m, links, forward, (i - 1) as nat, b);
        let p = relax_pass(m, links, forward, (i - 1) as nat).0;
        let near = near_end(links[i - 1], forward);
        if p.contains_key(near) {
            assert(p[near] <= b + i - 1);
        }
        lemma_step_backed(p, links, forward, i - 1);
    }
}

proof fn lemma_rounds_backed(
    m: Map<Seq<char>, u32>,
    links: Seq<(Seq<char>, Seq<char>)>,
    forward: bool,
    done: nat,
)
    requires
        backed(m, links, forward),
        done <= MAX_PASSES,
        links.len() <= MAX_LINKS,
        forall|k: Seq<char>| #[trigger] m.contains_key(k) ==> m[k] <= done * links.len(),
    ensures
        backed(relax_rounds(m, links, forward, done), links, forward),
    decreases MAX_PASSES - done,
{
    let n = links.len();
    assert(done * n + n <= MAX_PASSES * n + n) by (nonlinear_arith)
        requires
            done <= MAX_PASSES,
    ;
    lemma_pass_backed(m, links, forward, n, (done * n) as int);
    let p = relax_pass(m, links, forward, n);
    if p.1 && done + 1 < MAX_PASSES {
        lemma_pass_bound(m, links, forward, n, (done * n) as int);
        assert(done * n + n == (done + 1) * n) by (nonlinear_arith);
        lemma_rounds_backed(p.0, links, forward, done + 1);
    }
}

proof fn lemma_pass_bound(
    m: Map<Seq<char>, u32>,
    links: Seq<(Seq<char>, Seq<char>)>,
    forward: bool,
    i: nat,
    b: int,
)
    requires
        i <= links.len(),
        b >= 0,
        b + i < u32::MAX,
        forall|k: Seq<char>| #[trigger] m.contains_key(k) ==> m[k] <= b,
    ensures
        forall|k: Seq<char>| #[trigger] relax_pass(m, links, forward, i).0.contains_key(k)
            ==> relax_pass(m, links, forward, i).0[k] <= b + i,
    decreases i,
{
    if i > 0 {
        lemma_pass_bound(m, links, forward, (i - 1) as nat, b);
        let p = relax_pass(m, links, forward, (i - 1) as nat).0;
        let near = near_end(links[i - 1], forward);
        if p.contains_key(near) {
            assert(p[near] <= b + i - 1);
        }
        let q = relax_pass(m, links, forward, i).0;
        assert forall|k: Seq<char>| #[trigger] q.contains_key(k) implies q[k] <= b + i by {
            if p.contains_key(k) {
                assert(p[k] <= b + i - 1);
            }
        }
    }
}

/// Settled numbers solve the longest-path recursion: a node is one above
/// the highest near end of the links into it, and at 0 when none enters it.
proof fn lemma_settled_longest(
    order: Seq<String>,
    links: Seq<SankeyLink>,
    forward: bool,
    k: Seq<char>,
)
    requires
        links.len() <= MAX_LINKS,
        !relax_pass(
            relax_rounds(zero_map(names_view(order)), links_view(links), forward, 0),
            links_view(links),
            forward,
            links.len(),
        ).1,
    ensures
        ({
            let m = relax_rounds(zero_map(names_view(order)), links_view(links), forward, 0);
            let lv = links_view(links);
            &&& !is_far_end(lv, forward, k) ==> lookup(m, k) == 0
            &&& forall|j: int|
                0 <= j < lv.len() && far_end(lv[j], forward) == k ==> lookup(m, k) >= lookup(
                    m,
                    near_end(lv[j], forward),
                ) + 1
            &&& is_far_end(lv, forward, k) ==> exists|j: int|
                0 <= j < lv.len() && far_end(lv[j], forward) == k && lookup(m, k) == lookup(
                    m,
                    near_end(lv[j], forward),
                ) + 1
        }),
{
    let lv = links_view(links);
    let z = zero_map(names_view(order));
    let m = relax_rounds(z, lv, forward, 0);
    assert(links.len() == lv.len());
    assert forall|k: Seq<char>| #![trigger lookup(z, k)] lookup(z, k) > 0 implies exists|j: int|
        0 <= j < lv.len() && far_end(lv[j], forward) == k && lookup(
            z,
            #[trigger] near_end(lv[j], forward),
        ) + 1 >= lookup(z, k) by {}
    lemma_rounds_backed(z, lv, forward, 0);
    lemma_quiet_pass(m, lv, forward, lv.len());
    if !is_far_end(lv, forward, k) {
        lemma_rounds_keep_other_keys(z, lv, forward, 0, k);
    } else {
        let j0 = choose|j: int| 0 <= j < lv.len() && far_end(lv[j], forward) == k;
        assert(lookup(m, far_end(lv[j0], forward)) > lookup(m, near_end(lv[j0], forward)));
        assert(lookup(m, k) > 0);
        let j = choose|j: int|
            0 <= j < lv.len() && far_end(lv[j], forward) == k && lookup(
                m,
                #[trigger] near_end(lv[j], forward),
            ) + 1 >= lookup(m, k);
        assert(lookup(m, far_end(lv[j], forward)) > lookup(m, near_end(lv[j], forward)));
    }
}

/// Once a further pass would change no depth, the depths are longest-path
/// depths: a node no link enters is at 0, and any other node is one deeper
/// than the deepest source linking into it.
pub proof fn law_settled_depths_are_longest_paths(order: Seq<String>, links: Seq<SankeyLink>, k: Seq<char>)
    requires
        links.len() <= MAX_LINKS,
        !relax_pass(depths_spec(order, links), links_view(links), true, links.len()).1,
    ensures
        !has_in(links_view(links), k) ==> lookup(depths_spec(order, links), k) == 0,
        forall|j: int|
            0 <= j < links.len() && #[trigger] links[j].target@ == k ==> lookup(
                depths_spec(order, links),
                k,
            ) >= lookup(depths_spec(order, links), links[j].source@) + 1,
        has_in(links_view(links), k) ==> exists|j: int|
            0 <= j < links.len() && #[trigger] links[j].target@ == k && lookup(
                depths_spec(order, links),
                k,
            ) == lookup(depths_spec(order, links), links[j].source@) + 1,
{
    let lv = links_view(links);
    lemma_settled_longest(order, links, true, k);
    assert forall|j: int| 0 <= j < links.len() implies #[trigger] lv[j] == (
        links[j].source@,
        links[j].target@,
    ) by {}
    assert forall|j: int|
        0 <= j < links.len() && #[trigger] links[j].target@ == k implies lookup(
            depths_spec(order, links),
            k,
        ) >= lookup(depths_spec(order, links), links[j].source@) + 1 by {
        assert(lv[j] == (links[j].source@, links[j].target@));
        assert(far_end(lv[j], true) == k);
    }
    if has_in(lv, k) {
        let j = choose|j: int|
            0 <= j < lv.len() && far_end(lv[j], true) == k && lookup(
                depths_spec(order, links),
                k,
            ) == lookup(depths_spec(order, links), near_end(lv[j], true)) + 1;
        assert(links[j].target@ == k);
    }
}

/// Once a further pass would change no height, the heights are longest-path
/// distances to a sink: a node no link leaves is at 0, and any other node is
/// one above the highest target it links to.
pub proof fn law_settled_heights_are_longest_paths(order: Seq<String>, links: Seq<SankeyLink>, k: Seq<char>)
    requires
        links.len() <= MAX_LINKS,
        !relax_pass(heights_spec(order, links), links_view(links), false, links.len()).1,
    ensures
        !has_out(links_view(links), k) ==> lookup(heights_spec(order, links), k) == 0,
        forall|j: int|
            0 <= j < links.len() && #[trigger] links[j].source@ == k ==> lookup(
                heights_spec(order, links),
                k,
            ) >= lookup(heights_spec(order, links), links[j].target@) + 1,
        has_out(links_view(links), k) ==> exists|j: int|
            0 <= j < links.len() && #[trigger] links[j].source@ == k && lookup(
                heights_spec(order, links),
                k,
            ) == lookup(heights_spec(order, links), links[j].target@) + 1,
{
    let lv = links_view(links);
    lemma_settled_longest(order, links, false, k);
    assert forall|j: int| 0 <= j < links.len() implies #[trigger] lv[j] == (
        links[j].source@,
        links[j].target@,
    ) by {}
    assert forall|j: int|
        0 <= j < links.len() && #[trigger] links[j].source@ == k implies lookup(
            heights_spec(order, links),
            k,
        ) >= lookup(heights_spec(order, links), links[j].target@) + 1 by {
        assert(lv[j] == (links[j].source@, links[j].target@));
        assert(far_end(lv[j], false) == k);
    }
    if has_out(lv, k) {
        let j = choose|j: int|
            0 <= j < lv.len() && far_end(lv[j], false) == k && lookup(
                heights_spec(order, links),
                k,
            ) == lookup(heights_spec(order, links), near_end(lv[j], false)) + 1;
        assert(links[j].source@ == k);
    }
}

proof fn lemma_min_target_depth(
    links: Seq<(Seq<char>, Seq<char>)>,
    n: Seq<char>,
    depth: Map<Seq<char>, u32>,
    i: nat,
)
    requires
        i <= links.len(),
    ensures
        min_target_depth(links, n, depth, i) matches Some(d) ==> {
            &&& forall|j: int| 0 <= j < i && links[j].0 == n ==> d <= lookup(depth, links[j].1)
            &&& exists|j: int| 0 <= j < i && links[j].0 == n && d == lookup(depth, links[j].1)
        },
        min_target_depth(links, n, depth, i) is None ==> forall|j: int| 0 <= j < i ==> links[j].0 != n,
    decreases i,
{
    if i > 0 {
        lemma_min_target_depth(links, n, depth, (i - 1) as nat);
        let rest = min_target_depth(links, n, depth, (i - 1) as nat);
        if links[i - 1].0 == n {
            let d = lookup(depth, links[i - 1].1);
            match rest {
                Some(r) => {
                    let w = choose|j: int|
                        0 <= j < i - 1 && links[j].0 == n && r == lookup(depth, links[j].1);
                    if d < r {
                        assert(0 <= i - 1 < i && links[i - 1].0 == n);
                    } else {
                        assert(0 <= w < i && links[w].0 == n && r == lookup(depth, links[w].1));
                    }
                },
                None => {},
            }
        } else {
            match rest {
                Some(r) => {
                    let w = choose|j: int|
                        0 <= j < i - 1 && links[j].0 == n && r == lookup(depth, links[j].1);
                    assert(0 <= w < i && links[w].0 == n && r == lookup(depth, links[w].1));
                },
                None => {},
            }
        }
    }
}

/// Under center alignment, a declared node that no link enters but some
/// link leaves sits one column before its shallowest target (or in the
/// first column): its column is below the depth of every target it links
/// to, and one below the depth of some target. A node with no links at all
/// sits in the first column.
pub proof fn law_center_source_before_nearest_target(
    order: Seq<String>,
    links: Seq<SankeyLink>,
    n: Seq<char>,
)
    requires
        names_view(order).contains(n),
        !has_in(links_view(links), n),
    ensures
        forall|j: int|
            0 <= j < links.len() && #[trigger] links[j].source@ == n ==> columns_spec(
                order,
                links,
                Alignment::Center,
            )[n] == 0 || columns_spec(order, links, Alignment::Center)[n] < lookup(
                depths_spec(order, links),
                links[j].target@,
            ),
        has_out(links_view(links), n) ==> exists|j: int|
            0 <= j < links.len() && #[trigger] links[j].source@ == n && columns_spec(
                order,
                links,
                Alignment::Center,
            )[n] + 1 >= lookup(depths_spec(order, links), links[j].target@),
        !has_out(links_view(links), n) ==> columns_spec(order, links, Alignment::Center)[n] == 0,
{
    let lv = links_view(links);
    let d = depths_spec(order, links);
    lemma_min_target_depth(lv, n, d, lv.len());
    assert forall|j: int| 0 <= j < links.len() implies #[trigger] lv[j] == (
        links[j].source@,
        links[j].target@,
    ) by {}
    assert forall|j: int|
        0 <= j < links.len() && #[trigger] links[j].source@ == n implies columns_spec(
            order,
            links,
            Alignment::Center,
        )[n] == 0 || columns_spec(order, links, Alignment::Center)[n] < lookup(d, links[j].target@) by {
        assert(lv[j].0 == n);
        assert(far_end(lv[j], false) == n);
        let m = min_target_depth(lv, n, d, lv.len());
        assert(m is Some);
        assert(m->0 <= lookup(d, lv[j].1));
    }
    if has_out(lv, n) {
        let w = choose|j: int| 0 <= j < lv.len() && far_end(lv[j], false) == n;
        assert(lv[w].0 == n);
        let m = min_target_depth(lv, n, d, lv.len());
        assert(m is Some);
        let j = choose|j: int| 0 <= j < lv.len() && lv[j].0 == n && m->0 == lookup(d, lv[j].1);
        assert(links[j].source@ == n);
    } else {
        let m = min_target_depth(lv, n, d, lv.len());
        if m is Some {
            let j = choose|j: int| 0 <= j < lv.len() && lv[j].0 == n && m->0 == lookup(d, lv[j].1);
            assert(far_end(lv[j], false) == n);
        }
    }
}

/// How the alignments read the depths and heights of a declared node:
/// left alignment takes its depth; center alignment takes the depth of a
/// node some link enters; justify alignment takes the depth of a node some
/// link leaves; right alignment counts the node's height back from the last
/// column (the largest depth), stopping at the first column.
pub proof fn law_columns_follow_depth_and_height(order: Seq<String>, links: Seq<SankeyLink>, n: Seq<char>)
    requires
        names_view(order).contains(n),
    ensures
        columns_spec(order, links, Alignment::Left)[n] == lookup(depths_spec(order, links), n),
        has_in(links_view(links), n) ==> columns_spec(order, links, Alignment::Center)[n] == lookup(
            depths_spec(order, links),
            n,
        ),
        has_out(links_view(links), n) ==> columns_spec(order, links, Alignment::Justify)[n]
            == lookup(depths_spec(order, links), n),
        lookup(heights_spec(order, links), n) <= max_value(depths_spec(order, links)) ==> columns_spec(
            order,
            links,
            Alignment::Right,
        )[n] + lookup(heights_spec(order, links), n) == max_value(depths_spec(order, links)),
        lookup(heights_spec(order, links), n) >= max_value(depths_spec(order, links)) ==> columns_spec(
            order,
            links,
            Alignment::Right,
        )[n] == 0,
{
}

} // verus!
