//! User-journey helpers: the legend's actor list.

use vstd::prelude::*;
use crate::text::chars_of;

verus! {

/// A journey task, as far as the legend reads it: its actors.
pub struct JourneyTask {
    pub actors: Vec<String>,
}

/// A journey section: its tasks.
pub struct JourneySection {
    pub tasks: Vec<JourneyTask>,
}

/// Lexicographic order on character sequences (the order of `String`).
pub open spec fn lex_lt(a: Seq<char>, b: Seq<char>) -> bool
    decreases a.len(),
{
    if a.len() == 0 {
        b.len() > 0
    } else if b.len() == 0 {
        false
    } else if a[0] < b[0] {
        true
    } else if a[0] > b[0] {
        false
    } else {
        lex_lt(a.drop_first(), b.drop_first())
    }
}

pub proof fn lemma_lex_irreflexive(a: Seq<char>)
    ensures
        !lex_lt(a, a),
    decreases a.len(),
{
    if a.len() > 0 {
        lemma_lex_irreflexive(a.drop_first());
    }
}

pub proof fn lemma_lex_total(a: Seq<char>, b: Seq<char>)
    ensures
        a == b || lex_lt(a, b) || lex_lt(b, a),
    decreases a.len(),
{
    if a.len() > 0 && b.len() > 0 && a[0] == b[0] {
        lemma_lex_total(a.drop_first(), b.drop_first());
        if a.drop_first() == b.drop_first() {
            assert(a =~= seq![a[0]] + a.drop_first());
            assert(b =~= seq![b[0]] + b.drop_first());
        }
    } else if a.len() == 0 && b.len() == 0 {
        assert(a =~= b);
    }
}

pub proof fn lemma_lex_trans(a: Seq<char>, b: Seq<char>, c: Seq<char>)
    requires
        lex_lt(a, b),
        lex_lt(b, c),
    ensures
        lex_lt(a, c),
    decreases a.len(),
{
    if a.len() > 0 && b.len() > 0 && c.len() > 0 && a[0] == b[0] && b[0] == c[0] {
        lemma_lex_trans(a.drop_first(), b.drop_first(), c.drop_first());
    }
}

fn lex_lt_exec(a: &[char], b: &[char]) -> (r: bool)
    ensures
        r == lex_lt(a@, b@),
{
    let mut i: usize = 0;
    assert(a@.skip(0) =~= a@);
    assert(b@.skip(0) =~= b@);
    while i < a.len() && i < b.len() && a[i] == b[i]
        invariant
            i <= a.len(),
            i <= b.len(),
            lex_lt(a@, b@) == lex_lt(a@.skip(i as int), b@.skip(i as int)),
        decreases a.len() - i,
    {
        assert(a@.skip(i as int).drop_first() =~= a@.skip(i + 1));
        assert(b@.skip(i as int).drop_first() =~= b@.skip(i + 1));
        i = i + 1;
    }
    assert(a@.skip(i as int).len() == a.len() - i);
    if i == a.len() {
        i < b.len()
    } else if i == b.len() {
        false
    } else {
        assert(a@.skip(i as int)[0] == a@[i as int]);
        assert(b@.skip(i as int)[0] == b@[i as int]);
        a[i] < b[i]
    }
}

/// `a` is named as an actor of some task.
pub open spec fn is_actor(sections: Seq<JourneySection>, a: Seq<char>) -> bool {
    exists|i: int, j: int, k: int|
        0 <= i < sections.len() && 0 <= j < sections[i].tasks.len() && 0 <= k
            < sections[i].tasks@[j].actors.len() && #[trigger] sections[i].tasks@[j].actors@[k]@ == a
}

/// `v` is strictly increasing in lexicographic order.
pub open spec fn strictly_sorted(v: Seq<Seq<char>>) -> bool {
    forall|i: int, j: int| 0 <= i < j < v.len() ==> lex_lt(#[trigger] v[i], #[trigger] v[j])
}

pub open spec fn names(v: Seq<String>) -> Seq<Seq<char>> {
    v.map_values(|s: String| s@)
}

/// Insert `a` into the sorted `out` unless it is already there.
fn insert_sorted(out: &mut Vec<String>, a: &String)
    requires
        strictly_sorted(names(old(out)@)),
    ensures
        strictly_sorted(names(final(out)@)),
        forall|x: Seq<char>| names(final(out)@).contains(x) <==> (names(old(out)@).contains(x) || x == a@),
{
    let ghost n0 = names(out@);
    let av = chars_of(a.as_str());
    let mut p: usize = 0;
    while p < out.len() && lex_lt_exec(chars_of(out[p].as_str()).as_slice(), av.as_slice())
        invariant
            p <= out.len(),
            n0 == names(out@),
            av@ == a@,
            forall|m: int| 0 <= m < p ==> lex_lt(#[trigger] n0[m], a@),
        decreases out.len() - p,
    {
        p = p + 1;
    }
    if p < out.len() && out[p] == *a {
        assert(n0[p as int] == a@);
        return ;
    }
    proof {
        if p < out.len() {
            assert(!lex_lt(n0[p as int], a@));
            assert(n0[p as int] != a@);
            lemma_lex_total(n0[p as int], a@);
        }
    }
    out.insert(p, a.clone());
    let ghost n1 = names(out@);
    proof {
        assert(n1.len() == n0.len() + 1);
        assert forall|m: int| 0 <= m < n1.len() implies #[trigger] n1[m] == if m < p {
            n0[m]
        } else if m == p {
            a@
        } else {
            n0[m - 1]
        } by {}
        assert forall|i: int, j: int| 0 <= i < j < n1.len() implies lex_lt(
            #[trigger] n1[i],
            #[trigger] n1[j],
        ) by {
            if j < p {
            } else if j == p {
                assert(lex_lt(n0[i], a@));
            } else if i == p {
                if j - 1 == p {
                } else {
                    assert(lex_lt(n0[p as int], n0[j - 1]));
                    lemma_lex_trans(a@, n0[p as int], n0[j - 1]);
                }
            } else if i < p {
                assert(lex_lt(n0[i], n0[j - 1]));
            } else {
                assert(lex_lt(n0[i - 1], n0[j - 1]));
            }
        }
        assert forall|x: Seq<char>| n1.contains(x) <==> (n0.contains(x) || x == a@) by {
            if n1.contains(x) {
                let m = choose|m: int| 0 <= m < n1.len() && n1[m] == x;
                if m < p {
                    assert(n0[m] == x);
                } else if m > p {
                    assert(n0[m - 1] == x);
                }
            }
            if n0.contains(x) {
                let m = choose|m: int| 0 <= m < n0.len() && n0[m] == x;
                if m < p {
                    assert(n1[m] == x);
                } else {
                    assert(n1[m + 1] == x);
                }
            }
            if x == a@ {
                assert(n1[p as int] == x);
            }
        }
    }
}

/// `a` is one of the first `k` actors.
pub open spec fn in_actors(actors: Seq<String>, k: int, a: Seq<char>) -> bool {
    exists|kk: int| 0 <= kk < k && kk < actors.len() && #[trigger] actors[kk]@ == a
}

/// `a` is an actor of one of the first `j` tasks.
pub open spec fn in_tasks(tasks: Seq<JourneyTask>, j: int, a: Seq<char>) -> bool {
    exists|jj: int|
        0 <= jj < j && jj < tasks.len() && in_actors(
            #[trigger] tasks[jj].actors@,
            tasks[jj].actors.len() as int,
            a,
        )
}

/// `a` is an actor of a task in one of the first `i` sections.
pub open spec fn in_sections(sections: Seq<JourneySection>, i: int, a: Seq<char>) -> bool {
    exists|si: int|
        0 <= si < i && si < sections.len() && in_tasks(
            #[trigger] sections[si].tasks@,
            sections[si].tasks.len() as int,
            a,
        )
}

proof fn lemma_is_actor(sections: Seq<JourneySection>, a: Seq<char>)
    ensures
        is_actor(sections, a) <==> in_sections(sections, sections.len() as int, a),
{
    if is_actor(sections, a) {
        let (i, j, k) = choose|i: int, j: int, k: int|
            0 <= i < sections.len() && 0 <= j < sections[i].tasks.len() && 0 <= k
                < sections[i].tasks@[j].actors.len() && #[trigger] sections[i].tasks@[j].actors@[k]@
                == a;
        assert(in_actors(sections[i].tasks@[j].actors@, sections[i].tasks@[j].actors.len() as int, a));
        assert(in_tasks(sections[i].tasks@, sections[i].tasks.len() as int, a));
    }
    if in_sections(sections, sections.len() as int, a) {
        let si = choose|si: int|
            0 <= si < sections.len() && in_tasks(
                #[trigger] sections[si].tasks@,
                sections[si].tasks.len() as int,
                a,
            );
        let t = sections[si].tasks@;
        let jj = choose|jj: int|
            0 <= jj < t.len() && in_actors(#[trigger] t[jj].actors@, t[jj].actors.len() as int, a);
        let acts = t[jj].actors@;
        let kk = choose|kk: int| 0 <= kk < acts.len() && #[trigger] acts[kk]@ == a;
        assert(sections[si].tasks@[jj].actors@[kk]@ == a);
    }
}

/// The distinct actors of every task, sorted.
pub fn collect_actors(sections: &[JourneySection]) -> (r: Vec<String>)
    ensures
        strictly_sorted(names(r@)),
        forall|a: Seq<char>| names(r@).contains(a) <==> is_actor(sections@, a),
{
    let mut seen: Vec<String> = Vec::new();
    let mut i: usize = 0;
    while i < sections.len()
        invariant
            i <= sections.len(),
            strictly_sorted(names(seen@)),
            forall|a: Seq<char>|
                #[trigger] names(seen@).contains(a) <==> in_sections(sections@, i as int, a),
        decreases sections.len() - i,
    {
        let tasks = &sections[i].tasks;
        let mut j: usize = 0;
        while j < tasks.len()
            invariant
                i < sections.len(),
                j <= tasks.len(),
                *tasks == sections@[i as int].tasks,
                strictly_sorted(names(seen@)),
                forall|a: Seq<char>|
                    #[trigger] names(seen@).contains(a) <==> (in_sections(sections@, i as int, a)
                        || in_tasks(tasks@, j as int, a)),
            decreases tasks.len() - j,
        {
            let actors = &tasks[j].actors;
            let mut k: usize = 0;
            while k < actors.len()
                invariant
                    i < sections.len(),
                    j < tasks.len(),
                    k <= actors.len(),
                    *tasks == sections@[i as int].tasks,
                    *actors == tasks@[j as int].actors,
                    strictly_sorted(names(seen@)),
                    forall|a: Seq<char>|
                        #[trigger] names(seen@).contains(a) <==> (in_sections(
                            sections@,
                            i as int,
                            a,
                        ) || in_tasks(tasks@, j as int, a) || in_actors(actors@, k as int, a)),
                decreases actors.len() - k,
            {
                insert_sorted(&mut seen, &actors[k]);
                proof {
                    assert forall|a: Seq<char>|
                        #[trigger] in_actors(actors@, k + 1, a) <==> (in_actors(actors@, k as int, a)
                            || a == actors@[k as int]@) by {
                        if a == actors@[k as int]@ {
                            assert(actors@[k as int]@ == a);
                        }
                    }
                }
                k = k + 1;
            }
            proof {
                assert forall|a: Seq<char>|
                    #[trigger] in_tasks(tasks@, j + 1, a) <==> (in_tasks(tasks@, j as int, a)
                        || in_actors(actors@, actors.len() as int, a)) by {
                    if in_actors(actors@, actors.len() as int, a) {
                        assert(in_actors(tasks@[j as int].actors@, tasks@[j as int].actors.len() as int, a));
                    }
                    if in_tasks(tasks@, j + 1, a) {
                        let jj = choose|jj: int|
                            0 <= jj < j + 1 && jj < tasks@.len() && in_actors(
                                #[trigger] tasks@[jj].actors@,
                                tasks@[jj].actors.len() as int,
                                a,
                            );
                        if jj < j {
                            assert(in_tasks(tasks@, j as int, a));
                        }
                    }
                }
            }
            j = j + 1;
        }
        proof {
            assert forall|a: Seq<char>|
                #[trigger] in_sections(sections@, i + 1, a) <==> (in_sections(sections@, i as int, a)
                    || in_tasks(tasks@, tasks.len() as int, a)) by {
                if in_tasks(tasks@, tasks.len() as int, a) {
                    assert(in_tasks(sections@[i as int].tasks@, sections@[i as int].tasks.len() as int, a));
                }
                if in_sections(sections@, i + 1, a) {
                    let si = choose|si: int|
                        0 <= si < i + 1 && si < sections@.len() && in_tasks(
                            #[trigger] sections@[si].tasks@,
                            sections@[si].tasks.len() as int,
                            a,
                        );
                    if si < i {
                        assert(in_sections(sections@, i as int, a));
                    }
                }
            }
        }
        i = i + 1;
    }
    proof {
        assert forall|a: Seq<char>| names(seen@).contains(a) <==> is_actor(sections@, a) by {
            lemma_is_actor(sections@, a);
        }
    }
    seen
}

} // verus!
