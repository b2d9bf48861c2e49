//! The event stream of a laid-out sequence diagram, and the bookkeeping done
//! on it: which participants an event touches, which block frame closes
//! which, and the outline numbers of ZenUML calls.

use vstd::prelude::*;
use crate::sequence::{bump, dotted};

verus! {

/// The kind of a combined fragment.
#[derive(Clone, Copy, PartialEq, Eq, Debug, Structural)]
pub enum BlockKind {
    Alt,
    Par,
    Critical,
    Loop,
    Opt,
    Break,
}

/// One laid-out event, without its vertical position.
#[derive(Clone, Debug)]
pub enum EventKind {
    /// A message between two participants.
    Message { from: String, to: String },
    /// A note over or beside the listed participants.
    Note { participants: Vec<String> },
    Activate(String),
    Deactivate(String),
    /// A participant created mid-diagram.
    Create(String),
    /// A participant destroyed mid-diagram.
    Destroy(String),
    /// The start of a combined fragment, with its first branch label.
    BlockOpen { kind: BlockKind, label: String },
    /// A further branch of the open fragment.
    BlockBranch { label: String },
    BlockClose,
    /// The start of a `rect` background band.
    RectOpen { color: Option<String> },
    RectClose,
}

/// Abstract value of an [`EventKind`].
pub enum EventV {
    Message { from: Seq<char>, to: Seq<char> },
    Note { participants: Seq<Seq<char>> },
    Activate(Seq<char>),
    Deactivate(Seq<char>),
    Create(Seq<char>),
    Destroy(Seq<char>),
    BlockOpen { kind: BlockKind, label: Seq<char> },
    BlockBranch { label: Seq<char> },
    BlockClose,
    RectOpen { color: Option<Seq<char>> },
    RectClose,
}

pub open spec fn strings_view(v: Seq<String>) -> Seq<Seq<char>> {
    v.map_values(|s: String| s@)
}

impl View for EventKind {
    type V = EventV;

    open spec fn view(&self) -> EventV {
        match self {
            EventKind::Message { from, to } => EventV::Message { from: from@, to: to@ },
            EventKind::Note { participants } => EventV::Note {
                participants: strings_view(participants@),
            },
            EventKind::Activate(id) => EventV::Activate(id@),
            EventKind::Deactivate(id) => EventV::Deactivate(id@),
            EventKind::Create(id) => EventV::Create(id@),
            EventKind::Destroy(id) => EventV::Destroy(id@),
            EventKind::BlockOpen { kind, label } => EventV::BlockOpen { kind: *kind, label: label@ },
            EventKind::BlockBranch { label } => EventV::BlockBranch { label: label@ },
            EventKind::BlockClose => EventV::BlockClose,
            EventKind::RectOpen { color } => EventV::RectOpen {
                color: match color {
                    Some(c) => Some(c@),
                    None => None,
                },
            },
            EventKind::RectClose => EventV::RectClose,
        }
    }
}

pub open spec fn events_view(v: Seq<EventKind>) -> Seq<EventV> {
    v.map_values(|e: EventKind| e@)
}

/// The participants an event touches, in order.
pub open spec fn event_ids(e: EventV) -> Seq<Seq<char>> {
    match e {
        EventV::Message { from, to } => seq![from, to],
        EventV::Note { participants } => participants,
        EventV::Activate(id) => seq![id],
        EventV::Deactivate(id) => seq![id],
        EventV::Create(id) => seq![id],
        EventV::Destroy(id) => seq![id],
        _ => seq![],
    }
}

/// Append the participant ids an event touches to `out`.
pub fn collect_ids(kind: &EventKind, out: &mut Vec<String>)
    ensures
        strings_view(final(out)@) == strings_view(old(out)@) + event_ids(kind@),
{
    let ghost start = strings_view(out@);
    match kind {
        EventKind::Message { from, to } => {
            out.push(from.clone());
            out.push(to.clone());
            assert(strings_view(out@) =~= start + event_ids(kind@));
        },
        EventKind::Note { participants } => {
            let mut i: usize = 0;
            while i < participants.len()
                invariant
                    i <= participants.len(),
                    strings_view(out@) == start + strings_view(participants@).take(i as int),
                decreases participants.len() - i,
            {
                let ghost prev = out@;
                out.push(participants[i].clone());
                assert(strings_view(out@) =~= strings_view(prev).push(participants@[i as int]@));
                assert(strings_view(participants@).take(i + 1) =~= strings_view(participants@).take(
                    i as int,
                ).push(participants@[i as int]@));
                i = i + 1;
            }
            assert(strings_view(participants@).take(i as int) =~= strings_view(participants@));
        },
        EventKind::Activate(id) | EventKind::Deactivate(id) | EventKind::Create(id)
        | EventKind::Destroy(id) => {
            out.push(id.clone());
            assert(strings_view(out@) =~= start + event_ids(kind@));
        },
        _ => {
            assert(strings_view(out@) =~= start + event_ids(kind@));
        },
    }
}

/// Fragment pairing after the first `i` events: the stack of fragments still
/// open, and for each event the index of the close that matched it.
pub open spec fn pair_state(ev: Seq<EventV>, i: nat) -> (Seq<usize>, Seq<Option<usize>>)
    decreases i,
{
    if i == 0 {
        (seq![], Seq::new(ev.len(), |k: int| None))
    } else {
        let p = pair_state(ev, (i - 1) as nat);
        let k = i - 1;
        match ev[k] {
            EventV::BlockOpen { .. } => (p.0.push(k as usize), p.1),
            EventV::BlockClose => if p.0.len() > 0 {
                (p.0.drop_last(), p.1.update(p.0.last() as int, Some(k as usize)))
            } else {
                p
            },
            _ => p,
        }
    }
}

/// For each `BlockOpen`, the index of its matching `BlockClose`; `None`
/// everywhere else and for fragments never closed.
pub open spec fn pair_blocks_spec(ev: Seq<EventV>) -> Seq<Option<usize>> {
    pair_state(ev, ev.len()).1
}

/// What holds of the pairing state after `i` events.
pub open spec fn pair_inv(ev: Seq<EventV>, i: nat, st: (Seq<usize>, Seq<Option<usize>>)) -> bool {
    let stack = st.0;
    let close = st.1;
    &&& close.len() == ev.len()
    &&& forall|t: int|
        0 <= t < stack.len() ==> {
            &&& #[trigger] stack[t] < i
            &&& ev[stack[t] as int] is BlockOpen
            &&& close[stack[t] as int] is None
        }
    &&& forall|t1: int, t2: int| 0 <= t1 < t2 < stack.len() ==> stack[t1] < stack[t2]
    &&& forall|a: int|
        0 <= a < ev.len() && #[trigger] close[a] is Some ==> {
            &&& a < close[a]->0 < i
            &&& ev[a] is BlockOpen
            &&& ev[close[a]->0 as int] is BlockClose
        }
    &&& forall|a: int|
        0 <= a < i && #[trigger] ev[a] is BlockOpen ==> close[a] is Some || exists|t: int|
            0 <= t < stack.len() && stack[t] == a
    &&& forall|a1: int, a2: int|
        0 <= a1 < a2 < ev.len() && #[trigger] close[a1] is Some && a2 < close[a1]->0 && #[trigger] ev[a2] is BlockOpen
            ==> close[a2] is Some && close[a2]->0 < close[a1]->0
}

proof fn lemma_pair_inv(ev: Seq<EventV>, i: nat)
    requires
        i <= ev.len(),
        ev.len() <= usize::MAX,
    ensures
        pair_inv(ev, i, pair_state(ev, i)),
    decreases i,
{
    if i > 0 {
        lemma_pair_inv(ev, (i - 1) as nat);
        let p = pair_state(ev, (i - 1) as nat);
        let k = i - 1;
        let st = pair_state(ev, i);
        match ev[k] {
            EventV::BlockOpen { .. } => {
                assert forall|a: int|
                    0 <= a < i && #[trigger] ev[a] is BlockOpen implies st.1[a] is Some || exists|t: int|
                    0 <= t < st.0.len() && st.0[t] == a by {
                    if a == k {
                        assert(st.0[st.0.len() - 1] == a);
                    } else if st.1[a] is None {
                        let t = choose|t: int| 0 <= t < p.0.len() && p.0[t] == a;
                        assert(st.0[t] == a);
                    }
                }
            },
            EventV::BlockClose => {
                if p.0.len() > 0 {
                    let s = p.0.last() as int;
                    assert forall|a: int|
                        0 <= a < i && #[trigger] ev[a] is BlockOpen implies st.1[a] is Some || exists|
                        t: int,
                    | 0 <= t < st.0.len() && st.0[t] == a by {
                        if a != s && st.1[a] is None {
                            let t = choose|t: int| 0 <= t < p.0.len() && p.0[t] == a;
                            if t == p.0.len() - 1 {
                                assert(false);
                            }
                            assert(st.0[t] == a);
                        }
                    }
                    assert forall|a1: int, a2: int|
                        0 <= a1 < a2 < ev.len() && #[trigger] st.1[a1] is Some && a2 < st.1[a1]->0
                            && #[trigger] ev[a2] is BlockOpen implies st.1[a2] is Some && st.1[a2]->0
                        < st.1[a1]->0 by {
                        if a1 == s {
                            if p.1[a2] is None {
                                let t = choose|t: int| 0 <= t < p.0.len() && p.0[t] == a2;
                                if t < p.0.len() - 1 {
                                    assert(p.0[t] < p.0[p.0.len() - 1]);
                                }
                            }
                        } else if a2 == s {
                            assert(p.1[a1] is Some);
                            assert(p.1[s] is None);
                        }
                    }
                }
            },
            _ => {},
        }
    }
}

/// Matched fragments open before they close, and a match pairs a
/// `BlockOpen` with a `BlockClose`.
pub proof fn law_block_pairs_match(ev: Seq<EventV>, a: int)
    requires
        ev.len() <= usize::MAX,
        0 <= a < ev.len(),
        pair_blocks_spec(ev)[a] is Some,
    ensures
        a < pair_blocks_spec(ev)[a]->0 < ev.len(),
        ev[a] is BlockOpen,
        ev[pair_blocks_spec(ev)[a]->0 as int] is BlockClose,
{
    lemma_pair_inv(ev, ev.len());
}

/// Fragments nest: a fragment opened inside a matched pair is closed before
/// that pair closes.
pub proof fn law_block_pairs_nest(ev: Seq<EventV>, a1: int, a2: int)
    requires
        ev.len() <= usize::MAX,
        0 <= a1 < a2 < ev.len(),
        pair_blocks_spec(ev)[a1] is Some,
        a2 < pair_blocks_spec(ev)[a1]->0,
        ev[a2] is BlockOpen,
    ensures
        pair_blocks_spec(ev)[a2] is Some,
        pair_blocks_spec(ev)[a2]->0 < pair_blocks_spec(ev)[a1]->0,
{
    lemma_pair_inv(ev, ev.len());
}

/// Match each `BlockOpen` to its `BlockClose` (fragments nest, so a stack
/// pairs them); the result holds, per event, the index of its close.
pub fn pair_blocks(events: &[EventKind]) -> (r: Vec<Option<usize>>)
    ensures
        r@ == pair_blocks_spec(events_view(events@)),
{
    let ghost ev = events_view(events@);
    let mut out: Vec<Option<usize>> = Vec::new();
    let mut k: usize = 0;
    while k < events.len()
        invariant
            k <= events.len(),
            out@ == Seq::new(k as nat, |j: int| None::<usize>),
        decreases events.len() - k,
    {
        out.push(None);
        k = k + 1;
        assert(out@ =~= Seq::new(k as nat, |j: int| None::<usize>));
    }
    let mut stack: Vec<usize> = Vec::new();
    let mut i: usize = 0;
    assert(out@ =~= pair_state(ev, 0).1);
    while i < events.len()
        invariant
            i <= events.len(),
            ev == events_view(events@),
            (stack@, out@) == pair_state(ev, i as nat),
        decreases events.len() - i,
    {
        proof {
            lemma_pair_inv(ev, i as nat);
        }
        assert(ev[i as int] == events@[i as int]@);
        match &events[i] {
            EventKind::BlockOpen { .. } => {
                stack.push(i);
            },
            EventKind::BlockClose => {
                if stack.len() > 0 {
                    let open = stack.pop().unwrap();
                    out.set(open, Some(i));
                }
            },
            _ => {},
        }
        i = i + 1;
    }
    out
}

/// The innermost counter advanced by one.
pub open spec fn bump_spec(stack: Seq<u32>) -> Seq<u32> {
    if stack.len() > 0 {
        stack.update(stack.len() - 1, (stack.last() + 1) as u32)
    } else {
        stack
    }
}

/// Numbering state: the counter stack, and the number given to each event.
pub type NumberState = (Seq<u32>, Seq<Option<Seq<char>>>);

/// Event `i` applied to the numbering state.
pub open spec fn number_step(ev: Seq<EventV>, i: int, st: NumberState) -> NumberState {
    let stack = st.0;
    let out = st.1;
    match ev[i] {
        EventV::Message { .. } => if out[i] is Some {
            st
        } else {
            let s2 = bump_spec(stack);
            (s2, out.update(i, Some(dotted(s2))))
        },
        EventV::Activate(_) => (stack.push(0), out),
        EventV::BlockOpen { .. } => (bump_spec(stack).push(0), out),
        EventV::Deactivate(id) => if stack.len() > 1 {
            let replied = i + 1 < ev.len() && (ev[i + 1] matches EventV::Message { from, .. } && from
                == id);
            if replied {
                let s2 = bump_spec(stack);
                (s2.drop_last(), out.update(i + 1, Some(dotted(s2))))
            } else {
                (stack.drop_last(), out)
            }
        } else {
            st
        },
        EventV::BlockClose => if stack.len() > 1 {
            (stack.drop_last(), out)
        } else {
            st
        },
        _ => st,
    }
}

/// The numbering state after the first `i` events.
pub open spec fn number_state(ev: Seq<EventV>, i: nat) -> NumberState
    decreases i,
{
    if i == 0 {
        (seq![0u32], Seq::new(ev.len(), |k: int| None::<Seq<char>>))
    } else {
        number_step(ev, i - 1, number_state(ev, (i - 1) as nat))
    }
}

/// The outline number of every message, indexed by event.
pub open spec fn number_calls_spec(ev: Seq<EventV>) -> Seq<Option<Seq<char>>> {
    number_state(ev, ev.len()).1
}

pub open spec fn numbers_view(v: Seq<Option<String>>) -> Seq<Option<Seq<char>>> {
    v.map_values(
        |o: Option<String>|
            match o {
                Some(s) => Some(s@),
                None => None,
            },
    )
}

proof fn lemma_number_bounds(ev: Seq<EventV>, i: nat)
    requires
        i <= ev.len(),
    ensures
        number_state(ev, i).0.len() >= 1,
        number_state(ev, i).1.len() == ev.len(),
        forall|t: int|
            0 <= t < number_state(ev, i).0.len() ==> #[trigger] number_state(ev, i).0[t] <= i,
    decreases i,
{
    if i > 0 {
        lemma_number_bounds(ev, (i - 1) as nat);
    }
}

/// Outline numbers for ZenUML calls: each message advances the counter of
/// the current level; an activation opens a child level; a fragment counts
/// as a step and opens its own level. A call's reply, the message right
/// after the callee's deactivation that comes from the callee, is numbered
/// as the last child of the call before the level closes.
pub fn number_calls(events: &[EventKind]) -> (r: Vec<Option<String>>)
    requires
        events.len() < u32::MAX,
    ensures
        numbers_view(r@) == number_calls_spec(events_view(events@)),
{
    let ghost ev = events_view(events@);
    let mut out: Vec<Option<String>> = Vec::new();
    let mut k: usize = 0;
    while k < events.len()
        invariant
            k <= events.len(),
            numbers_view(out@) == Seq::new(k as nat, |j: int| None::<Seq<char>>),
        decreases events.len() - k,
    {
        let ghost prev = out@;
        out.push(None);
        assert(numbers_view(out@) =~= numbers_view(prev).push(None));
        k = k + 1;
        assert(numbers_view(out@) =~= Seq::new(k as nat, |j: int| None::<Seq<char>>));
    }
    let mut stack: Vec<u32> = Vec::new();
    stack.push(0);
    let mut i: usize = 0;
    assert(stack@ =~= seq![0u32]);
    while i < events.len()
        invariant
            i <= events.len(),
            events.len() < u32::MAX,
            ev == events_view(events@),
            (stack@, numbers_view(out@)) == number_state(ev, i as nat),
            out.len() == events.len(),
        decreases events.len() - i,
    {
        proof {
            lemma_number_bounds(ev, i as nat);
        }
        let ghost st = number_state(ev, i as nat);
        assert(ev[i as int] == events@[i as int]@);
        assert(stack@.last() == stack@[stack@.len() - 1]);
        match &events[i] {
            EventKind::Message { .. } => {
                if out[i].is_none() {
                    let n = bump(&mut stack);
                    out.set(i, Some(n));
                    assert(numbers_view(out@) =~= st.1.update(i as int, Some(n@)));
                } else {
                    assert(numbers_view(out@)[i as int] is Some);
                }
            },
            EventKind::Activate(_) => {
                stack.push(0);
            },
            EventKind::BlockOpen { .. } => {
                bump(&mut stack);
                stack.push(0);
            },
            EventKind::Deactivate(id) => {
                if stack.len() > 1 {
                    let mut replied = false;
                    if i + 1 < events.len() {
                        assert(ev[i + 1] == events@[i + 1]@);
                        match &events[i + 1] {
                            EventKind::Message { from, .. } => {
                                replied = *from == *id;
                            },
                            _ => {},
                        }
                    }
                    if replied {
                        let n = bump(&mut stack);
                        out.set(i + 1, Some(n));
                        assert(numbers_view(out@) =~= st.1.update(i + 1, Some(n@)));
                    }
                    stack.pop();
                }
            },
            EventKind::BlockClose => {
                if stack.len() > 1 {
                    stack.pop();
                }
            },
            _ => {},
        }
        i = i + 1;
    }
    out
}

proof fn lemma_numbered_messages(ev: Seq<EventV>, i: nat)
    requires
        i <= ev.len(),
    ensures
        number_state(ev, i).1.len() == ev.len(),
        forall|a: int|
            0 <= a < ev.len() && #[trigger] number_state(ev, i).1[a] is Some ==> ev[a] is Message && a
                <= i,
        forall|a: int| 0 <= a < i && #[trigger] ev[a] is Message ==> number_state(ev, i).1[a] is Some,
    decreases i,
{
    if i > 0 {
        lemma_numbered_messages(ev, (i - 1) as nat);
    }
}

/// Exactly the messages get an outline number.
pub proof fn law_every_message_numbered(ev: Seq<EventV>, a: int)
    requires
        0 <= a < ev.len(),
    ensures
        number_calls_spec(ev)[a] is Some <==> ev[a] is Message,
{
    lemma_numbered_messages(ev, ev.len());
}

} // verus!
