use rand::seq::SliceRandom;
use vstd::prelude::*;

use crate::geometry::{all_kinds, PieceKind};

verus! {

broadcast use vstd::seq_lib::group_to_multiset_ensures;

/// Each kind exactly once, in some order.
pub open spec fn is_bag(s: Seq<PieceKind>) -> bool {
    s.to_multiset() == all_kinds().to_multiset()
}

/// `after` is what is left to draw once `k` was drawn from `before`: the last
/// pending kind, or, with nothing pending, the last of a fresh bag.
pub open spec fn drawn(before: Seq<PieceKind>, after: Seq<PieceKind>, k: PieceKind) -> bool {
    if before.len() > 0 {
        k == before.last() && after == before.drop_last()
    } else {
        is_bag(after.push(k))
    }
}

/// `k` is the kind that the next draw gives; the pending kinds stay as they
/// were, or are a fresh bag when none was pending.
pub open spec fn peeked(before: Seq<PieceKind>, after: Seq<PieceKind>, k: PieceKind) -> bool {
    if before.len() > 0 {
        after == before && k == before.last()
    } else {
        is_bag(after) && k == after.last()
    }
}

/// Relies on rand's `SliceRandom::shuffle`, driven by `rand::thread_rng`: it
/// only swaps elements, so what it leaves is a permutation of what it got.
#[verifier::external_body]
fn shuffle_kinds(pool: &mut Vec<PieceKind>)
    ensures
        final(pool)@.to_multiset() == old(pool)@.to_multiset(),
{
    pool.shuffle(&mut rand::thread_rng());
}

proof fn lemma_all_kinds_once()
    ensures
        all_kinds().len() == 7,
        all_kinds().no_duplicates(),
        forall|k: PieceKind| #[trigger] all_kinds().to_multiset().count(k) == 1,
{
    let a = all_kinds();
    assert(a.no_duplicates()) by {
        assert forall|i: int, j: int| 0 <= i < a.len() && 0 <= j < a.len() && i != j implies a[i]
            != a[j] by {}
    }
    a.lemma_multiset_has_no_duplicates();
    assert forall|k: PieceKind| #[trigger] a.to_multiset().count(k) == 1 by {
        let i: int = match k {
            PieceKind::I => 0,
            PieceKind::O => 1,
            PieceKind::T => 2,
            PieceKind::S => 3,
            PieceKind::Z => 4,
            PieceKind::J => 5,
            PieceKind::L => 6,
        };
        assert(a[i] == k);
        assert(a.contains(k));
    }
}

/// A bag holds seven distinct kinds, so every kind.
pub proof fn lemma_bag_facts(b: Seq<PieceKind>)
    requires
        is_bag(b),
    ensures
        b.len() == 7,
        b.no_duplicates(),
        forall|k: PieceKind| #[trigger] b.to_multiset().count(k) == 1,
{
    lemma_all_kinds_once();
    assert(b.len() == b.to_multiset().len());
    assert(all_kinds().len() == all_kinds().to_multiset().len());
    b.lemma_multiset_has_no_duplicates_conv();
}

/// The bag randomiser: the seven kinds in a shuffled order, dealt one by one
/// from the end, with a fresh shuffle whenever the bag runs out.
pub struct PieceGenerator {
    pending: Vec<PieceKind>,
}

impl View for PieceGenerator {
    type V = Seq<PieceKind>;

    closed spec fn view(&self) -> Seq<PieceKind> {
        self.pending@
    }
}

impl PieceGenerator {
    pub open spec fn wf(&self) -> bool {
        &&& self@.no_duplicates()
        &&& self@.len() <= 7
    }

    /// A generator that starts on a fresh bag.
    pub fn new() -> (r: Self)
        ensures
            r.wf(),
            r@.len() == 0,
    {
        PieceGenerator { pending: Vec::new() }
    }

    fn ensure_pending_is_not_empty(&mut self)
        requires
            old(self).wf(),
        ensures
            final(self).wf(),
            final(self)@.len() > 0,
            old(self)@.len() > 0 ==> final(self)@ == old(self)@,
            old(self)@.len() == 0 ==> is_bag(final(self)@),
    {
        if self.pending.len() > 0 {
            return;
        }
        let mut pool: Vec<PieceKind> = vec![
            PieceKind::I,
            PieceKind::O,
            PieceKind::T,
            PieceKind::S,
            PieceKind::Z,
            PieceKind::J,
            PieceKind::L,
        ];
        assert(pool@ =~= all_kinds());
        shuffle_kinds(&mut pool);
        proof {
            lemma_bag_facts(pool@);
        }
        self.pending = pool;
    }

    /// Draws the next kind.
    pub fn next(&mut self) -> (r: PieceKind)
        requires
            old(self).wf(),
        ensures
            final(self).wf(),
            drawn(old(self)@, final(self)@, r),
    {
        self.ensure_pending_is_not_empty();
        let ghost full = self@;
        match self.pending.pop() {
            Some(k) => {
                assert(self@ =~= full.drop_last());
                assert(full.drop_last().push(k) =~= full);
                k
            },
            None => PieceKind::I,
        }
    }

    /// The kind that the next draw gives, without drawing it.
    pub fn peek(&mut self) -> (r: PieceKind)
        requires
            old(self).wf(),
        ensures
            final(self).wf(),
            peeked(old(self)@, final(self)@, r),
    {
        self.ensure_pending_is_not_empty();
        let n = self.pending.len();
        self.pending[n - 1]
    }
}

/// Seven draws in a row from the start of a bag give each kind exactly once.
pub proof fn lemma_seven_draws_are_a_bag(states: Seq<Seq<PieceKind>>, draws: Seq<PieceKind>)
    requires
        states.len() == 8,
        draws.len() == 7,
        states[0].len() == 0,
        forall|i: int| 0 <= i < 7 ==> drawn(#[trigger] states[i], states[i + 1], draws[i]),
    ensures
        is_bag(draws),
        forall|k: PieceKind| #[trigger] draws.to_multiset().count(k) == 1,
{
    let b = states[1].push(draws[0]);
    assert(drawn(states[0], states[1], draws[0]));
    lemma_bag_facts(b);
    lemma_draws_follow_bag(states, draws, b, 7);
    assert(draws =~= b.reverse()) by {
        assert forall|i: int| 0 <= i < 7 implies draws[i] == b.reverse()[i] by {
            if i > 0 {
                assert(drawn(states[i], states[i + 1], draws[i]));
                assert(states[i] == b.take(7 - i));
            }
        }
    }
    b.lemma_reverse_to_multiset();
    lemma_bag_facts(draws);
}

proof fn lemma_draws_follow_bag(
    states: Seq<Seq<PieceKind>>,
    draws: Seq<PieceKind>,
    b: Seq<PieceKind>,
    i: int,
)
    requires
        states.len() == 8,
        draws.len() == 7,
        b.len() == 7,
        b == states[1].push(draws[0]),
        1 <= i <= 7,
        forall|j: int| 0 <= j < 7 ==> drawn(#[trigger] states[j], states[j + 1], draws[j]),
    ensures
        forall|j: int| 1 <= j <= i ==> #[trigger] states[j] == b.take(7 - j),
    decreases i,
{
    if i == 1 {
        assert(states[1] =~= b.take(6));
    } else {
        lemma_draws_follow_bag(states, draws, b, i - 1);
        assert(drawn(states[i - 1], states[i], draws[i - 1]));
        assert(states[i - 1] == b.take(8 - i));
        assert(states[i] =~= b.take(7 - i));
    }
}

/// One call on the generator: a draw (`true`) or a peek (`false`), with the
/// kind it returned.
pub open spec fn dealt(before: Seq<PieceKind>, after: Seq<PieceKind>, op: (bool, PieceKind)) -> bool {
    if op.0 {
        drawn(before, after, op.1)
    } else {
        peeked(before, after, op.1)
    }
}

/// The kinds that the draws among `ops` returned, in order.
pub open spec fn draws_of(ops: Seq<(bool, PieceKind)>) -> Seq<PieceKind>
    decreases ops.len(),
{
    if ops.len() == 0 {
        Seq::empty()
    } else if ops[0].0 {
        seq![ops[0].1] + draws_of(ops.drop_first())
    } else {
        draws_of(ops.drop_first())
    }
}

/// A peek followed by another call does what that call alone would have done.
proof fn lemma_peek_absorbed(
    s0: Seq<PieceKind>,
    s1: Seq<PieceKind>,
    s2: Seq<PieceKind>,
    seen: PieceKind,
    op: (bool, PieceKind),
)
    requires
        peeked(s0, s1, seen),
        dealt(s1, s2, op),
    ensures
        dealt(s0, s2, op),
{
    if s0.len() == 0 {
        lemma_bag_facts(s1);
        if op.0 {
            assert(s2.push(op.1) =~= s1);
        }
    }
}

/// Calls that end on a draw reach the same state through their draws alone.
proof fn lemma_draws_alone(states: Seq<Seq<PieceKind>>, ops: Seq<(bool, PieceKind)>) -> (ds: Seq<Seq<PieceKind>>)
    requires
        states.len() == ops.len() + 1,
        ops.len() == 0 || ops.last().0,
        forall|i: int| 0 <= i < ops.len() ==> dealt(#[trigger] states[i], states[i + 1], ops[i]),
    ensures
        ds.len() == draws_of(ops).len() + 1,
        ds[0] == states[0],
        ds.last() == states.last(),
        forall|j: int| 0 <= j < draws_of(ops).len() ==> drawn(#[trigger] ds[j], ds[j + 1], draws_of(ops)[j]),
    decreases ops.len(),
{
    if ops.len() == 0 {
        seq![states[0]]
    } else if ops[0].0 {
        let rest = lemma_draws_alone(states.drop_first(), ops.drop_first());
        assert forall|i: int| 0 <= i < ops.len() - 1 implies dealt(
            #[trigger] states.drop_first()[i],
            states.drop_first()[i + 1],
            ops.drop_first()[i],
        ) by {
            assert(dealt(states[i + 1], states[i + 2], ops[i + 1]));
        }
        let ds = seq![states[0]] + rest;
        assert(dealt(states[0], states[1], ops[0]));
        assert forall|j: int| 0 <= j < draws_of(ops).len() implies drawn(
            #[trigger] ds[j],
            ds[j + 1],
            draws_of(ops)[j],
        ) by {
            if j > 0 {
                assert(ds[j] == rest[j - 1]);
                assert(ds[j + 1] == rest[j]);
            }
        }
        ds
    } else {
        assert(dealt(states[0], states[1], ops[0]));
        assert(dealt(states[1], states[2], ops[1]));
        lemma_peek_absorbed(states[0], states[1], states[2], ops[0].1, ops[1]);
        let st = seq![states[0]] + states.subrange(2, states.len() as int);
        let o = ops.drop_first();
        assert forall|i: int| 0 <= i < o.len() implies dealt(#[trigger] st[i], st[i + 1], o[i]) by {
            if i > 0 {
                assert(dealt(states[i + 1], states[i + 2], ops[i + 1]));
            }
        }
        assert(st.last() == states.last());
        lemma_draws_alone(st, o)
    }
}

/// Seven draws in a row from the start of a bag, with any peeks between
/// them, give each kind exactly once.
pub proof fn lemma_seven_draws_with_peeks_are_a_bag(states: Seq<Seq<PieceKind>>, ops: Seq<(bool, PieceKind)>)
    requires
        states.len() == ops.len() + 1,
        states[0].len() == 0,
        ops.len() > 0 && ops.last().0,
        draws_of(ops).len() == 7,
        forall|i: int| 0 <= i < ops.len() ==> dealt(#[trigger] states[i], states[i + 1], ops[i]),
    ensures
        is_bag(draws_of(ops)),
        forall|k: PieceKind| #[trigger] draws_of(ops).to_multiset().count(k) == 1,
{
    let ds = lemma_draws_alone(states, ops);
    lemma_seven_draws_are_a_bag(ds, draws_of(ops));
}

/// A peek leaves the pending kinds in place: the draw after it gives the
/// kind that it showed.
pub proof fn lemma_peek_then_draw(
    s0: Seq<PieceKind>,
    s1: Seq<PieceKind>,
    s2: Seq<PieceKind>,
    seen: PieceKind,
    got: PieceKind,
)
    requires
        peeked(s0, s1, seen),
        drawn(s1, s2, got),
    ensures
        got == seen,
        s0.len() > 0 ==> s1 == s0,
        s2 == s1.drop_last(),
{
    if s0.len() == 0 {
        lemma_bag_facts(s1);
    }
}

} // verus!
