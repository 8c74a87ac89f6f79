//! The single owner of the codes accepted so far.
//!
//! Candidates arrive from any number of generators in any order. The arbiter
//! accepts a candidate only if it has not accepted it before and the target
//! count has not been reached; an accepted candidate is handed on to be
//! written, in the order of acceptance. A repeated candidate is dropped
//! silently.
use vstd::multiset::Multiset;
use vstd::prelude::*;

verus! {

/// The codes emitted when `stream` is offered, in this order, to an arbiter
/// with target `target`: each candidate is taken when it is new and fewer
/// than `target` codes have been taken.
pub open spec fn emitted(target: nat, stream: Seq<Seq<char>>) -> Seq<Seq<char>>
    decreases stream.len(),
{
    if stream.len() == 0 {
        Seq::empty()
    } else {
        let before = emitted(target, stream.drop_last());
        let c = stream.last();
        if before.len() < target && !before.contains(c) {
            before.push(c)
        } else {
            before
        }
    }
}

/// Decides, candidate by candidate, which codes are emitted.
pub struct Arbiter {
    total_codes: usize,
    existing_codes: Vec<String>,
    offered: Ghost<Seq<Seq<char>>>,
}

impl Arbiter {
    /// The number of codes to emit.
    pub closed spec fn target(&self) -> nat {
        self.total_codes as nat
    }

    /// The codes accepted so far, in the order of acceptance.
    pub closed spec fn accepted(&self) -> Seq<Seq<char>> {
        self.existing_codes@.map_values(|s: String| s@)
    }

    /// Every candidate offered so far, in the order of arrival.
    pub closed spec fn offered(&self) -> Seq<Seq<char>> {
        self.offered@
    }

    /// The accepted codes are exactly those that the offered stream emits.
    pub closed spec fn wf(&self) -> bool {
        self.accepted() == emitted(self.target(), self.offered())
    }

    /// An arbiter that has seen no candidate yet.
    pub fn new(total_codes: usize) -> (r: Arbiter)
        ensures
            r.wf(),
            r.target() == total_codes,
            r.offered() == Seq::<Seq<char>>::empty(),
            r.accepted() == Seq::<Seq<char>>::empty(),
    {
        let r = Arbiter { total_codes, existing_codes: Vec::new(), offered: Ghost(Seq::empty()) };
        assert(r.accepted() =~= Seq::<Seq<char>>::empty());
        r
    }

    /// The number of codes accepted so far.
    pub fn accepted_count(&self) -> (n: usize)
        ensures
            n == self.accepted().len(),
    {
        self.existing_codes.len()
    }

    /// Whether `code` has been accepted already.
    pub fn contains(&self, code: &String) -> (r: bool)
        ensures
            r == self.accepted().contains(code@),
    {
        let mut i: usize = 0;
        while i < self.existing_codes.len()
            invariant
                i <= self.existing_codes@.len(),
                forall|j: int| 0 <= j < i ==> self.accepted()[j] != code@,
            decreases self.existing_codes@.len() - i,
        {
            if self.existing_codes[i] == *code {
                assert(self.accepted()[i as int] == code@);
                return true;
            }
            i = i + 1;
        }
        false
    }

    /// Whether the target count has been reached: the run is then over.
    pub fn is_complete(&self) -> (r: bool)
        requires
            self.wf(),
        ensures
            r == (self.accepted().len() == self.target()),
    {
        proof {
            lemma_emitted_bounded(self.target(), self.offered());
        }
        self.existing_codes.len() >= self.total_codes
    }

    /// Takes one candidate. Returns the code to hand on for writing when the
    /// candidate is new and the target has not been reached yet; otherwise
    /// the candidate is dropped and nothing changes but the record of what
    /// was offered.
    pub fn offer(&mut self, code: String) -> (r: Option<String>)
        requires
            old(self).wf(),
        ensures
            final(self).wf(),
            final(self).target() == old(self).target(),
            final(self).offered() == old(self).offered().push(code@),
            if old(self).accepted().len() < old(self).target() && !old(self).accepted().contains(
                code@,
            ) {
                &&& final(self).accepted() == old(self).accepted().push(code@)
                &&& r == Some(code)
            } else {
                &&& final(self).accepted() == old(self).accepted()
                &&& r is None
            },
            old(self).accepted().len() < old(self).target() ==> final(self).accepted().contains(
                code@,
            ),
    {
        let ghost stream = self.offered@.push(code@);
        assert(stream.drop_last() =~= self.offered@);
        if self.existing_codes.len() < self.total_codes && !self.contains(&code) {
            let forwarded = code.clone();
            self.existing_codes.push(code);
            self.offered = Ghost(stream);
            assert(self.accepted() =~= old(self).accepted().push(forwarded@));
            assert(self.accepted()[old(self).accepted().len() as int] == code@);
            Some(forwarded)
        } else {
            self.offered = Ghost(stream);
            None
        }
    }
}

/// At most `target` codes are ever emitted.
pub proof fn lemma_emitted_bounded(target: nat, stream: Seq<Seq<char>>)
    ensures
        emitted(target, stream).len() <= target,
    decreases stream.len(),
{
    if stream.len() > 0 {
        lemma_emitted_bounded(target, stream.drop_last());
    }
}

/// What holds of the codes emitted from any stream: they are pairwise
/// distinct, each was offered, and until the target is reached every offered
/// candidate is among them.
proof fn lemma_emitted_facts(target: nat, stream: Seq<Seq<char>>)
    ensures
        emitted(target, stream).no_duplicates(),
        emitted(target, stream).len() <= target,
        forall|c: Seq<char>| #[trigger] emitted(target, stream).contains(c) ==> stream.contains(c),
        emitted(target, stream).len() < target ==> forall|c: Seq<char>|
            #[trigger] stream.contains(c) ==> emitted(target, stream).contains(c),
    decreases stream.len(),
{
    lemma_emitted_bounded(target, stream);
    if stream.len() > 0 {
        let rest = stream.drop_last();
        let c = stream.last();
        lemma_emitted_facts(target, rest);
        assert(stream =~= rest.push(c));
        let before = emitted(target, rest);
        assert forall|x: Seq<char>| #[trigger] emitted(target, stream).contains(x) implies stream.contains(x) by {
            if before.contains(x) {
                assert(rest.contains(x));
                let k = choose|k: int| 0 <= k < rest.len() && rest[k] == x;
                assert(stream[k] == x);
            } else {
                assert(stream[stream.len() - 1] == x);
            }
        }
        if emitted(target, stream).len() < target {
            assert(before.len() <= emitted(target, stream).len());
            assert forall|x: Seq<char>| #[trigger] stream.contains(x) implies emitted(target, stream).contains(x) by {
                let k = choose|k: int| 0 <= k < stream.len() && stream[k] == x;
                if k < stream.len() - 1 {
                    assert(rest[k] == x);
                    assert(rest.contains(x));
                    assert(before.contains(x));
                    if emitted(target, stream) != before {
                        assert(emitted(target, stream)[before.len() as int] == c);
                        let j = choose|j: int| 0 <= j < before.len() && before[j] == x;
                        assert(emitted(target, stream)[j] == x);
                    }
                } else {
                    if !before.contains(c) {
                        assert(emitted(target, stream)[before.len() as int] == c);
                    }
                }
            }
        }
    }
}

/// Every run emits pairwise distinct codes, each of them a candidate that was
/// offered, and as many as the target or as the distinct candidates offered,
/// whichever is fewer. So once the target is reached, exactly `target`
/// distinct codes have been emitted.
pub proof fn lemma_emitted_distinct_and_counted(target: nat, stream: Seq<Seq<char>>)
    ensures
        emitted(target, stream).no_duplicates(),
        forall|c: Seq<char>| #[trigger] emitted(target, stream).contains(c) ==> stream.contains(c),
        emitted(target, stream).len() == if stream.to_set().len() < target {
            stream.to_set().len()
        } else {
            target
        },
{
    lemma_emitted_facts(target, stream);
    let out = emitted(target, stream);
    out.unique_seq_to_set();
    vstd::seq_lib::seq_to_set_is_finite(stream);
    assert(out.to_set().subset_of(stream.to_set()));
    vstd::set_lib::lemma_len_subset(out.to_set(), stream.to_set());
    if out.len() < target {
        assert(out.to_set() =~= stream.to_set());
    }
}

/// A candidate that arrives right after the same candidate is dropped: the
/// emitted codes, and so their number, stay as they were.
pub proof fn lemma_repeat_is_dropped(target: nat, stream: Seq<Seq<char>>, code: Seq<char>)
    ensures
        emitted(target, stream.push(code).push(code)) == emitted(target, stream.push(code)),
{
    let once = stream.push(code);
    let twice = once.push(code);
    assert(twice.drop_last() =~= once);
    assert(once.drop_last() =~= stream);
    let before = emitted(target, stream);
    if before.len() < target && !before.contains(code) {
        assert(emitted(target, once)[before.len() as int] == code);
    }
}

/// With a target of zero nothing is ever emitted.
pub proof fn lemma_zero_target_emits_nothing(stream: Seq<Seq<char>>)
    ensures
        emitted(0, stream) == Seq::<Seq<char>>::empty(),
{
    lemma_emitted_bounded(0, stream);
    assert(emitted(0, stream) =~= Seq::<Seq<char>>::empty());
}

/// All candidates that the given generators produce, one sequence per
/// generator, counted with their repetitions.
pub open spec fn produced(workers: Seq<Seq<Seq<char>>>) -> Multiset<Seq<char>>
    decreases workers.len(),
{
    if workers.len() == 0 {
        Multiset::empty()
    } else {
        produced(workers.drop_last()).add(workers.last().to_multiset())
    }
}

/// `merged` is one order in which the arbiter may receive what `workers`
/// produce: every candidate of every generator, each once, in any order.
pub open spec fn is_interleaving(merged: Seq<Seq<char>>, workers: Seq<Seq<Seq<char>>>) -> bool {
    merged.to_multiset() == produced(workers)
}

/// Neither the number of generators nor the order in which their candidates
/// arrive changes the guarantees: two runs that receive the same candidates,
/// split over any numbers of generators and interleaved in any way, both emit
/// pairwise distinct codes, and the same number of them.
pub proof fn lemma_worker_count_irrelevant(
    target: nat,
    workers_a: Seq<Seq<Seq<char>>>,
    merged_a: Seq<Seq<char>>,
    workers_b: Seq<Seq<Seq<char>>>,
    merged_b: Seq<Seq<char>>,
)
    requires
        is_interleaving(merged_a, workers_a),
        is_interleaving(merged_b, workers_b),
        produced(workers_a) == produced(workers_b),
    ensures
        emitted(target, merged_a).no_duplicates(),
        emitted(target, merged_b).no_duplicates(),
        emitted(target, merged_a).len() == emitted(target, merged_b).len(),
{
    broadcast use vstd::seq_lib::group_to_multiset_ensures;

    lemma_emitted_distinct_and_counted(target, merged_a);
    lemma_emitted_distinct_and_counted(target, merged_b);
    assert(merged_a.to_set() =~= merged_b.to_set()) by {
        assert forall|c: Seq<char>| merged_a.to_set().contains(c) <==> merged_b.to_set().contains(c) by {
            assert(merged_a.contains(c) <==> merged_a.to_multiset().count(c) > 0);
            assert(merged_b.contains(c) <==> merged_b.to_multiset().count(c) > 0);
        }
    }
}

/// Once an arbiter has reached its target, it has accepted exactly `target`
/// codes, pairwise distinct, each of them a candidate that it was offered.
pub proof fn lemma_completed_run(a: Arbiter)
    requires
        a.wf(),
        a.accepted().len() == a.target(),
    ensures
        a.accepted().len() == a.target(),
        a.accepted().no_duplicates(),
        forall|c: Seq<char>| #[trigger] a.accepted().contains(c) ==> a.offered().contains(c),
{
    lemma_emitted_distinct_and_counted(a.target(), a.offered());
}

} // verus!
