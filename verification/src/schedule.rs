//! Running a list of requests with a bound on how many are under way, and putting the answers
//! back in the order of the list.
use vstd::prelude::*;

use crate::model::{ErrorView, RepoError, RepoResult, RepoStatus, ResultView, StatusView};
use crate::text::{texts, views};

verus! {

/// The most requests that are under way at one time.
pub const MAX_IN_FLIGHT: usize = 4;

/// Which of `total` requests are under way: they start in order, each once, and no more than
/// `MAX_IN_FLIGHT` of them are under way at one time.
#[derive(Debug)]
pub struct Window {
    total: usize,
    next: usize,
    in_flight: usize,
}

impl Window {
    /// How many requests there are.
    pub closed spec fn total(&self) -> nat {
        self.total as nat
    }

    /// How many requests were started: those at the positions below this number.
    pub closed spec fn started(&self) -> nat {
        self.next as nat
    }

    /// How many requests are under way.
    pub closed spec fn in_flight(&self) -> nat {
        self.in_flight as nat
    }

    /// Whether the bound is kept.
    pub open spec fn wf(&self) -> bool {
        &&& self.in_flight() <= self.started() <= self.total()
        &&& self.in_flight() <= MAX_IN_FLIGHT
        &&& self.total() <= usize::MAX
    }

    /// Nothing started yet.
    pub fn new(total: usize) -> (res: Self)
        ensures
            res.wf(),
            res.total() == total,
            res.started() == 0,
            res.in_flight() == 0,
    {
        Window { total, next: 0, in_flight: 0 }
    }

    /// Starts the next request, where one is left and the bound allows it. The result is its
    /// position.
    pub fn start(&mut self) -> (res: Option<usize>)
        requires
            old(self).wf(),
        ensures
            final(self).wf(),
            final(self).total() == old(self).total(),
            match res {
                Some(i) => {
                    &&& i == old(self).started()
                    &&& i < old(self).total()
                    &&& final(self).started() == old(self).started() + 1
                    &&& final(self).in_flight() == old(self).in_flight() + 1
                },
                None => {
                    &&& old(self).started() == old(self).total() || old(self).in_flight()
                        == MAX_IN_FLIGHT
                    &&& *final(self) == *old(self)
                },
            },
    {
        if self.next < self.total && self.in_flight < MAX_IN_FLIGHT {
            let i = self.next;
            self.next = self.next + 1;
            self.in_flight = self.in_flight + 1;
            Some(i)
        } else {
            None
        }
    }

    /// One of the requests under way was answered.
    pub fn finish_one(&mut self)
        requires
            old(self).wf(),
            old(self).in_flight() > 0,
        ensures
            final(self).wf(),
            final(self).total() == old(self).total(),
            final(self).started() == old(self).started(),
            final(self).in_flight() == old(self).in_flight() - 1,
    {
        self.in_flight = self.in_flight - 1;
    }

    /// Whether no request is under way.
    pub fn is_idle(&self) -> (res: bool)
        ensures
            res == (self.in_flight() == 0),
    {
        self.in_flight == 0
    }
}

/// What is known so far of each repository of a list.
pub open spec fn slot_views(slots: Seq<Option<RepoResult>>) -> Seq<Option<ResultView>> {
    slots.map_values(|slot: Option<RepoResult>| slot_view(slot))
}

/// What one slot says.
pub open spec fn slot_view(slot: Option<RepoResult>) -> Option<ResultView> {
    match slot {
        Some(result) => Some(result@),
        None => None,
    }
}

/// The result of a repository whose answer did not come in time.
pub open spec fn timeout_view(repo: Seq<char>) -> ResultView {
    ResultView { repo, status: StatusView::Error(ErrorView::Timeout), upstream: None }
}

/// The result of a repository whose answer did not come in time.
pub fn timeout_result(repo: String) -> (res: RepoResult)
    ensures
        res@ == timeout_view(repo@),
{
    RepoResult::new(repo, RepoStatus::Error(RepoError::Timeout))
}

/// One result for each of `repos`, in their order: what its slot holds, else a timeout.
pub open spec fn filled(slots: Seq<Option<ResultView>>, repos: Seq<Seq<char>>) -> Seq<ResultView> {
    Seq::new(
        repos.len(),
        |i: int|
            match slots[i] {
                Some(result) => result,
                None => timeout_view(repos[i]),
            },
    )
}

/// `n` slots that hold nothing.
pub fn empty_slots(n: usize) -> (res: Vec<Option<RepoResult>>)
    ensures
        slot_views(res@) == Seq::new(n as nat, |i: int| None::<ResultView>),
{
    let mut res: Vec<Option<RepoResult>> = Vec::new();
    let mut i: usize = 0;
    while i < n
        invariant
            i <= n,
            res@.len() == i,
            forall|k: int| 0 <= k < i ==> (#[trigger] res@[k]) is None,
        decreases n - i,
    {
        res.push(None);
        i = i + 1;
    }
    assert(slot_views(res@) =~= Seq::new(n as nat, |i: int| None::<ResultView>));
    res
}

/// One result for each of `repos`, in their order: what its slot holds, else a timeout.
pub fn fill(slots: Vec<Option<RepoResult>>, repos: &Vec<String>) -> (res: Vec<RepoResult>)
    requires
        slots@.len() == repos@.len(),
    ensures
        views(res@) == filled(slot_views(slots@), texts(repos@)),
{
    let mut slots = slots;
    let ghost all = slot_views(slots@);
    let mut res: Vec<RepoResult> = Vec::new();
    let mut i: usize = 0;
    while i < repos.len()
        invariant
            i <= repos.len(),
            slots@.len() == repos@.len(),
            all.len() == repos@.len(),
            res@.len() == i,
            forall|k: int| i <= k < slots@.len() ==> slot_view(#[trigger] slots@[k]) == all[k],
            forall|k: int|
                0 <= k < i ==> (#[trigger] res@[k])@ == filled(all, texts(repos@))[k],
        decreases repos.len() - i,
    {
        match slots[i].take() {
            Some(result) => res.push(result),
            None => res.push(timeout_result(repos[i].clone())),
        }
        i = i + 1;
    }
    assert(views(res@) =~= filled(all, texts(repos@)));
    res
}

/// Whether each slot that holds a result holds one of its own repository.
pub open spec fn well_named(slots: Seq<Option<ResultView>>, repos: Seq<Seq<char>>) -> bool {
    &&& slots.len() == repos.len()
    &&& forall|i: int|
        0 <= i < slots.len() ==> ((#[trigger] slots[i]) matches Some(r) ==> r.repo == repos[i])
}

/// Where each slot holds a result of its own repository, the results carry the names of the list,
/// in its order.
pub proof fn results_follow_the_list(slots: Seq<Option<ResultView>>, repos: Seq<Seq<char>>)
    requires
        well_named(slots, repos),
    ensures
        filled(slots, repos).len() == repos.len(),
        forall|i: int|
            0 <= i < repos.len() ==> (#[trigger] filled(slots, repos)[i]).repo == repos[i],
{
}

/// What `slots` hold once the answers `done` have come in, one after the other: each answer goes
/// to the slot that it names.
pub open spec fn settled(
    slots: Seq<Option<ResultView>>,
    done: Seq<(usize, ResultView)>,
) -> Seq<Option<ResultView>>
    decreases done.len(),
{
    if done.len() == 0 {
        slots
    } else {
        settled(slots, done.drop_last()).update(done.last().0 as int, Some(done.last().1))
    }
}

/// Answers that carry the names of the repositories whose slots they go to leave each slot to its
/// own repository.
pub proof fn settling_keeps_names(
    slots: Seq<Option<ResultView>>,
    done: Seq<(usize, ResultView)>,
    repos: Seq<Seq<char>>,
)
    requires
        well_named(slots, repos),
        forall|k: int|
            0 <= k < done.len() ==> (#[trigger] done[k]).0 < repos.len() && done[k].1.repo
                == repos[done[k].0 as int],
    ensures
        well_named(settled(slots, done), repos),
    decreases done.len(),
{
    if done.len() > 0 {
        let t = done.drop_last();
        assert forall|k: int| 0 <= k < t.len() implies (#[trigger] t[k]).0 < repos.len()
            && t[k].1.repo == repos[t[k].0 as int] by {
            assert(t[k] == done[k]);
        }
        settling_keeps_names(slots, t, repos);
        assert(done.last() == done[done.len() - 1]);
    }
}

/// Whether the answers go to slots of their own among `n`.
pub open spec fn apart(n: nat, done: Seq<(usize, ResultView)>) -> bool {
    &&& forall|i: int| 0 <= i < done.len() ==> (#[trigger] done[i]).0 < n
    &&& forall|i: int, j: int|
        #![trigger done[i], done[j]]
        0 <= i < j < done.len() ==> done[i].0 != done[j].0
}

/// Each answer stands in its slot, and the other slots hold what they held.
pub proof fn answers_stand_in_their_slots(
    slots: Seq<Option<ResultView>>,
    done: Seq<(usize, ResultView)>,
)
    requires
        apart(slots.len(), done),
    ensures
        settled(slots, done).len() == slots.len(),
        forall|k: int|
            0 <= k < done.len() ==> settled(slots, done)[(#[trigger] done[k]).0 as int] == Some(
                done[k].1,
            ),
        forall|i: int|
            0 <= i < slots.len() && (forall|k: int|
                0 <= k < done.len() ==> (#[trigger] done[k]).0 != i) ==> #[trigger] settled(
                slots,
                done,
            )[i] == slots[i],
    decreases done.len(),
{
    if done.len() > 0 {
        let t = done.drop_last();
        assert forall|i: int| 0 <= i < t.len() implies (#[trigger] t[i]).0 < slots.len() by {
            assert(t[i] == done[i]);
        }
        assert forall|i: int, j: int| #![trigger t[i], t[j]] 0 <= i < j < t.len() implies t[i].0
            != t[j].0 by {
            assert(t[i] == done[i] && t[j] == done[j]);
        }
        answers_stand_in_their_slots(slots, t);
        let last = done[done.len() - 1];
        assert forall|k: int| 0 <= k < done.len() implies settled(slots, done)[(
        #[trigger] done[k]).0 as int] == Some(done[k].1) by {
            if k < t.len() {
                assert(t[k] == done[k]);
                assert(done[k].0 != last.0);
            }
        }
        assert forall|i: int|
            0 <= i < slots.len() && (forall|k: int|
                0 <= k < done.len() ==> (#[trigger] done[k]).0 != i) implies #[trigger] settled(
            slots,
            done,
        )[i] == slots[i] by {
            assert(last.0 != i);
            assert forall|k: int| 0 <= k < t.len() implies (#[trigger] t[k]).0 != i by {
                assert(t[k] == done[k]);
            }
            assert(settled(slots, t)[i] == slots[i]);
        }
    }
}

/// In which order the answers come in does not matter: each ends up in the slot that it names.
pub proof fn completion_order_is_immaterial(
    slots: Seq<Option<ResultView>>,
    a: Seq<(usize, ResultView)>,
    b: Seq<(usize, ResultView)>,
)
    requires
        apart(slots.len(), a),
        apart(slots.len(), b),
        a.to_multiset() == b.to_multiset(),
    ensures
        settled(slots, a) == settled(slots, b),
{
    broadcast use vstd::seq_lib::group_to_multiset_ensures;

    answers_stand_in_their_slots(slots, a);
    answers_stand_in_their_slots(slots, b);
    assert forall|i: int| 0 <= i < slots.len() implies settled(slots, a)[i] == settled(
        slots,
        b,
    )[i] by {
        if exists|k: int| 0 <= k < a.len() && (#[trigger] a[k]).0 == i {
            let k = choose|k: int| 0 <= k < a.len() && (#[trigger] a[k]).0 == i;
            assert(a.contains(a[k]));
            assert(a.to_multiset().count(a[k]) > 0);
            assert(b.to_multiset().count(a[k]) > 0);
            assert(b.contains(a[k]));
            let m = choose|m: int| 0 <= m < b.len() && b[m] == a[k];
            assert(settled(slots, b)[b[m].0 as int] == Some(b[m].1));
        } else if exists|k: int| 0 <= k < b.len() && (#[trigger] b[k]).0 == i {
            let k = choose|k: int| 0 <= k < b.len() && (#[trigger] b[k]).0 == i;
            assert(b.contains(b[k]));
            assert(b.to_multiset().count(b[k]) > 0);
            assert(a.to_multiset().count(b[k]) > 0);
            assert(a.contains(b[k]));
            let m = choose|m: int| 0 <= m < a.len() && a[m] == b[k];
            assert(a[m].0 == i);
        }
    }
    assert(settled(slots, a) =~= settled(slots, b));
}

} // verus!
