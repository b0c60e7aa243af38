//! Checkpoint boundaries. Every source asks for a commit with the position it
//! has reached; once all sources have asked, the round closes with one epoch
//! that holds the positions of all of them, and the next round begins.

use crate::dag_metadata::Watermark;
use crate::node::{NodeHandle, NodeHandleView};
use vstd::prelude::*;

verus! {

/// A checkpoint boundary: its number, and the position of each source at it.
#[derive(Debug, PartialEq, Eq)]
pub struct Epoch {
    pub id: u64,
    pub details: Vec<(NodeHandle, Watermark)>,
}

/// What an `Epoch` holds, as mathematical values.
pub struct EpochView {
    pub id: u64,
    pub details: Seq<(NodeHandleView, Watermark)>,
}

/// The views of a list of positions of sources.
pub open spec fn detail_views(details: Seq<(NodeHandle, Watermark)>) -> Seq<(NodeHandleView, Watermark)> {
    Seq::new(details.len(), |i: int| (details[i].0@, details[i].1))
}

impl View for Epoch {
    type V = EpochView;

    open spec fn view(&self) -> EpochView {
        EpochView { id: self.id, details: detail_views(self.details@) }
    }
}

/// A copy of a list of positions of sources.
pub fn clone_details(details: &Vec<(NodeHandle, Watermark)>) -> (copy: Vec<(NodeHandle, Watermark)>)
    ensures
        detail_views(copy@) == detail_views(details@),
{
    let mut copy: Vec<(NodeHandle, Watermark)> = Vec::new();
    let mut i: usize = 0;
    while i < details.len()
        invariant
            i <= details@.len(),
            copy@.len() == i,
            forall|k: int| 0 <= k < i ==> (#[trigger] copy@[k]).0@ == details@[k].0@ && copy@[k].1 == details@[k].1,
        decreases details@.len() - i,
    {
        copy.push((details[i].0.clone(), details[i].1));
        i = i + 1;
    }
    assert(detail_views(copy@) =~= detail_views(details@));
    copy
}

impl Epoch {
    pub fn new(id: u64, details: Vec<(NodeHandle, Watermark)>) -> (epoch: Self)
        ensures
            epoch.id == id,
            epoch.details == details,
    {
        Self { id, details }
    }
}

impl Clone for Epoch {
    fn clone(&self) -> (copy: Self)
        ensures
            copy@ == self@,
    {
        Self { id: self.id, details: clone_details(&self.details) }
    }
}

/// The place of the request of `source` among the requests of a round.
pub open spec fn request_of(pending: Seq<(NodeHandleView, Watermark)>, source: NodeHandleView) -> Option<int> {
    if exists|i: int| 0 <= i < pending.len() && (#[trigger] pending[i]).0 == source {
        Some(choose|i: int| 0 <= i < pending.len() && (#[trigger] pending[i]).0 == source)
    } else {
        None
    }
}

/// The requests of a round after `source` asks with `position`: a source
/// that asks again in the same round moves its position and counts once.
pub open spec fn with_request(
    pending: Seq<(NodeHandleView, Watermark)>,
    source: NodeHandleView,
    position: Watermark,
) -> Seq<(NodeHandleView, Watermark)> {
    match request_of(pending, source) {
        Some(i) => pending.update(i, (source, position)),
        None => pending.push((source, position)),
    }
}

/// No source has two requests.
pub open spec fn distinct_sources(pending: Seq<(NodeHandleView, Watermark)>) -> bool {
    forall|i: int, j: int| 0 <= i < j < pending.len() ==> (#[trigger] pending[i]).0 != (#[trigger] pending[j]).0
}

/// Gathers the commit requests of the sources and closes the epochs.
#[derive(Debug)]
pub struct EpochManager {
    num_sources: usize,
    next_id: u64,
    pending: Vec<(NodeHandle, Watermark)>,
}

impl EpochManager {
    /// Each source has at most one request in the open round, and the round
    /// is open: not all sources have asked.
    pub closed spec fn wf(&self) -> bool {
        &&& distinct_sources(detail_views(self.pending@))
        &&& self.num_sources > 0 ==> self.pending@.len() < self.num_sources
    }

    /// The number of sources that a round waits for.
    pub closed spec fn sources(&self) -> nat {
        self.num_sources as nat
    }

    /// The number that the next epoch gets.
    pub closed spec fn epoch_id(&self) -> u64 {
        self.next_id
    }

    /// The requests of the open round.
    pub closed spec fn requests(&self) -> Seq<(NodeHandleView, Watermark)> {
        detail_views(self.pending@)
    }

    /// A manager for `num_sources` sources, before the first request.
    pub fn new(num_sources: usize) -> (manager: Self)
        ensures
            manager.wf(),
            manager.sources() == num_sources,
            manager.epoch_id() == 0,
            manager.requests() == Seq::<(NodeHandleView, Watermark)>::empty(),
    {
        let manager = Self { num_sources, next_id: 0, pending: Vec::new() };
        assert(manager.requests() =~= Seq::<(NodeHandleView, Watermark)>::empty());
        manager
    }

    /// The number that the next epoch gets.
    pub fn next_epoch_id(&self) -> (id: u64)
        ensures
            id == self.epoch_id(),
    {
        self.next_id
    }

    /// The number of sources that have asked in the open round.
    pub fn waiting(&self) -> (count: usize)
        ensures
            count == self.requests().len(),
    {
        self.pending.len()
    }

    /// Takes the request of `source`, which has reached `position`. Returns
    /// the epoch where this request is the last that the round waited for,
    /// and `None` while sources are still missing.
    pub fn request_commit(&mut self, source: &NodeHandle, position: Watermark) -> (closed: Option<Epoch>)
        requires
            old(self).wf(),
            old(self).epoch_id() < u64::MAX,
        ensures
            final(self).wf(),
            final(self).sources() == old(self).sources(),
            ({
                let asked = with_request(old(self).requests(), source@, position);
                if asked.len() == old(self).sources() {
                    &&& closed matches Some(epoch)
                    &&& epoch@ == (EpochView { id: old(self).epoch_id(), details: asked })
                    &&& final(self).epoch_id() == old(self).epoch_id() + 1
                    &&& final(self).requests() == Seq::<(NodeHandleView, Watermark)>::empty()
                } else {
                    &&& closed is None
                    &&& final(self).epoch_id() == old(self).epoch_id()
                    &&& final(self).requests() == asked
                }
            }),
    {
        let ghost before = detail_views(self.pending@);
        let mut i: usize = 0;
        let mut found = false;
        while i < self.pending.len()
            invariant_except_break
                !found,
            invariant
                i <= self.pending@.len(),
                before == detail_views(self.pending@),
                forall|k: int| 0 <= k < i ==> (#[trigger] before[k]).0 != source@,
            ensures
                found ==> i < self.pending@.len() && before[i as int].0 == source@,
                !found ==> i == self.pending@.len(),
            decreases self.pending@.len() - i,
        {
            if self.pending[i].0.same_as(source) {
                found = true;
                break ;
            }
            i = i + 1;
        }
        if found {
            proof {
                assert(before[i as int].0 == source@);
                let j = choose|j: int| 0 <= j < before.len() && (#[trigger] before[j]).0 == source@;
                if j < i {
                    assert(before[j].0 != source@);
                } else if j > i {
                    assert(before[i as int].0 != before[j].0);
                }
                assert(request_of(before, source@) == Some(i as int));
            }
            self.pending[i].1 = position;
            proof {
                let after = detail_views(self.pending@);
                assert(after =~= before.update(i as int, (source@, position)));
                assert forall|a: int, b: int| 0 <= a < b < after.len() implies (#[trigger] after[a]).0 != (
                #[trigger] after[b]).0 by {
                    assert(before[a].0 != before[b].0);
                }
            }
        } else {
            proof {
                assert(request_of(before, source@) is None);
            }
            self.pending.push((source.clone(), position));
            proof {
                let after = detail_views(self.pending@);
                assert(after =~= before.push((source@, position)));
                assert forall|a: int, b: int| 0 <= a < b < after.len() implies (#[trigger] after[a]).0 != (
                #[trigger] after[b]).0 by {
                    if b == after.len() - 1 {
                        assert(before[a].0 != source@);
                    } else {
                        assert(before[a].0 != before[b].0);
                    }
                }
            }
        }
        if self.pending.len() == self.num_sources {
            let mut details: Vec<(NodeHandle, Watermark)> = Vec::new();
            std::mem::swap(&mut details, &mut self.pending);
            let epoch = Epoch { id: self.next_id, details };
            self.next_id = self.next_id + 1;
            proof {
                assert(detail_views(self.pending@) =~= Seq::<(NodeHandleView, Watermark)>::empty());
            }
            Some(epoch)
        } else {
            None
        }
    }
}

} // verus!
