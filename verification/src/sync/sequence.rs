//! Sequence numbers of component updates, which the transport may lose,
//! repeat or reorder.
use std::collections::HashMap;
use vstd::prelude::*;

use crate::replicated;

verus! {

broadcast use vstd::std_specs::hash::group_hash_axioms;

/// Sequence tracking for lossy component update streams.
#[derive(Debug)]
pub struct ComponentUpdateSequenceState {
    next_outgoing: u64,
    /// By network ID, then by component.
    latest_incoming: HashMap<u64, HashMap<u64, u64>>,
}

/// What a [`ComponentUpdateSequenceState`] holds.
#[verifier::ext_equal]
pub struct SequenceView {
    /// The sequence number of the next update that is sent.
    pub next_outgoing: u64,
    /// The latest sequence number accepted from each stream: one component of
    /// one network ID.
    pub latest_incoming: Map<(u64, u64), u64>,
}

impl View for ComponentUpdateSequenceState {
    type V = SequenceView;

    closed spec fn view(&self) -> SequenceView {
        SequenceView {
            next_outgoing: self.next_outgoing,
            latest_incoming: Map::new(
                |stream: (u64, u64)|
                    self.latest_incoming@.dom().contains(stream.0)
                        && self.latest_incoming@[stream.0]@.dom().contains(stream.1),
                |stream: (u64, u64)| self.latest_incoming@[stream.0]@[stream.1],
            ),
        }
    }
}

impl SequenceView {
    /// The state before any update.
    pub open spec fn initial() -> SequenceView {
        SequenceView { next_outgoing: 1, latest_incoming: Map::empty() }
    }

    /// Whether an update is newer than all that were accepted from its stream.
    pub open spec fn is_fresh(self, stream: (u64, u64), sequence: u64) -> bool {
        self.latest_incoming.dom().contains(stream) ==> self.latest_incoming[stream] < sequence
    }

    /// The state after an update arrived: only a fresh one is noted.
    pub open spec fn arrive(self, stream: (u64, u64), sequence: u64) -> SequenceView {
        if self.is_fresh(stream, sequence) {
            SequenceView {
                latest_incoming: self.latest_incoming.insert(stream, sequence),
                ..self
            }
        } else {
            self
        }
    }

    /// The state after all streams of a network ID were forgotten.
    pub open spec fn forget(self, network_id: u64) -> SequenceView {
        SequenceView {
            latest_incoming: self.latest_incoming.restrict(
                Set::new(|stream: (u64, u64)| stream.0 != network_id),
            ),
            ..self
        }
    }

    /// The state after `count` outgoing updates were numbered.
    pub open spec fn issue(self, count: nat) -> SequenceView {
        SequenceView {
            next_outgoing: replicated::id_after(self.next_outgoing, count),
            ..self
        }
    }
}

impl Default for ComponentUpdateSequenceState {
    fn default() -> (state: Self)
        ensures
            state@ == SequenceView::initial(),
    {
        let state = ComponentUpdateSequenceState {
            next_outgoing: 1,
            latest_incoming: HashMap::new(),
        };
        assert(state@ =~= SequenceView::initial());
        state
    }
}

impl ComponentUpdateSequenceState {
    /// Numbers an outgoing update.
    pub fn next_outgoing(&mut self) -> (sequence: u64)
        ensures
            sequence == old(self)@.next_outgoing,
            final(self)@ == old(self)@.issue(1),
    {
        let sequence = self.next_outgoing;
        self.next_outgoing = self.next_outgoing.saturating_add(1);
        assert(self@ =~= old(self)@.issue(1));
        sequence
    }

    /// Notes an incoming update and returns whether it is to be applied.
    pub fn accept_incoming(
        &mut self,
        network_id: u64,
        component_wire_id: u64,
        sequence: u64,
    ) -> (fresh: bool)
        ensures
            fresh == old(self)@.is_fresh((network_id, component_wire_id), sequence),
            final(self)@ == old(self)@.arrive((network_id, component_wire_id), sequence),
    {
        let ghost before = self.latest_incoming@;
        let mut streams: HashMap<u64, u64> = match self.latest_incoming.remove(&network_id) {
            Some(streams) => streams,
            None => HashMap::new(),
        };
        let fresh = match streams.get(&component_wire_id) {
            Some(latest) => *latest < sequence,
            None => true,
        };
        if fresh {
            streams.insert(component_wire_id, sequence);
        }
        self.latest_incoming.insert(network_id, streams);
        assert(self@ =~= old(self)@.arrive((network_id, component_wire_id), sequence));
        fresh
    }

    /// Forgets all streams of a network ID.
    pub fn forget_network_id(&mut self, network_id: u64)
        ensures
            final(self)@ == old(self)@.forget(network_id),
    {
        self.latest_incoming.remove(&network_id);
        assert(self@ =~= old(self)@.forget(network_id));
    }
}

/// The updates of one stream that are accepted when they arrive in the given
/// order.
pub open spec fn accepted(state: SequenceView, stream: (u64, u64), arrivals: Seq<u64>) -> Seq<u64>
    decreases arrivals.len(),
{
    if arrivals.len() == 0 {
        Seq::empty()
    } else {
        let rest = accepted(state.arrive(stream, arrivals[0]), stream, arrivals.drop_first());
        if state.is_fresh(stream, arrivals[0]) {
            seq![arrivals[0]] + rest
        } else {
            rest
        }
    }
}

/// The state after updates of one stream arrived in the given order.
pub open spec fn arrive_all(
    state: SequenceView,
    stream: (u64, u64),
    arrivals: Seq<u64>,
) -> SequenceView
    decreases arrivals.len(),
{
    if arrivals.len() == 0 {
        state
    } else {
        arrive_all(state.arrive(stream, arrivals[0]), stream, arrivals.drop_first())
    }
}

/// However the updates of a stream are lost, repeated or reordered on the way,
/// those that are accepted come in strictly increasing order, so no late
/// update undoes a newer one.
pub proof fn law_accepted_updates_increase(
    state: SequenceView,
    stream: (u64, u64),
    arrivals: Seq<u64>,
)
    ensures
        ({
            let taken = accepted(state, stream, arrivals);
            &&& forall|i: int, j: int| 0 <= i < j < taken.len() ==> taken[i] < taken[j]
            &&& forall|i: int|
                0 <= i < taken.len() ==> #[trigger] state.is_fresh(stream, taken[i])
        }),
    decreases arrivals.len(),
{
    if arrivals.len() > 0 {
        let next = state.arrive(stream, arrivals[0]);
        let rest = accepted(next, stream, arrivals.drop_first());
        law_accepted_updates_increase(next, stream, arrivals.drop_first());
        let taken = accepted(state, stream, arrivals);
        if state.is_fresh(stream, arrivals[0]) {
            assert forall|i: int| 0 < i < taken.len() implies #[trigger] taken[i] > arrivals[0] by {
                assert(taken[i] == rest[i - 1]);
                assert(next.is_fresh(stream, rest[i - 1]));
            }
            assert forall|i: int, j: int| 0 <= i < j < taken.len() implies taken[i] < taken[j] by {
                assert(taken[j] == rest[j - 1]);
                if i > 0 {
                    assert(taken[i] == rest[i - 1]);
                }
            }
        }
    }
}

/// The newest update of a stream is accepted in whatever order the updates
/// arrive, and is the one that stays noted.
pub proof fn law_newest_update_wins(
    state: SequenceView,
    stream: (u64, u64),
    arrivals: Seq<u64>,
    newest: u64,
)
    requires
        state.is_fresh(stream, newest),
        arrivals.contains(newest),
        forall|i: int| 0 <= i < arrivals.len() ==> arrivals[i] <= newest,
    ensures
        accepted(state, stream, arrivals).contains(newest),
        accepted(state, stream, arrivals).last() == newest,
        arrive_all(state, stream, arrivals).latest_incoming.dom().contains(stream),
        arrive_all(state, stream, arrivals).latest_incoming[stream] == newest,
    decreases arrivals.len(),
{
    let next = state.arrive(stream, arrivals[0]);
    let tail = arrivals.drop_first();
    assert forall|i: int| 0 <= i < tail.len() implies tail[i] <= newest by {
        assert(tail[i] == arrivals[i + 1]);
    }
    let rest = accepted(next, stream, tail);
    if arrivals[0] == newest {
        lemma_nothing_newer(next, stream, tail);
        assert(accepted(state, stream, arrivals) =~= seq![newest]);
        assert(accepted(state, stream, arrivals)[0] == newest);
    } else {
        let i = choose|i: int| 0 <= i < arrivals.len() && arrivals[i] == newest;
        assert(tail[i - 1] == newest);
        law_newest_update_wins(next, stream, tail, newest);
        let j = choose|j: int| 0 <= j < rest.len() && rest[j] == newest;
        let taken = accepted(state, stream, arrivals);
        if state.is_fresh(stream, arrivals[0]) {
            assert(taken[j + 1] == newest);
        }
    }
}

/// Nothing is accepted where nothing newer arrives.
proof fn lemma_nothing_newer(state: SequenceView, stream: (u64, u64), arrivals: Seq<u64>)
    requires
        state.latest_incoming.dom().contains(stream),
        forall|i: int| 0 <= i < arrivals.len() ==> arrivals[i] <= state.latest_incoming[stream],
    ensures
        accepted(state, stream, arrivals).len() == 0,
        arrive_all(state, stream, arrivals) == state,
    decreases arrivals.len(),
{
    if arrivals.len() > 0 {
        let tail = arrivals.drop_first();
        assert forall|i: int| 0 <= i < tail.len() implies tail[i]
            <= state.latest_incoming[stream] by {
            assert(tail[i] == arrivals[i + 1]);
        }
        lemma_nothing_newer(state, stream, tail);
    }
}

/// An accepted update makes itself and all older ones of its stream late, and
/// leaves the other streams alone.
pub proof fn law_late_updates_are_refused(
    state: SequenceView,
    stream: (u64, u64),
    sequence: u64,
    late: u64,
    other: (u64, u64),
    other_sequence: u64,
)
    requires
        late <= sequence,
        other != stream,
    ensures
        !state.arrive(stream, sequence).is_fresh(stream, late),
        state.arrive(stream, sequence).arrive(stream, late) == state.arrive(stream, sequence),
        state.arrive(stream, sequence).is_fresh(other, other_sequence) == state.is_fresh(
            other,
            other_sequence,
        ),
{
}

/// After a network ID was forgotten its streams start afresh, and the streams
/// of other IDs go on as before.
pub proof fn law_forgotten_streams_start_afresh(
    state: SequenceView,
    network_id: u64,
    component_wire_id: u64,
    sequence: u64,
    other: (u64, u64),
)
    requires
        other.0 != network_id,
    ensures
        state.forget(network_id).is_fresh((network_id, component_wire_id), sequence),
        state.forget(network_id).is_fresh(other, sequence) == state.is_fresh(other, sequence),
        state.forget(network_id).next_outgoing == state.next_outgoing,
{
}

/// Outgoing updates are numbered in strictly increasing order until the
/// counter reaches its highest value, so a receiver that gets them in order
/// accepts them all.
pub proof fn law_outgoing_numbers_increase(state: SequenceView, earlier: nat, later: nat)
    requires
        earlier < later,
        state.next_outgoing + later <= u64::MAX,
    ensures
        state.issue(earlier).next_outgoing < state.issue(later).next_outgoing,
        state.issue(earlier).issue((later - earlier) as nat) == state.issue(later),
{
}

/// At first the next number is one and no stream is noted.
pub proof fn law_numbering_starts_at_one(stream: (u64, u64), sequence: u64)
    ensures
        SequenceView::initial().next_outgoing == 1,
        SequenceView::initial().is_fresh(stream, sequence),
        !SequenceView::initial().latest_incoming.dom().contains(stream),
{
}

/// An update is fresh where nothing or a lower number is noted of its stream. A
/// fresh one is noted, any other leaves everything; other streams and the next
/// outgoing number stay.
pub proof fn law_fresh_updates_are_noted(
    state: SequenceView,
    stream: (u64, u64),
    sequence: u64,
    other: (u64, u64),
)
    requires
        other != stream,
    ensures
        !state.latest_incoming.dom().contains(stream) ==> state.is_fresh(stream, sequence),
        state.latest_incoming.dom().contains(stream) ==> state.is_fresh(stream, sequence) == (
        state.latest_incoming[stream] < sequence),
        state.is_fresh(stream, sequence) ==> state.arrive(
            stream,
            sequence,
        ).latest_incoming.dom().contains(stream) && state.arrive(
            stream,
            sequence,
        ).latest_incoming[stream] == sequence,
        !state.is_fresh(stream, sequence) ==> state.arrive(stream, sequence) == state,
        state.arrive(stream, sequence).latest_incoming.dom().contains(other)
            == state.latest_incoming.dom().contains(other),
        state.latest_incoming.dom().contains(other) ==> state.arrive(
            stream,
            sequence,
        ).latest_incoming[other] == state.latest_incoming[other],
        state.arrive(stream, sequence).next_outgoing == state.next_outgoing,
{
}

/// Forgetting a network ID drops what is noted of its streams and nothing else.
pub proof fn law_forgetting_drops_one_network_id(
    state: SequenceView,
    network_id: u64,
    stream: (u64, u64),
)
    ensures
        state.forget(network_id).latest_incoming.dom().contains(stream) == (stream.0 != network_id
            && state.latest_incoming.dom().contains(stream)),
        stream.0 != network_id && state.latest_incoming.dom().contains(stream) ==> state.forget(
            network_id,
        ).latest_incoming[stream] == state.latest_incoming[stream],
        state.forget(network_id).next_outgoing == state.next_outgoing,
{
}

/// Numbering updates moves the next number on by as many, up to the highest, and
/// leaves what was noted.
pub proof fn law_numbering_moves_the_next_number_on(state: SequenceView, count: nat)
    ensures
        state.next_outgoing + count <= u64::MAX ==> state.issue(count).next_outgoing as int
            == state.next_outgoing + count,
        state.next_outgoing + count > u64::MAX ==> state.issue(count).next_outgoing == u64::MAX,
        state.issue(count).latest_incoming == state.latest_incoming,
{
}

} // verus!
