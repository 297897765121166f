//! Resources: whole-value snapshots, sent when they change and applied when
//! they differ.
use vstd::prelude::*;

use crate::bytes;
use crate::netmsg;
use crate::netmsg::WireType;
use crate::netres::{NetResource, NetView, PacketView, ReplicationPacket};
use crate::sync::seconds::Seconds;

verus! {

/// Trait implemented by syncable resources.
pub trait SyncResource: WireType {

}

/// Runtime options for syncing a resource.
#[derive(Clone, Copy, Debug)]
pub struct SyncResourceSettings {
    /// Minimum seconds between sends for this resource type.
    ///
    /// When a resource changes faster than this interval, the latest serialized
    /// value is coalesced and sent once the interval has elapsed.
    pub min_interval_seconds: Seconds,
    /// Optional unchanged-state heartbeat.
    ///
    /// This is useful for lossy state streams. Reliable resources generally do
    /// not need a heartbeat. It never comes before the minimum interval is over.
    pub heartbeat_seconds: Option<Seconds>,
}

impl Default for SyncResourceSettings {
    fn default() -> (settings: Self)
        ensures
            settings == default_settings(),
    {
        SyncResourceSettings { min_interval_seconds: Seconds::zero(), heartbeat_seconds: None }
    }
}

/// Send at every change, without a heartbeat.
pub open spec fn default_settings() -> SyncResourceSettings {
    SyncResourceSettings { min_interval_seconds: Seconds(0), heartbeat_seconds: None }
}

impl SyncResourceSettings {
    /// Whether enough time has passed since the last send for another one.
    pub open spec fn interval_ready(self, elapsed: Seconds) -> bool {
        elapsed.reaches(self.min_interval_seconds.clamped())
    }

    /// Whether so much time has passed that an unchanged value is sent again.
    pub open spec fn heartbeat_due(self, elapsed: Seconds) -> bool {
        match self.heartbeat_seconds {
            Some(seconds) => elapsed.reaches(seconds.clamped()),
            None => false,
        }
    }
}

/// State used to dedupe and coalesce the snapshots of one resource.
#[derive(Debug)]
pub struct SyncResourceSendState {
    last_sent_bytes: Option<Vec<u8>>,
    pending_bytes: Option<Vec<u8>>,
    seconds_since_send: Seconds,
}

/// What a [`SyncResourceSendState`] holds.
#[verifier::ext_equal]
pub struct SendStateView {
    /// The serialised value that was last sent.
    pub last_sent: Option<Seq<u8>>,
    /// The serialised value that waits to be sent.
    pub pending: Option<Seq<u8>>,
    /// The time since the last send.
    pub since_send: Seconds,
}

/// The contents of optional bytes.
pub open spec fn option_view(option: Option<Vec<u8>>) -> Option<Seq<u8>> {
    match option {
        Some(vec) => Some(vec@),
        None => None,
    }
}

impl View for SyncResourceSendState {
    type V = SendStateView;

    closed spec fn view(&self) -> SendStateView {
        SendStateView {
            last_sent: option_view(self.last_sent_bytes),
            pending: option_view(self.pending_bytes),
            since_send: self.seconds_since_send,
        }
    }
}

impl SendStateView {
    /// The state before anything was sent: the last send is endlessly long ago.
    pub open spec fn initial() -> SendStateView {
        SendStateView { last_sent: None, pending: None, since_send: Seconds(0x7f80_0000) }
    }

    /// What the peers have once everything that waits was sent.
    pub open spec fn announced(self) -> Option<Seq<u8>> {
        if self.pending is Some {
            self.pending
        } else {
            self.last_sent
        }
    }

    /// The state after the resource changed to `bytes`: they wait to be sent,
    /// unless they are what was last sent.
    pub open spec fn change(self, bytes: Seq<u8>) -> SendStateView {
        SendStateView {
            pending: if self.last_sent == Some(bytes) {
                None
            } else {
                Some(bytes)
            },
            ..self
        }
    }

    /// The state after a heartbeat was found due: with nothing else waiting,
    /// the last sent value waits again, or `bytes` where none was sent yet.
    pub open spec fn heartbeat(self, bytes: Seq<u8>) -> SendStateView {
        if self.pending is None {
            SendStateView {
                pending: if self.last_sent is Some {
                    self.last_sent
                } else {
                    Some(bytes)
                },
                ..self
            }
        } else {
            self
        }
    }

    /// The state when a resource with the serialised value `bytes` has been
    /// looked at, before it is decided whether to send.
    pub open spec fn prepare(
        self,
        settings: SyncResourceSettings,
        elapsed: Seconds,
        changed: bool,
        bytes: Seq<u8>,
    ) -> SendStateView {
        let clocked = SendStateView { since_send: elapsed, ..self };
        let noted = if changed {
            clocked.change(bytes)
        } else {
            clocked
        };
        if settings.heartbeat_due(elapsed) {
            noted.heartbeat(bytes)
        } else {
            noted
        }
    }

    /// What is sent when a resource with the serialised value `bytes` is
    /// looked at.
    pub open spec fn sent(
        self,
        settings: SyncResourceSettings,
        elapsed: Seconds,
        changed: bool,
        bytes: Seq<u8>,
    ) -> Option<Seq<u8>> {
        if settings.interval_ready(elapsed) {
            self.prepare(settings, elapsed, changed, bytes).pending
        } else {
            None
        }
    }

    /// The state after a resource with the serialised value `bytes` was looked
    /// at, and sent where it was due.
    pub open spec fn step(
        self,
        settings: SyncResourceSettings,
        elapsed: Seconds,
        changed: bool,
        bytes: Seq<u8>,
    ) -> SendStateView {
        if self.sent(settings, elapsed, changed, bytes) is Some {
            SendStateView {
                last_sent: self.sent(settings, elapsed, changed, bytes),
                pending: None,
                since_send: Seconds(0),
            }
        } else {
            self.prepare(settings, elapsed, changed, bytes)
        }
    }

    /// Whether the serialised value of the resource matters: it changed, or a
    /// first heartbeat is due.
    pub open spec fn reads_value(
        self,
        settings: SyncResourceSettings,
        elapsed: Seconds,
        changed: bool,
    ) -> bool {
        changed || settings.heartbeat_due(elapsed) && self.pending is None && self.last_sent is None
    }
}

/// The queues after a resource snapshot was sent, or nothing was.
pub open spec fn queue_resource(net: NetView, wire_id: u64, sent: Option<Seq<u8>>) -> NetView {
    match sent {
        Some(bytes) => NetView {
            outbox: net.outbox.push(PacketView::UpdateResource { resource_wire_id: wire_id, bytes }),
            ..net
        },
        None => net,
    }
}

impl Default for SyncResourceSendState {
    fn default() -> (state: Self)
        ensures
            state@ == SendStateView::initial(),
    {
        SyncResourceSendState {
            last_sent_bytes: None,
            pending_bytes: None,
            seconds_since_send: Seconds::infinity(),
        }
    }
}

/// A resource as a system sees it.
#[derive(Debug)]
pub struct ResourceRef<'a, T> {
    pub value: &'a T,
    /// Whether it was inserted since the system last ran.
    pub added: bool,
    /// Whether it was written to since the system last ran.
    pub changed: bool,
}

impl<'a, T> ResourceRef<'a, T> {
    /// Whether it was inserted or written to since the system last ran.
    pub open spec fn touched(self) -> bool {
        self.added || self.changed
    }
}

/// Whether a look at a resource can lead from the first state and queues to
/// the second. Its serialised value is what encoding it gives, where it
/// matters.
pub open spec fn syncs_resource<T: SyncResource>(
    resource: ResourceRef<T>,
    settings: SyncResourceSettings,
    elapsed: Seconds,
    before: (SendStateView, NetView),
    after: (SendStateView, NetView),
) -> bool {
    exists|value: Seq<u8>|
        {
            &&& before.0.reads_value(settings, elapsed, resource.touched()) ==> netmsg::encodes_to(
                resource.value,
                value,
            )
            &&& after.0 == before.0.step(settings, elapsed, resource.touched(), value)
            &&& after.1 == queue_resource(
                before.1,
                netmsg::wire_id_of::<T>(),
                #[trigger] before.0.sent(settings, elapsed, resource.touched(), value),
            )
        }
}

impl SyncResourceSendState {
    /// The time since the last send, as of the last look at the resource.
    pub fn seconds_since_send(&self) -> (span: Seconds)
        ensures
            span == self@.since_send,
    {
        self.seconds_since_send
    }

    /// Looks at a resource and returns the bytes to send, if any are due.
    /// `bytes` is the serialised value of the resource. It may be left out
    /// where it does not matter.
    pub fn step(
        &mut self,
        settings: SyncResourceSettings,
        elapsed: Seconds,
        changed: bool,
        bytes: Option<Vec<u8>>,
    ) -> (sent: Option<Vec<u8>>)
        requires
            bytes is None ==> !old(self)@.reads_value(settings, elapsed, changed),
        ensures
            forall|value: Seq<u8>|
                (bytes is Some ==> value == bytes->0@) ==> {
                    &&& option_view(sent) == #[trigger] old(self)@.sent(
                        settings,
                        elapsed,
                        changed,
                        value,
                    )
                    &&& final(self)@ == old(self)@.step(settings, elapsed, changed, value)
                },
    {
        self.seconds_since_send = elapsed;
        let heartbeat_due = match settings.heartbeat_seconds {
            Some(seconds) => elapsed.at_least(seconds.or_zero()),
            None => false,
        };
        if changed {
            if let Some(value) = bytes {
                let already_sent = match &self.last_sent_bytes {
                    Some(last) => bytes::bytes_equal(last.as_slice(), value.as_slice()),
                    None => false,
                };
                self.pending_bytes = if already_sent {
                    None
                } else {
                    Some(value)
                };
            }
            if heartbeat_due && self.pending_bytes.is_none() {
                self.pending_bytes = self.last_sent_bytes.clone();
            }
        } else if heartbeat_due && self.pending_bytes.is_none() {
            self.pending_bytes = match &self.last_sent_bytes {
                Some(last) => Some(last.clone()),
                None => bytes,
            };
        }
        let interval_ready = elapsed.at_least(settings.min_interval_seconds.or_zero());
        if self.pending_bytes.is_none() || !interval_ready {
            return None;
        }
        let sent = self.pending_bytes.take();
        self.last_sent_bytes = sent.clone();
        self.seconds_since_send = Seconds::zero();
        sent
    }
}

/// Sends updated resources with byte-level dedupe and optional send coalescing.
///
/// `elapsed` is the time since the last send, up to now.
pub fn sync_resource_with_settings<T: SyncResource>(
    elapsed: Seconds,
    net: &mut NetResource,
    resource: Option<ResourceRef<T>>,
    state: &mut SyncResourceSendState,
    settings: SyncResourceSettings,
)
    ensures
        match resource {
            Some(resource) if old(net)@.is_server == Some(true) => syncs_resource(
                resource,
                settings,
                elapsed,
                (old(state)@, old(net)@),
                (final(state)@, final(net)@),
            ),
            _ => final(net)@ == old(net)@ && final(state)@ == old(state)@,
        },
{
    let resource = match resource {
        Some(resource) => resource,
        None => return ,
    };
    if !net.is_server() {
        return ;
    }
    let changed = resource.added || resource.changed;
    let heartbeat_due = match settings.heartbeat_seconds {
        Some(seconds) => elapsed.at_least(seconds.or_zero()),
        None => false,
    };
    let first_heartbeat = heartbeat_due && state.pending_bytes.is_none()
        && state.last_sent_bytes.is_none();
    let bytes = if changed || first_heartbeat {
        Some(resource.value.encode())
    } else {
        None
    };
    let ghost value: Seq<u8> = match option_view(bytes) {
        Some(contents) => contents,
        None => Seq::empty(),
    };
    assert(bytes is Some ==> netmsg::encodes_to(resource.value, value));
    let ghost before = state@;
    let sent = state.step(settings, elapsed, changed, bytes);
    assert(option_view(sent) == before.sent(settings, elapsed, changed, value));
    if let Some(bytes) = sent {
        net.queue_packet(ReplicationPacket::UpdateResource { resource_wire_id: T::wire_id(), bytes });
    }
}

/// Sends updated resources when they are added or changed.
///
/// `elapsed` is the time since the last send, up to now.
pub fn sync_resource<T: SyncResource>(
    elapsed: Seconds,
    net: &mut NetResource,
    resource: Option<ResourceRef<T>>,
    state: &mut SyncResourceSendState,
)
    ensures
        match resource {
            Some(resource) if old(net)@.is_server == Some(true) => syncs_resource(
                resource,
                default_settings(),
                elapsed,
                (old(state)@, old(net)@),
                (final(state)@, final(net)@),
            ),
            _ => final(net)@ == old(net)@ && final(state)@ == old(state)@,
        },
{
    sync_resource_with_settings::<T>(elapsed, net, resource, state, SyncResourceSettings::default());
}

/// What came of a resource snapshot.
#[derive(Clone, Copy, Debug, PartialEq, Eq, Structural)]
pub enum ResourceUpdate {
    /// It says what the resource already is.
    Unchanged,
    /// It replaced the resource.
    Replaced,
    /// It is no value of the resource's type.
    Undecodable,
}

/// Whether a snapshot with the given bytes can lead from the first value of a
/// resource to the second, with the given outcome.
pub open spec fn updates_resource<T: SyncResource>(
    before: Option<T>,
    bytes: Seq<u8>,
    update: ResourceUpdate,
    after: Option<T>,
) -> bool {
    &&& match before {
        Some(existing) => exists|existing_bytes: Seq<u8>| #[trigger]
            netmsg::encodes_to(&existing, existing_bytes) && (update is Unchanged
                <==> existing_bytes == bytes),
        None => !(update is Unchanged),
    }
    &&& match update {
        ResourceUpdate::Unchanged => after == before,
        ResourceUpdate::Replaced => after is Some && netmsg::decodes_to(bytes, after),
        ResourceUpdate::Undecodable => after == before && netmsg::decodes_to::<T>(bytes, None),
    }
}

/// Applies a resource snapshot only when the serialized value actually changed.
///
/// `slot` is the resource, where there is one.
pub fn apply_resource_update<T: SyncResource>(slot: &mut Option<T>, bytes: &[u8]) -> (update:
    ResourceUpdate)
    ensures
        updates_resource(*old(slot), bytes@, update, *final(slot)),
{
    if let Some(existing) = slot {
        let existing_bytes = existing.encode();
        assert(netmsg::encodes_to(&*existing, existing_bytes@));
        if bytes::bytes_equal(existing_bytes.as_slice(), bytes) {
            return ResourceUpdate::Unchanged;
        }
    }
    let decoded = T::decode(bytes);
    assert(netmsg::decodes_to(bytes@, decoded));
    match decoded {
        Some(value) => {
            *slot = Some(value);
            ResourceUpdate::Replaced
        },
        None => ResourceUpdate::Undecodable,
    }
}

/// After a change the peers have, or will have, the changed value; without a
/// change what they have or will have stays the same.
pub proof fn law_latest_value_is_announced(
    state: SendStateView,
    settings: SyncResourceSettings,
    elapsed: Seconds,
    bytes: Seq<u8>,
)
    ensures
        state.step(settings, elapsed, true, bytes).announced() == Some(bytes),
        state.announced() is Some ==> state.step(settings, elapsed, false, bytes).announced()
            == state.announced(),
{
}

/// A change that leaves the serialised value what it was when it was last sent
/// sends nothing, unless a heartbeat is due.
pub proof fn law_identical_value_is_not_sent_again(
    state: SendStateView,
    settings: SyncResourceSettings,
    elapsed: Seconds,
    bytes: Seq<u8>,
)
    requires
        state.last_sent == Some(bytes),
        !settings.heartbeat_due(elapsed),
    ensures
        state.sent(settings, elapsed, true, bytes) is None,
        state.step(settings, elapsed, true, bytes).last_sent == Some(bytes),
{
}

/// The first change of a resource is sent at once, whatever the interval.
pub proof fn law_first_change_is_sent_at_once(settings: SyncResourceSettings, bytes: Seq<u8>)
    ensures
        SendStateView::initial().sent(
            settings,
            SendStateView::initial().since_send,
            true,
            bytes,
        ) == Some(bytes),
{
}

/// Once the interval has elapsed, a due heartbeat always sends: what waits,
/// else what was last sent, else the current value.
pub proof fn law_due_heartbeat_sends(
    state: SendStateView,
    settings: SyncResourceSettings,
    elapsed: Seconds,
    bytes: Seq<u8>,
)
    requires
        settings.heartbeat_due(elapsed),
        settings.interval_ready(elapsed),
    ensures
        state.sent(settings, elapsed, false, bytes) == (if state.announced() is Some {
            state.announced()
        } else {
            Some(bytes)
        }),
        state.sent(settings, elapsed, true, bytes) == Some(bytes),
{
}

/// The state after a resource changed several times in a row. Each change is
/// given by the time since the last send and the serialised value.
pub open spec fn step_all(
    state: SendStateView,
    settings: SyncResourceSettings,
    changes: Seq<(Seconds, Seq<u8>)>,
) -> SendStateView
    decreases changes.len(),
{
    if changes.len() == 0 {
        state
    } else {
        step_all(state, settings, changes.drop_last()).step(
            settings,
            changes.last().0,
            true,
            changes.last().1,
        )
    }
}

proof fn lemma_held_changes(
    state: SendStateView,
    settings: SyncResourceSettings,
    changes: Seq<(Seconds, Seq<u8>)>,
)
    requires
        changes.len() > 0,
        forall|i: int|
            0 <= i < changes.len() ==> !settings.interval_ready((#[trigger] changes[i]).0)
                && !settings.heartbeat_due(changes[i].0),
    ensures
        step_all(state, settings, changes).last_sent == state.last_sent,
        step_all(state, settings, changes).pending == (if state.last_sent == Some(
            changes.last().1,
        ) {
            None
        } else {
            Some(changes.last().1)
        }),
    decreases changes.len(),
{
    let earlier = changes.drop_last();
    assert(!settings.interval_ready(changes.last().0));
    if earlier.len() > 0 {
        assert forall|i: int| 0 <= i < earlier.len() implies !settings.interval_ready(
            (#[trigger] earlier[i]).0,
        ) && !settings.heartbeat_due(earlier[i].0) by {
            assert(earlier[i] == changes[i]);
        }
        lemma_held_changes(state, settings, earlier);
    }
}

/// When a resource changes faster than the interval, nothing is sent until the
/// interval has elapsed, and then only the latest value, unless that is what
/// was last sent.
pub proof fn law_fast_changes_are_coalesced(
    state: SendStateView,
    settings: SyncResourceSettings,
    changes: Seq<(Seconds, Seq<u8>)>,
    elapsed: Seconds,
    bytes: Seq<u8>,
)
    requires
        changes.len() > 0,
        forall|i: int|
            0 <= i < changes.len() ==> !settings.interval_ready((#[trigger] changes[i]).0)
                && !settings.heartbeat_due(changes[i].0),
        settings.interval_ready(elapsed),
        !settings.heartbeat_due(elapsed),
    ensures
        forall|i: int|
            0 <= i < changes.len() ==> step_all(state, settings, changes.take(i)).sent(
                settings,
                (#[trigger] changes[i]).0,
                true,
                changes[i].1,
            ) is None,
        step_all(state, settings, changes).sent(settings, elapsed, false, bytes) == (
        if state.last_sent == Some(changes.last().1) {
            None
        } else {
            Some(changes.last().1)
        }),
{
    lemma_held_changes(state, settings, changes);
}

/// Whether a value has no more than one serialised form.
pub open spec fn has_one_form<T: SyncResource>(value: T) -> bool {
    forall|one: Seq<u8>, other: Seq<u8>| #[trigger]
        netmsg::encodes_to(&value, one) && #[trigger] netmsg::encodes_to(&value, other) ==> one
            == other
}

/// Whether bytes are read as a value that they are a serialised form of.
pub open spec fn reads_to_own_form<T: SyncResource>(bytes: Seq<u8>) -> bool {
    forall|outcome: Option<T>| #[trigger]
        netmsg::decodes_to::<T>(bytes, outcome) ==> outcome is Some && netmsg::encodes_to(
            &outcome->0,
            bytes,
        )
}

/// A snapshot that is a serialised value of the resource's type replaces the
/// resource exactly where there is none or another one. Then the resource is
/// what the snapshot says, and a second snapshot with the same bytes changes
/// nothing. The values have one serialised form each, and where the snapshot
/// has to be read, the value that is read has the form it was read from.
pub proof fn law_repeated_update_changes_nothing<T: SyncResource>(
    before: Option<T>,
    bytes: Seq<u8>,
    first: ResourceUpdate,
    between: Option<T>,
    second: ResourceUpdate,
    after: Option<T>,
)
    requires
        before is Some ==> has_one_form(before->0),
        between is Some ==> has_one_form(between->0),
        before is None || !netmsg::encodes_to(&before->0, bytes) ==> reads_to_own_form::<T>(bytes),
        updates_resource(before, bytes, first, between),
        updates_resource(between, bytes, second, after),
    ensures
        between is Some,
        netmsg::encodes_to(&between->0, bytes),
        first is Replaced <==> before is None || !netmsg::encodes_to(&before->0, bytes),
        first is Unchanged <==> before is Some && netmsg::encodes_to(&before->0, bytes),
        second is Unchanged,
        after == between,
{
}

/// One look at a resource: the time since the last send, whether the resource
/// changed, and its serialised value.
pub struct Look {
    pub elapsed: Seconds,
    pub changed: bool,
    pub bytes: Seq<u8>,
}

/// The state after a run of looks at a resource.
pub open spec fn after_looks(settings: SyncResourceSettings, looks: Seq<Look>) -> SendStateView
    decreases looks.len(),
{
    if looks.len() == 0 {
        SendStateView::initial()
    } else {
        let look = looks.last();
        after_looks(settings, looks.drop_last()).step(
            settings,
            look.elapsed,
            look.changed,
            look.bytes,
        )
    }
}

/// What one look of a run sends.
pub open spec fn look_sends(
    settings: SyncResourceSettings,
    looks: Seq<Look>,
    i: int,
) -> Option<Seq<u8>> {
    after_looks(settings, looks.take(i)).sent(
        settings,
        looks[i].elapsed,
        looks[i].changed,
        looks[i].bytes,
    )
}

/// What was sent last stays noted until the next send.
proof fn lemma_last_sent(settings: SyncResourceSettings, looks: Seq<Look>, from: int, to: int)
    requires
        0 <= from < to <= looks.len(),
        look_sends(settings, looks, from) is Some,
        forall|i: int| from < i < to ==> #[trigger] look_sends(settings, looks, i) is None,
    ensures
        after_looks(settings, looks.take(to)).last_sent == look_sends(settings, looks, from),
    decreases to - from,
{
    let last = looks.take(to);
    assert(last.drop_last() =~= looks.take(to - 1));
    assert(last.last() == looks[to - 1]);
    if to - 1 > from {
        assert(look_sends(settings, looks, to - 1) is None);
        lemma_last_sent(settings, looks, from, to - 1);
    }
}

/// Without a heartbeat nothing waits that was sent last.
proof fn lemma_pending_differs(settings: SyncResourceSettings, looks: Seq<Look>)
    requires
        settings.heartbeat_seconds is None,
    ensures
        ({
            let state = after_looks(settings, looks);
            state.pending is Some ==> state.pending != state.last_sent
        }),
    decreases looks.len(),
{
    if looks.len() > 0 {
        lemma_pending_differs(settings, looks.drop_last());
    }
}

/// In any run of looks at a resource, a send comes only when the interval has
/// elapsed since the send before; the clock starts anew at each send and runs
/// on at each other look.
pub proof fn law_sends_keep_the_interval(
    settings: SyncResourceSettings,
    looks: Seq<Look>,
    i: int,
)
    requires
        0 <= i < looks.len(),
    ensures
        look_sends(settings, looks, i) is Some ==> settings.interval_ready(looks[i].elapsed),
        after_looks(settings, looks.take(i + 1)).since_send == (if look_sends(
            settings,
            looks,
            i,
        ) is Some {
            Seconds(0)
        } else {
            looks[i].elapsed
        }),
{
    assert(looks.take(i + 1).drop_last() =~= looks.take(i));
}

/// In any run of looks without a heartbeat, two sends in a row have different
/// bytes.
pub proof fn law_sends_in_a_row_differ(
    settings: SyncResourceSettings,
    looks: Seq<Look>,
    earlier: int,
    later: int,
)
    requires
        settings.heartbeat_seconds is None,
        0 <= earlier < later < looks.len(),
        look_sends(settings, looks, earlier) is Some,
        look_sends(settings, looks, later) is Some,
        forall|i: int| earlier < i < later ==> #[trigger] look_sends(settings, looks, i) is None,
    ensures
        look_sends(settings, looks, earlier) != look_sends(settings, looks, later),
{
    lemma_last_sent(settings, looks, earlier, later);
    lemma_pending_differs(settings, looks.take(later));
}

/// A run of calls on a server is a run of looks: each call queues what its look
/// sends, one packet of the resource's type, or nothing. Whatever happens to
/// the queues between two calls, the send state carries over.
pub proof fn law_calls_queue_what_looks_send<T: SyncResource>(
    settings: SyncResourceSettings,
    calls: Seq<(ResourceRef<T>, Seconds)>,
    states: Seq<SendStateView>,
    queues: Seq<(NetView, NetView)>,
) -> (looks: Seq<Look>)
    requires
        states.len() == calls.len() + 1,
        queues.len() == calls.len(),
        states[0] == SendStateView::initial(),
        forall|i: int|
            0 <= i < calls.len() ==> #[trigger] syncs_resource(
                calls[i].0,
                settings,
                calls[i].1,
                (states[i], queues[i].0),
                (states[i + 1], queues[i].1),
            ),
    ensures
        looks.len() == calls.len(),
        forall|i: int|
            0 <= i < calls.len() ==> (#[trigger] looks[i]).elapsed == calls[i].1
                && looks[i].changed == calls[i].0.touched(),
        forall|i: int|
            0 <= i <= calls.len() ==> after_looks(settings, #[trigger] looks.take(i)) == states[i],
        forall|i: int|
            0 <= i < calls.len() ==> queues[i].1 == queue_resource(
                queues[i].0,
                netmsg::wire_id_of::<T>(),
                #[trigger] look_sends(settings, looks, i),
            ),
    decreases calls.len(),
{
    if calls.len() == 0 {
        let looks = Seq::<Look>::empty();
        assert forall|i: int| 0 <= i <= calls.len() implies after_looks(
            settings,
            #[trigger] looks.take(i),
        ) == states[i] by {
            assert(looks.take(i).len() == 0);
        }
        looks
    } else {
        let last = calls.len() - 1;
        let rest = calls.drop_last();
        let early = states.drop_last();
        let early_queues = queues.drop_last();
        assert forall|i: int| 0 <= i < rest.len() implies #[trigger] syncs_resource(
            rest[i].0,
            settings,
            rest[i].1,
            (early[i], early_queues[i].0),
            (early[i + 1], early_queues[i].1),
        ) by {
            assert(syncs_resource(
                calls[i].0,
                settings,
                calls[i].1,
                (states[i], queues[i].0),
                (states[i + 1], queues[i].1),
            ));
        }
        let before = law_calls_queue_what_looks_send::<T>(settings, rest, early, early_queues);
        let (resource, elapsed) = calls[last];
        let changed = resource.touched();
        assert(syncs_resource(
            resource,
            settings,
            elapsed,
            (states[last], queues[last].0),
            (states[last + 1], queues[last].1),
        ));
        let value = choose|value: Seq<u8>|
            {
                &&& states[last].reads_value(settings, elapsed, changed) ==> netmsg::encodes_to(
                    resource.value,
                    value,
                )
                &&& states[last + 1] == states[last].step(settings, elapsed, changed, value)
                &&& queues[last].1 == queue_resource(
                    queues[last].0,
                    netmsg::wire_id_of::<T>(),
                    #[trigger] states[last].sent(settings, elapsed, changed, value),
                )
            };
        let look = Look { elapsed, changed, bytes: value };
        let looks = before.push(look);
        assert(looks.take(last) =~= before.take(last));
        assert(before.take(last) =~= before);
        assert(looks.take(last + 1) =~= looks);
        assert(looks.drop_last() =~= before);
        assert forall|i: int| 0 <= i <= calls.len() implies after_looks(
            settings,
            #[trigger] looks.take(i),
        ) == states[i] by {
            if i <= last {
                assert(looks.take(i) =~= before.take(i));
                assert(early[i] == states[i]);
            }
        }
        assert forall|i: int| 0 <= i < calls.len() implies queues[i].1 == queue_resource(
            queues[i].0,
            netmsg::wire_id_of::<T>(),
            #[trigger] look_sends(settings, looks, i),
        ) by {
            if i < last {
                assert(looks.take(i) =~= before.take(i));
                assert(look_sends(settings, looks, i) == look_sends(settings, before, i));
                assert(early_queues[i] == queues[i]);
            }
        }
        assert forall|i: int| 0 <= i < calls.len() implies (#[trigger] looks[i]).elapsed
            == calls[i].1 && looks[i].changed == calls[i].0.touched() by {
            if i < last {
                assert(before[i] == looks[i]);
                assert(rest[i] == calls[i]);
            }
        }
        looks
    }
}

/// The interval is over once as much time has passed since the last send, and
/// the heartbeat is due likewise, where there is one. A negative time counts as
/// zero. By default there is no interval and no heartbeat.
pub proof fn law_settings_are_held_against_the_time(
    settings: SyncResourceSettings,
    elapsed: Seconds,
    seconds: Seconds,
)
    ensures
        settings.interval_ready(elapsed) == elapsed.reaches(
            settings.min_interval_seconds.clamped(),
        ),
        settings.heartbeat_seconds == Some(seconds) ==> settings.heartbeat_due(elapsed)
            == elapsed.reaches(seconds.clamped()),
        settings.heartbeat_seconds is None ==> !settings.heartbeat_due(elapsed),
        default_settings().min_interval_seconds == Seconds(0),
        default_settings().heartbeat_seconds is None,
        SendStateView::initial().last_sent is None,
        SendStateView::initial().pending is None,
        SendStateView::initial().since_send == Seconds(0x7f80_0000),
{
}

/// A change to another value than the last one sent is sent in the same look,
/// where the interval is over, with or without a heartbeat.
pub proof fn law_change_is_sent_when_the_interval_is_over(
    state: SendStateView,
    settings: SyncResourceSettings,
    elapsed: Seconds,
    bytes: Seq<u8>,
)
    requires
        settings.interval_ready(elapsed),
        state.last_sent != Some(bytes),
    ensures
        state.sent(settings, elapsed, true, bytes) == Some(bytes),
        state.step(settings, elapsed, true, bytes).last_sent == Some(bytes),
        state.step(settings, elapsed, true, bytes).pending is None,
        state.step(settings, elapsed, true, bytes).since_send == Seconds(0),
{
}

/// Before the interval is over nothing is sent, whatever happens. The latest
/// change waits, in place of an earlier one, unless it leads back to what was
/// last sent.
pub proof fn law_changes_wait_for_the_interval(
    state: SendStateView,
    settings: SyncResourceSettings,
    elapsed: Seconds,
    changed: bool,
    bytes: Seq<u8>,
)
    requires
        !settings.interval_ready(elapsed),
    ensures
        ({
            let after = state.step(settings, elapsed, changed, bytes);
            &&& state.sent(settings, elapsed, changed, bytes) is None
            &&& after.last_sent == state.last_sent
            &&& after.since_send == elapsed
            &&& changed && state.last_sent != Some(bytes) ==> after.pending == Some(bytes)
            &&& changed && state.last_sent == Some(bytes) && !settings.heartbeat_due(elapsed)
                ==> after.pending is None
            &&& !changed && state.pending is Some ==> after.pending == state.pending
            &&& !changed && state.pending is None && !settings.heartbeat_due(elapsed)
                ==> after.pending is None
            &&& changed && state.last_sent == Some(bytes) && settings.heartbeat_due(elapsed)
                ==> after.pending == Some(bytes)
            &&& !changed && state.pending is None && settings.heartbeat_due(elapsed)
                && state.last_sent is Some ==> after.pending == state.last_sent
            &&& !changed && state.pending is None && settings.heartbeat_due(elapsed)
                && state.last_sent is None ==> after.pending == Some(bytes)
        }),
{
}

/// Without a change, what waits is sent once the interval is over. With nothing
/// waiting, a due heartbeat sends what was last sent, or the value where nothing
/// was; without a due heartbeat nothing is sent.
pub proof fn law_unchanged_resources_send_what_waits(
    state: SendStateView,
    settings: SyncResourceSettings,
    elapsed: Seconds,
    bytes: Seq<u8>,
)
    requires
        settings.interval_ready(elapsed),
    ensures
        state.pending is Some ==> state.sent(settings, elapsed, false, bytes) == state.pending,
        state.pending is None && !settings.heartbeat_due(elapsed) ==> state.sent(
            settings,
            elapsed,
            false,
            bytes,
        ) is None,
        state.pending is None && settings.heartbeat_due(elapsed) && state.last_sent is Some
            ==> state.sent(settings, elapsed, false, bytes) == state.last_sent,
        state.pending is None && settings.heartbeat_due(elapsed) && state.last_sent is None
            ==> state.sent(settings, elapsed, false, bytes) == Some(bytes),
{
}

/// A change back to what was last sent takes back what waits. It sends nothing,
/// unless a heartbeat is due and the interval over; then it sends that value
/// again.
pub proof fn law_change_back_takes_back_what_waits(
    state: SendStateView,
    settings: SyncResourceSettings,
    elapsed: Seconds,
    bytes: Seq<u8>,
)
    requires
        state.last_sent == Some(bytes),
    ensures
        !settings.heartbeat_due(elapsed) ==> state.sent(settings, elapsed, true, bytes) is None
            && state.step(settings, elapsed, true, bytes).pending is None,
        settings.heartbeat_due(elapsed) && settings.interval_ready(elapsed) ==> state.sent(
            settings,
            elapsed,
            true,
            bytes,
        ) == Some(bytes),
        state.step(settings, elapsed, true, bytes).last_sent == Some(bytes),
{
}

/// A send is noted and starts the clock anew; without a send the last one stays
/// noted and the clock runs on.
pub proof fn law_sends_are_noted(
    state: SendStateView,
    settings: SyncResourceSettings,
    elapsed: Seconds,
    changed: bool,
    bytes: Seq<u8>,
)
    ensures
        ({
            let sent = state.sent(settings, elapsed, changed, bytes);
            let after = state.step(settings, elapsed, changed, bytes);
            &&& sent is Some ==> after.last_sent == sent && after.pending is None
                && after.since_send == Seconds(0)
            &&& sent is None ==> after.last_sent == state.last_sent && after.since_send == elapsed
            &&& sent is None && settings.interval_ready(elapsed) ==> after.pending is None
        }),
{
}

/// A look at a resource queues at most one packet, of the resource's type. A
/// resource that was inserted or written to is queued with a serialised form of
/// its value once the interval is over, unless that form is what was last sent
/// and no heartbeat is due. Before the interval is over nothing is queued.
pub proof fn law_changed_resources_are_queued<T: SyncResource>(
    resource: ResourceRef<T>,
    settings: SyncResourceSettings,
    elapsed: Seconds,
    before: (SendStateView, NetView),
    after: (SendStateView, NetView),
)
    requires
        syncs_resource(resource, settings, elapsed, before, after),
    ensures
        !settings.interval_ready(elapsed) ==> after.1 == before.1,
        settings.interval_ready(elapsed) && (resource.added || resource.changed) ==> exists|
            bytes: Seq<u8>,
        | #[trigger]
            netmsg::encodes_to(resource.value, bytes) && (if before.0.last_sent == Some(bytes)
                && !settings.heartbeat_due(elapsed) {
                after.1 == before.1
            } else {
                after.1 == (NetView {
                    outbox: before.1.outbox.push(
                        PacketView::UpdateResource {
                            resource_wire_id: netmsg::wire_id_of::<T>(),
                            bytes,
                        },
                    ),
                    ..before.1
                }) && after.0.last_sent == Some(bytes)
            }),
        settings.interval_ready(elapsed) && !resource.added && !resource.changed
            && before.0.pending is Some ==> after.1 == (NetView {
            outbox: before.1.outbox.push(
                PacketView::UpdateResource {
                    resource_wire_id: netmsg::wire_id_of::<T>(),
                    bytes: before.0.pending->0,
                },
            ),
            ..before.1
        }),
        !resource.added && !resource.changed && before.0.pending is None && (
        settings.heartbeat_seconds is None) ==> after.1 == before.1,
        settings.interval_ready(elapsed) && !resource.added && !resource.changed
            && before.0.pending is None && settings.heartbeat_due(elapsed)
            && before.0.last_sent is Some ==> after.1 == (NetView {
            outbox: before.1.outbox.push(
                PacketView::UpdateResource {
                    resource_wire_id: netmsg::wire_id_of::<T>(),
                    bytes: before.0.last_sent->0,
                },
            ),
            ..before.1
        }),
        settings.interval_ready(elapsed) && !resource.added && !resource.changed
            && before.0.pending is None && settings.heartbeat_due(elapsed)
            && before.0.last_sent is None ==> exists|bytes: Seq<u8>| #[trigger]
            netmsg::encodes_to(resource.value, bytes) && after.1 == (NetView {
                outbox: before.1.outbox.push(
                    PacketView::UpdateResource {
                        resource_wire_id: netmsg::wire_id_of::<T>(),
                        bytes,
                    },
                ),
                ..before.1
            }),
{
    let touched = resource.touched();
    let value = choose|value: Seq<u8>|
        {
            &&& before.0.reads_value(settings, elapsed, touched) ==> netmsg::encodes_to(
                resource.value,
                value,
            )
            &&& after.0 == before.0.step(settings, elapsed, touched, value)
            &&& after.1 == queue_resource(
                before.1,
                netmsg::wire_id_of::<T>(),
                #[trigger] before.0.sent(settings, elapsed, touched, value),
            )
        };
    assert(touched == (resource.added || resource.changed));
    if touched {
        assert(netmsg::encodes_to(resource.value, value));
    }
}

/// A look that changes something waits or sends one of the resource's own
/// serialised forms, what waited, or what was last sent.
pub proof fn law_looks_note_the_value<T: SyncResource>(
    resource: ResourceRef<T>,
    settings: SyncResourceSettings,
    elapsed: Seconds,
    before: (SendStateView, NetView),
    after: (SendStateView, NetView),
)
    requires
        syncs_resource(resource, settings, elapsed, before, after),
        resource.added || resource.changed,
    ensures
        exists|bytes: Seq<u8>| #[trigger]
            netmsg::encodes_to(resource.value, bytes) && if settings.interval_ready(elapsed) {
                after.0.last_sent == Some(bytes) && after.0.pending is None
            } else {
                after.0.last_sent == before.0.last_sent && after.0.since_send == elapsed && (
                before.0.last_sent != Some(bytes) ==> after.0.pending == Some(bytes))
            },
{
    let value = choose|value: Seq<u8>|
        {
            &&& before.0.reads_value(settings, elapsed, true) ==> netmsg::encodes_to(
                resource.value,
                value,
            )
            &&& after.0 == before.0.step(settings, elapsed, true, value)
            &&& after.1 == queue_resource(
                before.1,
                netmsg::wire_id_of::<T>(),
                #[trigger] before.0.sent(settings, elapsed, true, value),
            )
        };
    assert(resource.touched());
    assert(netmsg::encodes_to(resource.value, value));
}

/// A snapshot is passed over where the resource has its bytes as serialised
/// form. Otherwise it replaces the resource by the value that is read from it,
/// or, where none is, leaves the resource.
pub proof fn law_snapshots_replace_by_what_is_read<T: SyncResource>(
    before: Option<T>,
    bytes: Seq<u8>,
    update: ResourceUpdate,
    after: Option<T>,
)
    requires
        updates_resource(before, bytes, update, after),
    ensures
        update is Unchanged ==> after == before && before is Some && netmsg::encodes_to(
            &before->0,
            bytes,
        ),
        update is Replaced ==> after is Some && netmsg::decodes_to(bytes, after),
        update is Undecodable ==> after == before && netmsg::decodes_to::<T>(bytes, None),
        before is Some && !(update is Unchanged) ==> exists|form: Seq<u8>| #[trigger]
            netmsg::encodes_to(&before->0, form) && form != bytes,
{
}

/// A call on a server is one look at the resource: the state moves on by it, and
/// what it sends is queued. Where the value matters, it is one of the resource's
/// serialised forms.
pub proof fn law_calls_are_looks<T: SyncResource>(
    resource: ResourceRef<T>,
    settings: SyncResourceSettings,
    elapsed: Seconds,
    before: (SendStateView, NetView),
    after: (SendStateView, NetView),
) -> (bytes: Seq<u8>)
    requires
        syncs_resource(resource, settings, elapsed, before, after),
    ensures
        ({
            let changed = resource.added || resource.changed;
            let sent = before.0.sent(settings, elapsed, changed, bytes);
            &&& changed ==> netmsg::encodes_to(resource.value, bytes)
            &&& settings.heartbeat_due(elapsed) && before.0.pending is None
                && before.0.last_sent is None ==> netmsg::encodes_to(resource.value, bytes)
            &&& after.0 == before.0.step(settings, elapsed, changed, bytes)
            &&& sent is None ==> after.1 == before.1
            &&& sent is Some ==> after.1 == (NetView {
                outbox: before.1.outbox.push(
                    PacketView::UpdateResource {
                        resource_wire_id: netmsg::wire_id_of::<T>(),
                        bytes: sent->0,
                    },
                ),
                ..before.1
            })
        }),
{
    let touched = resource.touched();
    choose|value: Seq<u8>|
        {
            &&& before.0.reads_value(settings, elapsed, touched) ==> netmsg::encodes_to(
                resource.value,
                value,
            )
            &&& after.0 == before.0.step(settings, elapsed, touched, value)
            &&& after.1 == queue_resource(
                before.1,
                netmsg::wire_id_of::<T>(),
                #[trigger] before.0.sent(settings, elapsed, touched, value),
            )
        }
}

/// Optional bytes say what they hold.
pub proof fn law_optional_bytes_say_what_they_hold(bytes: Vec<u8>)
    ensures
        option_view(Some(bytes)) == Some(bytes@),
        option_view(None) is None,
{
}

} // verus!
