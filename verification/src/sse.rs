//! The live broadcast hub.
//!
//! The hub keeps a registry of subscriber channels, each a bounded
//! buffer of frames. Publishing appends one frame to every channel that
//! can take it and drops every channel that cannot (full buffer or
//! receiver gone) from the registry at once, so a dead subscriber never
//! slows the write path. A new channel always starts with a `Connected`
//! frame, so a consumer can tell "subscribed, no events yet" from
//! "never subscribed".

use vstd::prelude::*;

use crate::model::{PollResponseState, ResultsState};
use crate::poll_api_model::{PollResponse, PollResults};

verus! {

/// How many frames a channel buffers before it counts as stalled.
pub const CAPACITY: usize = 100;

/// Abstract value of one frame.
pub ghost enum FrameState {
    Connected,
    Ping,
    Message(Seq<char>),
    PollUpdated(PollResponseState),
    PollResults(ResultsState),
}

/// One frame pushed to subscribers: the initial connection mark, a
/// keep-alive, a plain message, or a poll's current state or tally.
pub enum Frame {
    Connected,
    Ping,
    Message(String),
    PollUpdated(PollResponse),
    PollResults(PollResults),
}

impl View for Frame {
    type V = FrameState;

    open spec fn view(&self) -> FrameState {
        match self {
            Frame::Connected => FrameState::Connected,
            Frame::Ping => FrameState::Ping,
            Frame::Message(s) => FrameState::Message(s@),
            Frame::PollUpdated(p) => FrameState::PollUpdated(p@),
            Frame::PollResults(r) => FrameState::PollResults(r@),
        }
    }
}

impl Frame {
    /// A copy whose abstract value equals this frame's.
    pub fn duplicate(&self) -> (r: Frame)
        ensures
            r@ == self@,
    {
        match self {
            Frame::Connected => Frame::Connected,
            Frame::Ping => Frame::Ping,
            Frame::Message(s) => Frame::Message(s.clone()),
            Frame::PollUpdated(p) => Frame::PollUpdated(p.duplicate()),
            Frame::PollResults(r) => Frame::PollResults(r.duplicate()),
        }
    }
}

/// Abstract value of one subscriber channel.
#[verifier::ext_equal]
pub ghost struct ClientState {
    pub id: u64,
    pub open: bool,
    pub frames: Seq<FrameState>,
}

/// Abstract value of the hub: the registered channels and the next
/// subscription id.
#[verifier::ext_equal]
pub ghost struct HubState {
    pub clients: Seq<ClientState>,
    pub next_id: int,
}

/// One subscriber channel: its id, whether the receiver is still
/// there, and the buffered frames in delivery order.
pub struct Channel {
    pub id: u64,
    pub open: bool,
    pub frames: Vec<Frame>,
}

impl View for Channel {
    type V = ClientState;

    open spec fn view(&self) -> ClientState {
        ClientState {
            id: self.id,
            open: self.open,
            frames: Seq::new(self.frames@.len(), |k: int| self.frames@[k]@),
        }
    }
}

/// A subscription handle, as `new_client` returns it.
pub struct Client {
    pub id: u64,
}

/// The broadcast hub.
pub struct Broadcaster {
    pub clients: Vec<Channel>,
    pub next_id: u64,
}

impl View for Broadcaster {
    type V = HubState;

    open spec fn view(&self) -> HubState {
        HubState {
            clients: Seq::new(self.clients@.len(), |k: int| self.clients@[k]@),
            next_id: self.next_id as int,
        }
    }
}

/// A channel takes a frame only while its receiver is there and its
/// buffer is not full.
pub open spec fn can_accept(c: ClientState) -> bool {
    c.open && c.frames.len() < CAPACITY
}

/// Publishing one frame: every channel that can take it gets it
/// appended and stays, every other channel is dropped, in order.
pub open spec fn publish_clients(cs: Seq<ClientState>, f: FrameState) -> Seq<ClientState>
    decreases cs.len(),
{
    if cs.len() == 0 {
        Seq::empty()
    } else {
        let rest = publish_clients(cs.drop_last(), f);
        let c = cs.last();
        if can_accept(c) {
            rest.push(ClientState { frames: c.frames.push(f), ..c })
        } else {
            rest
        }
    }
}

pub open spec fn has_client(cs: Seq<ClientState>, id: u64) -> bool {
    exists|k: int| 0 <= k < cs.len() && cs[k].id == id
}

pub open spec fn client_index(cs: Seq<ClientState>, id: u64) -> int {
    choose|k: int| 0 <= k < cs.len() && cs[k].id == id
}

/// Hub well-formedness: channel ids unique and below the counter.
pub open spec fn hub_wf(h: HubState) -> bool {
    &&& forall|a: int, b: int| 0 <= a < b < h.clients.len() ==> h.clients[a].id != h.clients[b].id
    &&& forall|k: int| 0 <= k < h.clients.len() ==> (#[trigger] h.clients[k].id) < h.next_id
    &&& 0 <= h.next_id <= u64::MAX
}

/// Receiving from a channel: the first buffered frame leaves, in order.
pub open spec fn recv_spec(cs: Seq<ClientState>, id: u64) -> (Seq<ClientState>, Option<FrameState>) {
    if !has_client(cs, id) {
        (cs, None)
    } else {
        let k = client_index(cs, id);
        let c = cs[k];
        if c.frames.len() == 0 {
            (cs, None)
        } else {
            (cs.update(k, ClientState { frames: c.frames.skip(1), ..c }), Some(c.frames[0]))
        }
    }
}

/// Publishing keeps the hub well formed: the surviving channels are a
/// subset of the old ones, ids kept.
pub proof fn lemma_publish_wf(cs: Seq<ClientState>, f: FrameState, bound: int)
    requires
        forall|a: int, b: int| 0 <= a < b < cs.len() ==> cs[a].id != cs[b].id,
        forall|k: int| 0 <= k < cs.len() ==> (#[trigger] cs[k].id) < bound,
    ensures
        ({
            let r = publish_clients(cs, f);
            &&& forall|id: u64| has_client(r, id) ==> has_client(cs, id)
            &&& forall|a: int, b: int| 0 <= a < b < r.len() ==> r[a].id != r[b].id
            &&& forall|k: int| 0 <= k < r.len() ==> (#[trigger] r[k].id) < bound
        }),
    decreases cs.len(),
{
    if cs.len() > 0 {
        let prior = cs.drop_last();
        assert(forall|k: int| 0 <= k < prior.len() ==> prior[k] == cs[k]);
        lemma_publish_wf(prior, f, bound);
        let rest = publish_clients(prior, f);
        let r = publish_clients(cs, f);
        assert forall|id: u64| has_client(r, id) implies has_client(cs, id) by {
            let k = client_index(r, id);
            if can_accept(cs.last()) && k == r.len() - 1 {
                assert(cs[cs.len() - 1].id == id);
            } else {
                assert(rest[k].id == id);
                assert(has_client(rest, id));
                let m = client_index(prior, id);
                assert(cs[m].id == id);
            }
        }
        if can_accept(cs.last()) {
            assert forall|a: int, b: int| 0 <= a < b < r.len() implies r[a].id != r[b].id by {
                if b == r.len() - 1 {
                    if r[a].id == cs.last().id {
                        assert(has_client(rest, r[a].id));
                        let m = client_index(prior, r[a].id);
                        assert(cs[m].id == cs[cs.len() - 1].id);
                    }
                }
            }
        }
    }
}

impl Broadcaster {
    /// An empty hub.
    pub fn new() -> (r: Broadcaster)
        ensures
            r@.clients == Seq::<ClientState>::empty(),
            r@.next_id == 0,
            hub_wf(r@),
    {
        let r = Broadcaster { clients: Vec::new(), next_id: 0 };
        proof {
            assert(r@.clients =~= Seq::<ClientState>::empty());
        }
        r
    }

    /// Register a new channel. Its buffer starts with the `Connected`
    /// frame, before any event frame can reach it.
    pub fn new_client(&mut self) -> (r: Client)
        requires
            old(self).next_id < u64::MAX,
            hub_wf(old(self)@),
        ensures
            r.id == old(self).next_id,
            final(self)@.clients == old(self)@.clients.push(
                ClientState {
                    id: old(self).next_id,
                    open: true,
                    frames: seq![FrameState::Connected],
                },
            ),
            final(self)@.next_id == old(self)@.next_id + 1,
            hub_wf(final(self)@),
    {
        let id = self.next_id;
        let mut frames: Vec<Frame> = Vec::new();
        frames.push(Frame::Connected);
        let ch = Channel { id, open: true, frames };
        let ghost chv = ch@;
        let ghost prior = self@.clients;
        self.clients.push(ch);
        self.next_id = id + 1;
        proof {
            assert(chv.frames =~= seq![FrameState::Connected]);
            assert(self@.clients =~= prior.push(
                ClientState { id, open: true, frames: seq![FrameState::Connected] },
            ));
        }
        Client { id }
    }

    /// Publish one frame to every channel: the ones that can take it
    /// keep their place with the frame appended, the stalled and the
    /// dead ones leave the registry at once.
    fn publish(&mut self, frame: &Frame)
        requires
            hub_wf(old(self)@),
        ensures
            final(self)@.clients == publish_clients(old(self)@.clients, frame@),
            final(self)@.next_id == old(self)@.next_id,
            hub_wf(final(self)@),
    {
        let ghost cs = self@.clients;
        proof {
            lemma_publish_wf(cs, frame@, self@.next_id);
        }
        let mut olds: Vec<Channel> = Vec::new();
        core::mem::swap(&mut olds, &mut self.clients);
        let mut kept: Vec<Channel> = Vec::new();
        let n = olds.len();
        proof {
            assert(cs.take(0) =~= Seq::<ClientState>::empty());
            assert(Seq::new(olds@.len(), |k: int| olds@[k]@) =~= cs.skip(0));
        }
        for k in 0..n
            invariant
                n == cs.len(),
                olds@.len() == n - k,
                Seq::new(olds@.len(), |j: int| olds@[j]@) =~= cs.skip(k as int),
                Seq::new(kept@.len(), |j: int| kept@[j]@) =~= publish_clients(
                    cs.take(k as int),
                    frame@,
                ),
        {
            let ghost remaining = Seq::new(olds@.len(), |j: int| olds@[j]@);
            let ghost prev_vec = olds@;
            let mut c = olds.remove(0);
            proof {
                assert(c@ == remaining[0]);
                assert(remaining[0] == cs[k as int]);
                assert(forall|j: int| 0 <= j < olds@.len() ==> olds@[j] == prev_vec[j + 1]);
                assert forall|j: int| 0 <= j < olds@.len() implies (#[trigger] olds@[j])@ == cs.skip(
                    k as int + 1,
                )[j] by {
                    assert(prev_vec[j + 1]@ == remaining[j + 1]);
                    assert(remaining[j + 1] == cs.skip(k as int)[j + 1]);
                    assert(cs.skip(k as int)[j + 1] == cs[k as int + 1 + j]);
                }
                assert(Seq::new(olds@.len(), |j: int| olds@[j]@) =~= cs.skip(k as int + 1));
                assert(cs.take(k as int + 1).drop_last() =~= cs.take(k as int));
                assert(cs.take(k as int + 1).last() == cs[k as int]);
            }
            if c.open && c.frames.len() < CAPACITY {
                let ghost before = c@;
                c.frames.push(frame.duplicate());
                proof {
                    assert(c@.frames =~= before.frames.push(frame@));
                    assert(c@ == (ClientState { frames: before.frames.push(frame@), ..before }));
                }
                let ghost kept_before = Seq::new(kept@.len(), |j: int| kept@[j]@);
                kept.push(c);
                proof {
                    assert(Seq::new(kept@.len(), |j: int| kept@[j]@) =~= kept_before.push(
                        ClientState { frames: before.frames.push(frame@), ..before },
                    ));
                }
            }
        }
        self.clients = kept;
        proof {
            assert(cs.take(n as int) =~= cs);
            assert(self@.clients =~= publish_clients(cs, frame@));
        }
    }

    /// Send a keep-alive to every channel and prune, in one sweep, the
    /// channels that cannot take it.
    pub fn remove_stale_clients(&mut self)
        requires
            hub_wf(old(self)@),
        ensures
            final(self)@.clients == publish_clients(old(self)@.clients, FrameState::Ping),
            final(self)@.next_id == old(self)@.next_id,
            hub_wf(final(self)@),
    {
        let frame = Frame::Ping;
        self.publish(&frame);
    }

    /// Push a plain message to every channel, pruning as `publish` does.
    pub fn send(&mut self, msg: &str)
        requires
            hub_wf(old(self)@),
        ensures
            final(self)@.clients == publish_clients(
                old(self)@.clients,
                FrameState::Message(msg@),
            ),
            final(self)@.next_id == old(self)@.next_id,
            hub_wf(final(self)@),
    {
        let frame = Frame::Message(msg.to_owned());
        self.publish(&frame);
    }

    /// Push a poll's expanded state to every channel.
    pub fn send_updated_poll(&mut self, poll: &PollResponse)
        requires
            hub_wf(old(self)@),
        ensures
            final(self)@.clients == publish_clients(
                old(self)@.clients,
                FrameState::PollUpdated(poll@),
            ),
            final(self)@.next_id == old(self)@.next_id,
            hub_wf(final(self)@),
    {
        let frame = Frame::PollUpdated(poll.duplicate());
        self.publish(&frame);
    }

    /// Push a poll's current tally to every channel.
    pub fn send_poll_results(&mut self, response: &PollResults)
        requires
            hub_wf(old(self)@),
        ensures
            final(self)@.clients == publish_clients(
                old(self)@.clients,
                FrameState::PollResults(response@),
            ),
            final(self)@.next_id == old(self)@.next_id,
            hub_wf(final(self)@),
    {
        let frame = Frame::PollResults(response.duplicate());
        self.publish(&frame);
    }

    /// Take the next buffered frame of the given channel, in delivery
    /// order: the consumption side of a subscription.
    pub fn recv(&mut self, client: &Client) -> (r: Option<Frame>)
        requires
            hub_wf(old(self)@),
        ensures
            ({
                let (cs2, f) = recv_spec(old(self)@.clients, client.id);
                &&& final(self)@.clients == cs2
                &&& match (r, f) {
                    (Some(fr), Some(fs)) => fr@ == fs,
                    (None, None) => true,
                    _ => false,
                }
            }),
            final(self)@.next_id == old(self)@.next_id,
            hub_wf(final(self)@),
    {
        let ghost cs = self@.clients;
        let n = self.clients.len();
        for k in 0..n
            invariant
                n == self.clients.len(),
                cs == self@.clients,
                cs == old(self)@.clients,
                hub_wf(old(self)@),
                self.next_id == old(self).next_id,
                forall|j: int| 0 <= j < k ==> cs[j].id != client.id,
        {
            if self.clients[k].id == client.id {
                proof {
                    assert(cs[k as int].id == client.id);
                    assert(has_client(cs, client.id));
                    let m = client_index(cs, client.id);
                    if m < k as int {
                        assert(cs[m].id != cs[k as int].id);
                    } else if (k as int) < m {
                        assert(cs[k as int].id != cs[m].id);
                    }
                }
                if self.clients[k].frames.len() == 0 {
                    return None;
                }
                let ghost prior = self@.clients;
                let mut c = self.clients.remove(k);
                let fr = c.frames.remove(0);
                let ghost c2 = c@;
                self.clients.insert(k, c);
                proof {
                    assert(c2.frames =~= cs[k as int].frames.skip(1));
                    assert(c2 == (ClientState { frames: cs[k as int].frames.skip(1), ..cs[k as int] }));
                    assert(self@.clients =~= prior.update(k as int, c2));
                }
                return Some(fr);
            }
        }
        proof {
            assert(!has_client(cs, client.id));
        }
        None
    }

    /// Mark the channel's receiver as gone; the next publish or sweep
    /// prunes it.
    pub fn disconnect(&mut self, client: &Client)
        requires
            hub_wf(old(self)@),
        ensures
            final(self)@.clients.len() == old(self)@.clients.len(),
            forall|j: int|
                0 <= j < old(self)@.clients.len() && old(self)@.clients[j].id != client.id
                    ==> final(self)@.clients[j] == old(self)@.clients[j],
            forall|j: int|
                0 <= j < old(self)@.clients.len() && old(self)@.clients[j].id == client.id
                    ==> final(self)@.clients[j] == (ClientState {
                    open: false,
                    ..old(self)@.clients[j]
                }),
            final(self)@.next_id == old(self)@.next_id,
            hub_wf(final(self)@),
    {
        let ghost cs = self@.clients;
        let n = self.clients.len();
        for k in 0..n
            invariant
                n == self.clients.len(),
                n == cs.len(),
                self.next_id == old(self).next_id,
                forall|j: int|
                    0 <= j < n && !(k <= j < n && cs[j].id == client.id) ==> #[trigger] self@.clients[j]
                        == (if cs[j].id == client.id {
                        ClientState { open: false, ..cs[j] }
                    } else {
                        cs[j]
                    }),
                forall|j: int| k <= j < n ==> #[trigger] self@.clients[j] == cs[j],
        {
            if self.clients[k].id == client.id {
                let ghost prior = self@.clients;
                let mut c = self.clients.remove(k);
                c.open = false;
                let ghost c2 = c@;
                self.clients.insert(k, c);
                proof {
                    assert(prior[k as int] == cs[k as int]);
                    assert(self@.clients =~= prior.update(k as int, c2));
                    assert(c2 == (ClientState { open: false, ..cs[k as int] }));
                }
            }
        }
    }
}

} // verus!
