use vstd::prelude::*;
use tokio::sync::mpsc::UnboundedSender;
use warp::ws::Message;
use crate::model::Client;

verus! {

/// `ids` without `id`: the one place that holds it is taken out, the others
/// keep their order.
pub open spec fn ids_without(ids: Seq<usize>, id: usize) -> Seq<usize> {
    if ids.contains(id) {
        ids.remove(ids.index_of(id))
    } else {
        ids
    }
}

/// Those of the first `n` entries of `ids` that are not `sender_id`, in
/// their order.
pub open spec fn recipients_among(ids: Seq<usize>, n: int, sender_id: usize) -> Seq<usize>
    decreases n,
{
    if n <= 0 {
        Seq::empty()
    } else if ids[n - 1] != sender_id {
        recipients_among(ids, n - 1, sender_id).push(ids[n - 1])
    } else {
        recipients_among(ids, n - 1, sender_id)
    }
}

/// Who receives a broadcast from `sender_id`: every registered identifier
/// but the sender's own, in order of registration.
pub open spec fn recipients(ids: Seq<usize>, sender_id: usize) -> Seq<usize> {
    recipients_among(ids, ids.len() as int, sender_id)
}

proof fn lemma_recipients_among(ids: Seq<usize>, n: int, sender_id: usize)
    requires
        0 <= n <= ids.len(),
        ids.no_duplicates(),
    ensures
        !recipients_among(ids, n, sender_id).contains(sender_id),
        forall|x: usize| #[trigger]
            recipients_among(ids, n, sender_id).contains(x) ==> ids.subrange(0, n).contains(x),
        forall|k: int|
            0 <= k < n && ids[k] != sender_id ==> recipients_among(ids, n, sender_id).contains(
                #[trigger] ids[k],
            ),
        recipients_among(ids, n, sender_id).no_duplicates(),
    decreases n,
{
    if n > 0 {
        lemma_recipients_among(ids, n - 1, sender_id);
        let prev = recipients_among(ids, n - 1, sender_id);
        let cur = recipients_among(ids, n, sender_id);
        let head = ids.subrange(0, n - 1);
        assert forall|x: usize| #[trigger] cur.contains(x) implies ids.subrange(0, n).contains(x) by {
            if prev.contains(x) {
                let j = choose|j: int| 0 <= j < head.len() && head[j] == x;
                assert(ids.subrange(0, n)[j] == x);
            } else {
                assert(x == ids[n - 1]);
                assert(ids.subrange(0, n)[n - 1] == x);
            }
        }
        assert forall|k: int| 0 <= k < n && ids[k] != sender_id implies cur.contains(
            #[trigger] ids[k],
        ) by {
            if k < n - 1 {
                let j = choose|j: int| 0 <= j < prev.len() && prev[j] == ids[k];
                assert(cur[j] == ids[k]);
            } else {
                assert(cur[cur.len() - 1] == ids[k]);
            }
        }
        if ids[n - 1] != sender_id {
            if prev.contains(ids[n - 1]) {
                let j = choose|j: int| 0 <= j < head.len() && head[j] == ids[n - 1];
                assert(ids[j] == ids[n - 1]);
                assert(false);
            }
            assert forall|a: int, b: int| 0 <= a < cur.len() && 0 <= b < cur.len() && a != b implies cur[a]
                != cur[b] by {
                if a == cur.len() - 1 {
                    assert(prev.contains(cur[b]) || b == a);
                } else if b == cur.len() - 1 {
                    assert(prev.contains(cur[a]));
                }
            }
        }
    }
}

/// A broadcast reaches every registered client but its sender, each once.
pub proof fn lemma_broadcast_exclusion(ids: Seq<usize>, sender_id: usize)
    requires
        ids.no_duplicates(),
    ensures
        !recipients(ids, sender_id).contains(sender_id),
        forall|x: usize|
            x != sender_id ==> (#[trigger] recipients(ids, sender_id).contains(x) <==> ids.contains(x)),
        recipients(ids, sender_id).no_duplicates(),
{
    lemma_recipients_among(ids, ids.len() as int, sender_id);
    assert(ids.subrange(0, ids.len() as int) =~= ids);
    assert forall|x: usize| x != sender_id && ids.contains(x) implies #[trigger] recipients(
        ids,
        sender_id,
    ).contains(x) by {
        let k = choose|k: int| 0 <= k < ids.len() && ids[k] == x;
        assert(recipients_among(ids, ids.len() as int, sender_id).contains(ids[k]));
    }
}

/// Taking an identifier out leaves a registry without it, and taking it out
/// once more changes nothing.
pub proof fn lemma_deregister_idempotent(ids: Seq<usize>, id: usize)
    requires
        ids.no_duplicates(),
    ensures
        !ids_without(ids, id).contains(id),
        ids_without(ids, id).no_duplicates(),
        ids_without(ids_without(ids, id), id) == ids_without(ids, id),
        forall|x: usize| x != id ==> (#[trigger] ids_without(ids, id).contains(x) <==> ids.contains(x)),
{
    if ids.contains(id) {
        let k = ids.index_of(id);
        let rest = ids.remove(k);
        assert forall|j: int| 0 <= j < rest.len() implies #[trigger] rest[j] == ids[if j < k {
            j
        } else {
            j + 1
        }] by {}
        assert forall|x: usize| x != id && ids.contains(x) implies #[trigger] rest.contains(x) by {
            let j = choose|j: int| 0 <= j < ids.len() && ids[j] == x;
            if j < k {
                assert(rest[j] == x);
            } else {
                assert(rest[j - 1] == x);
            }
        }
        assert forall|x: usize| #[trigger] rest.contains(x) implies ids.contains(x) && x != id by {
            let j = choose|j: int| 0 <= j < rest.len() && rest[j] == x;
            assert(rest[j] == ids[if j < k { j } else { j + 1 }]);
        }
        assert(rest.no_duplicates());
    }
}

/// The connected clients, each under the identifier it registered with, in
/// order of registration.
pub struct ClientRegistry<S> {
    ids: Vec<usize>,
    clients: Vec<Client<S>>,
}

impl<S> ClientRegistry<S> {
    /// The registered identifiers, oldest first.
    pub closed spec fn ids(&self) -> Seq<usize> {
        self.ids@
    }

    /// The registered clients: `clients()[k]` belongs to `ids()[k]`.
    pub closed spec fn clients(&self) -> Seq<Client<S>> {
        self.clients@
    }

    /// Each identifier stands once and has its client.
    pub open spec fn wf(&self) -> bool {
        &&& self.ids().len() == self.clients().len()
        &&& self.ids().no_duplicates()
    }

    pub open spec fn has(&self, id: usize) -> bool {
        self.ids().contains(id)
    }

    pub fn new() -> (registry: Self)
        ensures
            registry.wf(),
            registry.ids() == Seq::<usize>::empty(),
            registry.clients() == Seq::<Client<S>>::empty(),
    {
        ClientRegistry { ids: Vec::new(), clients: Vec::new() }
    }

    pub fn len(&self) -> (n: usize)
        ensures
            n == self.ids().len(),
    {
        self.ids.len()
    }

    /// Where `id` stands, if it is registered.
    fn find(&self, id: usize) -> (place: Option<usize>)
        requires
            self.wf(),
        ensures
            match place {
                Some(k) => k < self.ids().len() && self.ids()[k as int] == id && k
                    == self.ids().index_of(id),
                None => !self.has(id),
            },
    {
        let mut k: usize = 0;
        while k < self.ids.len()
            invariant
                self.wf(),
                k <= self.ids.len(),
                forall|j: int| 0 <= j < k ==> self.ids@[j] != id,
            decreases self.ids.len() - k,
        {
            if self.ids[k] == id {
                proof {
                    assert(self.ids@[k as int] == id);
                    let chosen = self.ids@.index_of(id);
                    assert(0 <= chosen < self.ids@.len() && self.ids@[chosen] == id);
                    assert(chosen == k);
                }
                return Some(k);
            }
            k += 1;
        }
        None
    }

    /// Whether `id` is registered.
    pub fn contains(&self, id: usize) -> (found: bool)
        requires
            self.wf(),
        ensures
            found == self.has(id),
    {
        self.find(id).is_some()
    }

    /// The client registered under `id`.
    pub fn get(&self, id: usize) -> (client: Option<&Client<S>>)
        requires
            self.wf(),
        ensures
            match client {
                Some(c) => self.has(id) && *c == self.clients()[self.ids().index_of(id)],
                None => !self.has(id),
            },
    {
        match self.find(id) {
            Some(k) => Some(&self.clients[k]),
            None => None,
        }
    }

    /// Enters `client` under `id`, which must be new: identifiers are handed
    /// out once.
    pub fn register(&mut self, id: usize, client: Client<S>)
        requires
            old(self).wf(),
            !old(self).has(id),
        ensures
            final(self).wf(),
            final(self).ids() == old(self).ids().push(id),
            final(self).clients() == old(self).clients().push(client),
    {
        self.ids.push(id);
        self.clients.push(client);
    }

    /// Takes `id` out and hands back its client. Where `id` is not
    /// registered nothing changes.
    pub fn deregister(&mut self, id: usize) -> (removed: Option<Client<S>>)
        requires
            old(self).wf(),
        ensures
            final(self).wf(),
            !final(self).has(id),
            final(self).ids() == ids_without(old(self).ids(), id),
            match removed {
                Some(c) => old(self).has(id) && c == old(self).clients()[old(self).ids().index_of(id)]
                    && final(self).clients() == old(self).clients().remove(
                    old(self).ids().index_of(id),
                ),
                None => !old(self).has(id) && final(self).clients() == old(self).clients(),
            },
    {
        proof {
            lemma_deregister_idempotent(self.ids@, id);
        }
        match self.find(id) {
            Some(k) => {
                self.ids.remove(k);
                let client = self.clients.remove(k);
                Some(client)
            },
            None => None,
        }
    }

    /// The clients that a message from `sender_id` goes to: every registered
    /// identifier but `sender_id`, oldest first.
    pub fn broadcast_except(&self, sender_id: usize) -> (to: Vec<usize>)
        requires
            self.wf(),
        ensures
            to@ == recipients(self.ids(), sender_id),
    {
        let mut to: Vec<usize> = Vec::new();
        let mut k: usize = 0;
        while k < self.ids.len()
            invariant
                k <= self.ids.len(),
                to@ == recipients_among(self.ids@, k as int, sender_id),
            decreases self.ids.len() - k,
        {
            let uid: usize = self.ids[k];
            if uid != sender_id {
                to.push(uid);
            }
            k += 1;
        }
        to
    }
}

/// Hands out client identifiers: each one larger than the one before, none
/// twice.
pub struct ClientIds {
    next: usize,
}

impl ClientIds {
    /// The identifier that is handed out next.
    pub closed spec fn upcoming(&self) -> usize {
        self.next
    }

    pub fn new() -> (ids: Self)
        ensures
            ids.upcoming() == 1,
    {
        ClientIds { next: 1 }
    }

    /// The next identifier, or `None` when every identifier has been used.
    pub fn allocate(&mut self) -> (id: Option<usize>)
        ensures
            old(self).upcoming() < usize::MAX ==> id == Some(old(self).upcoming()) && final(self).upcoming() == old(self).upcoming() + 1,
            old(self).upcoming() == usize::MAX ==> id.is_none() && final(self).upcoming() == old(self).upcoming(),
    {
        if self.next == usize::MAX {
            None
        } else {
            let id: usize = self.next;
            self.next = id + 1;
            Some(id)
        }
    }
}

/// The registry together with the source of its identifiers: every client
/// that connects gets a fresh identifier, so none is ever registered twice.
pub struct Hub<S> {
    ids: ClientIds,
    registry: ClientRegistry<S>,
}

impl<S> Hub<S> {
    /// The connected clients.
    pub closed spec fn registry(&self) -> ClientRegistry<S> {
        self.registry
    }

    /// The identifier that the next client gets.
    pub closed spec fn upcoming(&self) -> usize {
        self.ids.upcoming()
    }

    /// The registry is well formed and every identifier in it has been
    /// handed out already.
    pub open spec fn wf(&self) -> bool {
        &&& self.registry().wf()
        &&& forall|id: usize| self.registry().has(id) ==> id < self.upcoming()
    }

    pub fn new() -> (hub: Self)
        ensures
            hub.wf(),
            hub.upcoming() == 1,
            hub.registry().ids() == Seq::<usize>::empty(),
    {
        Hub { ids: ClientIds::new(), registry: ClientRegistry::new() }
    }

    /// Registers `client` under a fresh identifier and returns it. When
    /// every identifier has been used the client is handed back and nothing
    /// changes.
    pub fn connect(&mut self, client: Client<S>) -> (id: Result<usize, Client<S>>)
        requires
            old(self).wf(),
        ensures
            final(self).wf(),
            old(self).upcoming() < usize::MAX ==> {
                &&& id == Ok::<usize, Client<S>>(old(self).upcoming())
                &&& final(self).upcoming() == old(self).upcoming() + 1
                &&& final(self).registry().ids() == old(self).registry().ids().push(old(self).upcoming())
                &&& final(self).registry().clients() == old(self).registry().clients().push(client)
            },
            old(self).upcoming() == usize::MAX ==> {
                &&& id == Err::<usize, Client<S>>(client)
                &&& final(self).upcoming() == old(self).upcoming()
                &&& final(self).registry() == old(self).registry()
            },
    {
        match self.ids.allocate() {
            Some(id) => {
                self.registry.register(id, client);
                proof {
                    let before = old(self).registry().ids();
                    assert forall|x: usize| self.registry().has(x) implies x < self.upcoming() by {
                        let k = choose|k: int| 0 <= k < before.push(id).len() && before.push(id)[k] == x;
                        if k < before.len() {
                            assert(before[k] == x);
                            assert(old(self).registry().has(x));
                        }
                    }
                }
                Ok(id)
            },
            None => Err(client),
        }
    }

    /// Takes client `id` out and hands it back; no client under `id`, no
    /// change.
    pub fn disconnect(&mut self, id: usize) -> (removed: Option<Client<S>>)
        requires
            old(self).wf(),
        ensures
            final(self).wf(),
            final(self).upcoming() == old(self).upcoming(),
            !final(self).registry().has(id),
            final(self).registry().ids() == ids_without(old(self).registry().ids(), id),
            match removed {
                Some(c) => {
                    &&& old(self).registry().has(id)
                    &&& c == old(self).registry().clients()[old(self).registry().ids().index_of(id)]
                    &&& final(self).registry().clients() == old(self).registry().clients().remove(
                        old(self).registry().ids().index_of(id),
                    )
                },
                None => !old(self).registry().has(id) && final(self).registry().clients() == old(self).registry().clients(),
            },
    {
        proof {
            lemma_deregister_idempotent(self.registry.ids(), id);
        }
        let removed = self.registry.deregister(id);
        proof {
            assert forall|x: usize| self.registry().has(x) implies x < self.upcoming() by {
                assert(ids_without(old(self).registry().ids(), id).contains(x));
                assert(old(self).registry().has(x));
            }
        }
        removed
    }

    /// The connected clients, to look one up or to address a broadcast.
    pub fn clients(&self) -> (registry: &ClientRegistry<S>)
        ensures
            *registry == self.registry(),
    {
        &self.registry
    }
}

/// One attempt to queue a message for a client.
#[derive(Debug, Clone, Copy, PartialEq, Eq, Structural)]
pub struct Delivery {
    pub recipient: usize,
    /// Whether the client's channel took the message; a channel whose
    /// receiving end is gone takes none.
    pub taken: bool,
}

/// `UnboundedSender::send`, with the text message that `Message::text`
/// makes of `text`. Whether the channel takes the message depends on whether
/// its receiving end still exists, so nothing is claimed of the answer.
#[verifier::external_body]
fn push_text(sender: &UnboundedSender<Result<Message, warp::Error>>, text: &String) -> (taken: bool) {
    sender.send(Ok(Message::text(text.clone()))).is_ok()
}

/// Queues `message` for client `client_id` alone, if it is registered.
pub fn send_to(
    message: String,
    client_id: usize,
    clients: &ClientRegistry<UnboundedSender<Result<Message, warp::Error>>>,
) -> (delivery: Option<Delivery>)
    requires
        clients.wf(),
    ensures
        delivery.is_some() == clients.has(client_id),
        delivery matches Some(d) ==> d.recipient == client_id,
{
    match clients.find(client_id) {
        Some(k) => {
            let taken = push_text(&clients.clients[k].sender, &message);
            Some(Delivery { recipient: client_id, taken })
        },
        None => None,
    }
}

/// Queues `message` for every registered client but `sender_id`, oldest
/// first, once each. A channel that is closed is passed over: nothing is
/// tried again and the client stays registered until its own session takes
/// it out.
pub fn broadcast_message(
    message: String,
    sender_id: usize,
    clients: &ClientRegistry<UnboundedSender<Result<Message, warp::Error>>>,
) -> (deliveries: Vec<Delivery>)
    requires
        clients.wf(),
    ensures
        deliveries@.len() == recipients(clients.ids(), sender_id).len(),
        forall|k: int|
            0 <= k < deliveries@.len() ==> (#[trigger] deliveries@[k]).recipient == recipients(
                clients.ids(),
                sender_id,
            )[k],
{
    let mut deliveries: Vec<Delivery> = Vec::new();
    let mut k: usize = 0;
    while k < clients.ids.len()
        invariant
            clients.wf(),
            k <= clients.ids.len(),
            deliveries@.len() == recipients_among(clients.ids@, k as int, sender_id).len(),
            forall|j: int|
                0 <= j < deliveries@.len() ==> (#[trigger] deliveries@[j]).recipient
                    == recipients_among(clients.ids@, k as int, sender_id)[j],
        decreases clients.ids.len() - k,
    {
        let uid: usize = clients.ids[k];
        if uid != sender_id {
            let taken = push_text(&clients.clients[k].sender, &message);
            deliveries.push(Delivery { recipient: uid, taken });
        }
        k += 1;
    }
    deliveries
}

/// `tokio::sync::mpsc::UnboundedSender`: the sending end of a channel. It
/// is kept and handed to `send`, never looked into.
#[verifier::external_type_specification]
#[verifier::external_body]
#[verifier::reject_recursive_types(T)]
pub struct ExUnboundedSender<T>(UnboundedSender<T>);

/// `warp::ws::Message`: one websocket message.
#[verifier::external_type_specification]
#[verifier::external_body]
pub struct ExMessage(Message);

/// `warp::Error`: what a channel carries in place of a message that could
/// not be read.
#[verifier::external_type_specification]
#[verifier::external_body]
pub struct ExWarpError(warp::Error);

} // verus!
