use vstd::prelude::*;
use crate::tables::NameMap;

verus! {

/// A message from a client: the identifier of the handler it is meant for, and its
/// payload.
#[derive(Debug, Clone)]
pub struct ClientMessage {
    pub id: String,
    pub payload: Vec<u8>,
}

/// Something that handles client messages of one identifier. What the handling
/// does is the implementor's business; the manager only asks for the identifier.
pub trait ClientMessageHandler: Send + Sync {
    /// The identifier this handler answers to.
    fn get_id(&self) -> String;
}

/// The registered handlers, each under the identifier it answers to: a table from
/// identifier to a slot in the list of handlers.
pub struct ClientMessageManager<H: ClientMessageHandler> {
    handlers: NameMap,
    slots: Vec<H>,
}

impl<H: ClientMessageHandler> ClientMessageManager<H> {
    /// The registered handlers, by identifier.
    pub closed spec fn registered(&self) -> Map<Seq<char>, H> {
        Map::new(
            |id: Seq<char>| self.handlers@.contains_key(id),
            |id: Seq<char>| self.slots@[self.handlers@[id] as int],
        )
    }

    /// There are finitely many identifiers, and every one leads to a slot that
    /// holds a handler.
    pub closed spec fn wf(&self) -> bool {
        &&& self.handlers@.dom().finite()
        &&& forall|id: Seq<char>| #[trigger] self.handlers@.contains_key(id) ==> self.handlers@[id] < self.slots@.len()
    }

    /// A well-formed manager holds finitely many handlers.
    pub proof fn lemma_registered_finite(&self)
        requires
            self.wf(),
        ensures
            self.registered().dom().finite(),
    {
        assert(self.registered().dom() =~= self.handlers@.dom());
    }

    /// No handlers.
    pub fn new() -> (r: Self)
        ensures
            r.wf(),
            r.registered() == Map::<Seq<char>, H>::empty(),
    {
        let r = ClientMessageManager { handlers: NameMap::new(), slots: Vec::new() };
        assert(r.registered() =~= Map::<Seq<char>, H>::empty());
        r
    }

    /// Registers `handler` under `id`, which no registered handler may have.
    pub fn register_as(&mut self, id: String, handler: H)
        requires
            old(self).wf(),
            !old(self).registered().contains_key(id@),
        ensures
            final(self).wf(),
            final(self).registered() == old(self).registered().insert(id@, handler),
    {
        let ghost before = self.registered();
        let ghost key = id@;
        let slot = self.slots.len();
        self.handlers.insert(id, slot);
        self.slots.push(handler);
        assert(self.registered() =~= before.insert(key, handler));
    }

    /// Registers `handler` under the identifier it answers to, as its `get_id`
    /// gives it, and gives back the manager; where a handler is already registered
    /// under that identifier, nothing changes and the answer is `None`.
    pub fn register_handler(&mut self, handler: H) -> (r: Option<&Self>)
        requires
            old(self).wf(),
        ensures
            final(self).wf(),
            r matches Some(m) ==> *m == *final(self),
            exists|id: String|
                #![trigger old(self).registered().contains_key(id@)]
                {
                    &&& call_ensures(H::get_id, (&handler,), id)
                    &&& r is Some == !old(self).registered().contains_key(id@)
                    &&& final(self).registered() == (if r is Some {
                        old(self).registered().insert(id@, handler)
                    } else {
                        old(self).registered()
                    })
                    &&& final(self).registered().len() == old(self).registered().len() + (if r is Some {
                        1int
                    } else {
                        0int
                    })
                },
    {
        proof {
            self.lemma_registered_finite();
        }
        let id = handler.get_id();
        let ghost given = id;
        assert(call_ensures(H::get_id, (&handler,), given));
        if self.handlers.contains_key(&id) {
            assert(old(self).registered().contains_key(given@));
            return None;
        }
        self.register_as(id, handler);
        assert(!old(self).registered().contains_key(given@) && self.registered() == old(self).registered().insert(
            given@,
            handler,
        ));
        assert(self.registered().len() == old(self).registered().len() + 1);
        Some(self)
    }

    /// The handler registered under `id`, if any.
    pub fn handler_for(&self, id: &String) -> (r: Option<&H>)
        requires
            self.wf(),
        ensures
            r is Some == self.registered().contains_key(id@),
            r matches Some(h) ==> *h == self.registered()[id@],
    {
        match self.handlers.get(id) {
            Some(slot) => Some(&self.slots[slot]),
            None => None,
        }
    }
}

/// A handler that was registered is found again: after `register_as` of `handler`
/// under `id`, looking up `id` gives it back, and every other identifier finds what
/// it found before.
pub proof fn lemma_found_after_register<H: ClientMessageHandler>(
    before: ClientMessageManager<H>,
    after: ClientMessageManager<H>,
    id: Seq<char>,
    handler: H,
    other: Seq<char>,
)
    requires
        after.registered() == before.registered().insert(id, handler),
    ensures
        after.registered().contains_key(id),
        after.registered()[id] == handler,
        other != id ==> after.registered().contains_key(other) == before.registered().contains_key(other),
        other != id && before.registered().contains_key(other) ==> after.registered()[other]
            == before.registered()[other],
{
}

} // verus!
