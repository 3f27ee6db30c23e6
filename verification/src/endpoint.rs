//! Endpoints: the machines that a client shows workspaces of.
use vstd::prelude::*;

verus! {

/// Which machine: the one that the client runs on, or another by its name.
#[derive(Debug, PartialEq, Eq)]
pub enum ClientEndpointId {
    Local,
    Remote(String),
}

/// An endpoint id by its characters.
pub enum EndpointIdView {
    Local,
    Remote(Seq<char>),
}

impl View for ClientEndpointId {
    type V = EndpointIdView;

    open spec fn view(&self) -> EndpointIdView {
        match self {
            ClientEndpointId::Local => EndpointIdView::Local,
            ClientEndpointId::Remote(name) => EndpointIdView::Remote(name@),
        }
    }
}

impl Clone for ClientEndpointId {
    fn clone(&self) -> (copy: Self)
        ensures
            copy == *self,
    {
        match self {
            ClientEndpointId::Local => ClientEndpointId::Local,
            ClientEndpointId::Remote(name) => ClientEndpointId::Remote(name.clone()),
        }
    }
}

impl ClientEndpointId {
    /// Whether it is the machine that the client runs on.
    pub fn is_local(&self) -> (local: bool)
        ensures
            local == (self@ is Local),
    {
        matches!(self, ClientEndpointId::Local)
    }

    /// Whether both are the same machine.
    pub fn same(&self, other: &ClientEndpointId) -> (same: bool)
        ensures
            same == (self@ == other@),
    {
        match (self, other) {
            (ClientEndpointId::Local, ClientEndpointId::Local) => true,
            (ClientEndpointId::Remote(a), ClientEndpointId::Remote(b)) => *a == *b,
            _ => false,
        }
    }
}

/// A set of endpoints.
#[derive(Debug, PartialEq, Eq)]
pub struct EndpointSet {
    ids: Vec<ClientEndpointId>,
}

impl View for EndpointSet {
    type V = Set<EndpointIdView>;

    closed spec fn view(&self) -> Set<EndpointIdView> {
        self.ids@.map_values(|id: ClientEndpointId| id@).to_set()
    }
}

impl EndpointSet {
    /// No endpoint is held twice.
    #[verifier::type_invariant]
    closed spec fn distinct(self) -> bool {
        forall|i: int, j: int|
            0 <= i < j < self.ids@.len() ==> (#[trigger] self.ids@[i])@ != (
            #[trigger] self.ids@[j])@
    }

    /// The empty set.
    pub fn new() -> (set: EndpointSet)
        ensures
            set@ == Set::<EndpointIdView>::empty(),
    {
        let set = EndpointSet { ids: Vec::new() };
        assert(set@ =~= Set::<EndpointIdView>::empty());
        set
    }

    proof fn lemma_contains(&self, id: EndpointIdView)
        ensures
            self@.contains(id) <==> exists|i: int|
                0 <= i < self.ids@.len() && (#[trigger] self.ids@[i])@ == id,
    {
        let views = self.ids@.map_values(|id: ClientEndpointId| id@);
        if self@.contains(id) {
            let i = choose|i: int| 0 <= i < views.len() && views[i] == id;
            assert(self.ids@[i]@ == id);
        }
        if exists|i: int| 0 <= i < self.ids@.len() && (#[trigger] self.ids@[i])@ == id {
            let i = choose|i: int| 0 <= i < self.ids@.len() && (#[trigger] self.ids@[i])@ == id;
            assert(views[i] == id);
        }
    }

    fn position(&self, id: &ClientEndpointId) -> (at: Option<usize>)
        ensures
            match at {
                Some(i) => i < self.ids@.len() && self.ids@[i as int]@ == id@,
                None => forall|i: int| 0 <= i < self.ids@.len() ==> (#[trigger] self.ids@[i])@ != id@,
            },
    {
        let mut i: usize = 0;
        while i < self.ids.len()
            invariant
                i <= self.ids@.len(),
                forall|j: int| 0 <= j < i ==> (#[trigger] self.ids@[j])@ != id@,
            decreases self.ids@.len() - i,
        {
            if self.ids[i].same(id) {
                return Some(i);
            }
            i += 1;
        }
        None
    }

    /// Whether `id` is in the set.
    pub fn contains(&self, id: &ClientEndpointId) -> (held: bool)
        ensures
            held == self@.contains(id@),
    {
        proof {
            self.lemma_contains(id@);
        }
        self.position(id).is_some()
    }

    /// Adds `id`; tells whether it was not there before.
    pub fn insert(&mut self, id: ClientEndpointId) -> (added: bool)
        ensures
            final(self)@ == old(self)@.insert(id@),
            added == !old(self)@.contains(id@),
    {
        proof {
            use_type_invariant(&*self);
        }
        if self.contains(&id) {
            assert(self@.insert(id@) =~= self@);
            return false;
        }
        let ghost before = *self;
        let mut ids: Vec<ClientEndpointId> = Vec::new();
        std::mem::swap(&mut ids, &mut self.ids);
        proof {
            before.lemma_contains(id@);
        }
        ids.push(id);
        self.ids = ids;
        proof {
            assert forall|other: EndpointIdView| self@.contains(other)
                == before@.insert(id@).contains(other) by {
                self.lemma_contains(other);
                before.lemma_contains(other);
                if before@.contains(other) {
                    let i = choose|i: int|
                        0 <= i < before.ids@.len() && (#[trigger] before.ids@[i])@ == other;
                    assert(self.ids@[i]@ == other);
                }
                assert(self.ids@[before.ids@.len() as int]@ == id@);
                if self@.contains(other) && other != id@ {
                    let i = choose|i: int|
                        0 <= i < self.ids@.len() && (#[trigger] self.ids@[i])@ == other;
                    assert(before.ids@[i]@ == other);
                }
            }
            assert(self@ =~= before@.insert(id@));
        }
        true
    }

    /// Takes `id` out; tells whether it was there.
    pub fn remove(&mut self, id: &ClientEndpointId) -> (removed: bool)
        ensures
            final(self)@ == old(self)@.remove(id@),
            removed == old(self)@.contains(id@),
    {
        proof {
            use_type_invariant(&*self);
            self.lemma_contains(id@);
        }
        let at = match self.position(id) {
            Some(at) => at,
            None => {
                assert(self@.remove(id@) =~= self@);
                return false;
            },
        };
        let ghost before = *self;
        let mut ids: Vec<ClientEndpointId> = Vec::new();
        std::mem::swap(&mut ids, &mut self.ids);
        ids.remove(at);
        self.ids = ids;
        proof {
            assert forall|other: EndpointIdView| self@.contains(other) == before@.remove(
                id@,
            ).contains(other) by {
                self.lemma_contains(other);
                before.lemma_contains(other);
                if before@.contains(other) && other != id@ {
                    let i = choose|i: int|
                        0 <= i < before.ids@.len() && (#[trigger] before.ids@[i])@ == other;
                    let k = if i < at { i } else { i - 1 };
                    assert(self.ids@[k]@ == other);
                }
                if self@.contains(other) {
                    let i = choose|i: int|
                        0 <= i < self.ids@.len() && (#[trigger] self.ids@[i])@ == other;
                    let k = if i < at { i } else { i + 1 };
                    assert(before.ids@[k]@ == other);
                    assert(before.ids@[at as int]@ == id@);
                }
            }
            assert(self@ =~= before@.remove(id@));
        }
        true
    }
}

} // verus!
