use vstd::prelude::*;

verus! {

/// What can be bound to a link, to happen each time one of its endpoints
/// is set. The owner of the units carries it out when the link reports it.
#[derive(Copy, Clone, PartialEq, Eq, Structural, Debug)]
pub enum Callback {
    /// The adder drives the sum of the two operand registers onto the bus.
    AluSum,
    /// The adder drives the difference of the two operand registers onto
    /// the bus.
    AluDifference,
    /// The run ends.
    Halt,
}

/// One participant of a link and whether it asserts the line.
pub struct Endpoint {
    pub owner: String,
    pub asserted: bool,
}

/// A control line shared by several owners: each owner asserts or releases
/// its own endpoint, and the line is high while any endpoint is asserted.
pub struct Link {
    endpoints: Vec<Endpoint>,
    callbacks: Vec<Callback>,
}

/// Whether `owner` has an endpoint among `endpoints`.
pub open spec fn has_owner(endpoints: Seq<Endpoint>, owner: Seq<char>) -> bool {
    exists|i: int| 0 <= i < endpoints.len() && #[trigger] endpoints[i].owner@ == owner
}

/// The place of `owner`'s endpoint among `endpoints`.
pub open spec fn slot_of(endpoints: Seq<Endpoint>, owner: Seq<char>) -> int {
    choose|i: int| 0 <= i < endpoints.len() && #[trigger] endpoints[i].owner@ == owner
}

/// No owner has two endpoints.
pub open spec fn distinct_owners(endpoints: Seq<Endpoint>) -> bool {
    forall|i: int, j: int|
        0 <= i < j < endpoints.len() ==> #[trigger] endpoints[i].owner@
            != #[trigger] endpoints[j].owner@
}

/// The endpoints as a map from owner to assertion.
pub open spec fn endpoint_map(endpoints: Seq<Endpoint>) -> Map<Seq<char>, bool> {
    Map::new(
        |owner: Seq<char>| has_owner(endpoints, owner),
        |owner: Seq<char>| endpoints[slot_of(endpoints, owner)].asserted,
    )
}

/// The state of a line with these endpoints: high when any is asserted.
pub open spec fn any_asserted(endpoints: Map<Seq<char>, bool>) -> bool {
    exists|owner: Seq<char>| endpoints.contains_key(owner) && #[trigger] endpoints[owner]
}

/// The endpoints after `owner` registered: its endpoint is there and
/// released, the others are as before.
pub open spec fn with_endpoint(endpoints: Map<Seq<char>, bool>, owner: Seq<char>) -> Map<
    Seq<char>,
    bool,
> {
    endpoints.insert(owner, false)
}

/// The endpoints after `owner` set its endpoint to `state`: nothing
/// changes for an owner that never registered.
pub open spec fn with_state(endpoints: Map<Seq<char>, bool>, owner: Seq<char>, state: bool) -> Map<
    Seq<char>,
    bool,
> {
    if endpoints.contains_key(owner) {
        endpoints.insert(owner, state)
    } else {
        endpoints
    }
}

impl View for Link {
    type V = Map<Seq<char>, bool>;

    closed spec fn view(&self) -> Map<Seq<char>, bool> {
        endpoint_map(self.endpoints@)
    }
}

impl Link {
    /// No owner has two endpoints.
    pub closed spec fn wf(&self) -> bool {
        distinct_owners(self.endpoints@)
    }

    /// The callbacks bound to the link, in the order in which they were
    /// added.
    pub closed spec fn callbacks(&self) -> Seq<Callback> {
        self.callbacks@
    }

    /// A link without endpoints and without callbacks.
    pub fn new() -> (link: Self)
        ensures
            link.wf(),
            link@ == Map::<Seq<char>, bool>::empty(),
            link.callbacks() == Seq::<Callback>::empty(),
    {
        let link = Self { endpoints: Vec::new(), callbacks: Vec::new() };
        assert(link@ =~= Map::<Seq<char>, bool>::empty());
        link
    }

    /// Where the endpoint of `owner` is kept, if it has one.
    fn find(&self, owner: &String) -> (found: Option<usize>)
        ensures
            match found {
                Some(i) => i < self.endpoints@.len() && self.endpoints@[i as int].owner@ == owner@,
                None => !has_owner(self.endpoints@, owner@),
            },
    {
        let mut i: usize = 0;
        while i < self.endpoints.len()
            invariant
                i <= self.endpoints@.len(),
                forall|k: int| 0 <= k < i ==> self.endpoints@[k].owner@ != owner@,
            decreases self.endpoints@.len() - i,
        {
            if self.endpoints[i].owner == *owner {
                return Some(i);
            }
            i += 1;
        }
        None
    }

    /// Registers `ep_indentifier` with a released endpoint. An owner that
    /// is registered already has its endpoint released.
    pub fn add_endpoint(&mut self, ep_indentifier: String)
        requires
            old(self).wf(),
        ensures
            final(self).wf(),
            final(self)@ == with_endpoint(old(self)@, ep_indentifier@),
            final(self).callbacks() == old(self).callbacks(),
    {
        let ghost before = self.endpoints@;
        let ghost owner = ep_indentifier@;
        match self.find(&ep_indentifier) {
            Some(i) => {
                self.endpoints.set(i, Endpoint { owner: ep_indentifier, asserted: false });
                proof {
                    lemma_map_after_set(before, self.endpoints@, i as int, false);
                }
            },
            None => {
                self.endpoints.push(Endpoint { owner: ep_indentifier, asserted: false });
                proof {
                    assert(self.endpoints@.drop_last() =~= before);
                    lemma_map_after_push(before, self.endpoints@);
                }
            },
        }
    }

    /// Sets the endpoint of `ep_indentifier`, if it has one, to `state`,
    /// and reports every callback bound to the link, in order, for the
    /// caller to carry out: on every call, whether or not the line changed.
    pub fn set_endpoint(&mut self, ep_indentifier: String, state: bool) -> (fired: Vec<Callback>)
        requires
            old(self).wf(),
        ensures
            final(self).wf(),
            final(self)@ == with_state(old(self)@, ep_indentifier@, state),
            final(self).callbacks() == old(self).callbacks(),
            fired@ == old(self).callbacks(),
    {
        let ghost before = self.endpoints@;
        if let Some(i) = self.find(&ep_indentifier) {
            self.endpoints.set(i, Endpoint { owner: ep_indentifier, asserted: state });
            proof {
                lemma_map_after_set(before, self.endpoints@, i as int, state);
            }
        }
        let mut fired: Vec<Callback> = Vec::new();
        let mut k: usize = 0;
        while k < self.callbacks.len()
            invariant
                k <= self.callbacks@.len(),
                fired@ == self.callbacks@.take(k as int),
            decreases self.callbacks@.len() - k,
        {
            fired.push(self.callbacks[k]);
            assert(self.callbacks@.take(k + 1) =~= self.callbacks@.take(k as int).push(
                self.callbacks@[k as int],
            ));
            k += 1;
        }
        assert(self.callbacks@.take(k as int) =~= self.callbacks@);
        fired
    }

    /// Binds `callback` to the link, after those bound before.
    pub fn add_callback(&mut self, callback: Callback)
        ensures
            final(self).wf() == old(self).wf(),
            final(self)@ == old(self)@,
            final(self).callbacks() == old(self).callbacks().push(callback),
    {
        self.callbacks.push(callback);
    }

    /// The state of the line: high when any endpoint is asserted.
    pub fn get_state(&self) -> (state: bool)
        requires
            self.wf(),
        ensures
            state == any_asserted(self@),
    {
        let mut i: usize = 0;
        while i < self.endpoints.len()
            invariant
                i <= self.endpoints@.len(),
                distinct_owners(self.endpoints@),
                forall|k: int| 0 <= k < i ==> !self.endpoints@[k].asserted,
            decreases self.endpoints@.len() - i,
        {
            if self.endpoints[i].asserted {
                proof {
                    lemma_slot(self.endpoints@, i as int);
                    assert(self@.contains_key(self.endpoints@[i as int].owner@));
                    assert(self@[self.endpoints@[i as int].owner@]);
                }
                return true;
            }
            i += 1;
        }
        proof {
            assert forall|owner: Seq<char>| self@.contains_key(owner) implies !#[trigger] self@[owner] by {
                let s = slot_of(self.endpoints@, owner);
                assert(0 <= s < self.endpoints@.len());
            }
        }
        false
    }

    /// Each owner with its assertion.
    pub fn endpoints(&self) -> (list: Vec<(String, bool)>)
        requires
            self.wf(),
        ensures
            list@.len() == self@.dom().len(),
            forall|i: int|
                0 <= i < list@.len() ==> self@.contains_key(#[trigger] list@[i].0@) && self@[list@[i].0@]
                    == list@[i].1,
            forall|owner: Seq<char>|
                self@.contains_key(owner) ==> exists|i: int|
                    0 <= i < list@.len() && #[trigger] list@[i].0@ == owner,
    {
        let mut list: Vec<(String, bool)> = Vec::new();
        let mut i: usize = 0;
        while i < self.endpoints.len()
            invariant
                i <= self.endpoints@.len(),
                list@.len() == i,
                forall|k: int|
                    0 <= k < i ==> (#[trigger] list@[k]).0@ == self.endpoints@[k].owner@ && list@[k].1
                        == self.endpoints@[k].asserted,
            decreases self.endpoints@.len() - i,
        {
            list.push((self.endpoints[i].owner.clone(), self.endpoints[i].asserted));
            i += 1;
        }
        proof {
            lemma_owner_count(self.endpoints@);
            assert forall|k: int| 0 <= k < list@.len() implies self@.contains_key(
                #[trigger] list@[k].0@,
            ) && self@[list@[k].0@] == list@[k].1 by {
                lemma_slot(self.endpoints@, k);
            }
            assert forall|owner: Seq<char>| self@.contains_key(owner) implies exists|k: int|
                0 <= k < list@.len() && #[trigger] list@[k].0@ == owner by {
                let s = slot_of(self.endpoints@, owner);
                assert(list@[s].0@ == owner);
            }
        }
        list
    }
}

/// With distinct owners, the endpoint at `i` is the one found for its owner.
proof fn lemma_slot(endpoints: Seq<Endpoint>, i: int)
    requires
        distinct_owners(endpoints),
        0 <= i < endpoints.len(),
    ensures
        has_owner(endpoints, endpoints[i].owner@),
        slot_of(endpoints, endpoints[i].owner@) == i,
{
    let owner = endpoints[i].owner@;
    assert(endpoints[i].owner@ == owner);
    let s = slot_of(endpoints, owner);
    assert(0 <= s < endpoints.len() && endpoints[s].owner@ == owner);
    if s < i {
        assert(endpoints[s].owner@ != endpoints[i].owner@);
    } else if i < s {
        assert(endpoints[i].owner@ != endpoints[s].owner@);
    }
}

/// Replacing the assertion at `i` is an insertion into the map.
proof fn lemma_map_after_set(before: Seq<Endpoint>, after: Seq<Endpoint>, i: int, state: bool)
    requires
        distinct_owners(before),
        0 <= i < before.len(),
        after.len() == before.len(),
        after[i].owner@ == before[i].owner@,
        after[i].asserted == state,
        forall|k: int| 0 <= k < before.len() && k != i ==> after[k] == before[k],
    ensures
        distinct_owners(after),
        endpoint_map(after) == endpoint_map(before).insert(before[i].owner@, state),
{
    assert forall|k: int| 0 <= k < before.len() implies #[trigger] after[k].owner@
        == before[k].owner@ by {}
    assert(distinct_owners(after)) by {
        assert forall|a: int, b: int| 0 <= a < b < after.len() implies #[trigger] after[a].owner@
            != #[trigger] after[b].owner@ by {
            assert(before[a].owner@ != before[b].owner@);
        }
    }
    let target = endpoint_map(before).insert(before[i].owner@, state);
    assert forall|owner: Seq<char>| has_owner(after, owner) == has_owner(before, owner) by {
        if has_owner(after, owner) {
            let s = slot_of(after, owner);
            assert(before[s].owner@ == owner);
        }
        if has_owner(before, owner) {
            let s = slot_of(before, owner);
            assert(after[s].owner@ == owner);
        }
    }
    lemma_slot(before, i);
    assert forall|owner: Seq<char>| #[trigger] target.contains_key(owner) implies endpoint_map(
        after,
    )[owner] == target[owner] by {
        let s = slot_of(after, owner);
        assert(0 <= s < after.len() && after[s].owner@ == owner);
        lemma_slot(after, s);
        lemma_slot(before, s);
    }
    assert(endpoint_map(after) =~= target);
}

/// Adding the released endpoint of a new owner is an insertion into the map.
proof fn lemma_map_after_push(before: Seq<Endpoint>, after: Seq<Endpoint>)
    requires
        distinct_owners(before),
        after.len() == before.len() + 1,
        after.drop_last() == before,
        !after.last().asserted,
        !has_owner(before, after.last().owner@),
    ensures
        distinct_owners(after),
        endpoint_map(after) == endpoint_map(before).insert(after.last().owner@, false),
{
    let added = after.last().owner@;
    assert forall|k: int| 0 <= k < before.len() implies #[trigger] after[k] == before[k] by {
        assert(after.drop_last()[k] == after[k]);
    }
    assert(distinct_owners(after)) by {
        assert forall|a: int, b: int| 0 <= a < b < after.len() implies #[trigger] after[a].owner@
            != #[trigger] after[b].owner@ by {
            if b < before.len() {
                assert(before[a].owner@ != before[b].owner@);
            } else {
                assert(before[a].owner@ == after[a].owner@);
            }
        }
    }
    let target = endpoint_map(before).insert(added, false);
    assert forall|owner: Seq<char>| has_owner(after, owner) == (owner == added || has_owner(
        before,
        owner,
    )) by {
        if has_owner(after, owner) {
            let s = slot_of(after, owner);
            if s < before.len() {
                assert(before[s].owner@ == owner);
            }
        }
        if has_owner(before, owner) {
            let s = slot_of(before, owner);
            assert(after[s].owner@ == owner);
        }
        if owner == added {
            assert(after[after.len() - 1].owner@ == owner);
        }
    }
    assert forall|owner: Seq<char>| #[trigger] target.contains_key(owner) implies endpoint_map(
        after,
    )[owner] == target[owner] by {
        let s = slot_of(after, owner);
        assert(0 <= s < after.len() && after[s].owner@ == owner);
        lemma_slot(after, s);
        if s < before.len() {
            lemma_slot(before, s);
        }
    }
    assert(endpoint_map(after) =~= target);
}

/// With distinct owners the map has one key for each endpoint.
proof fn lemma_owner_count(endpoints: Seq<Endpoint>)
    requires
        distinct_owners(endpoints),
    ensures
        endpoint_map(endpoints).dom().finite(),
        endpoint_map(endpoints).dom().len() == endpoints.len(),
    decreases endpoints.len(),
{
    if endpoints.len() == 0 {
        assert(endpoint_map(endpoints).dom() =~= Set::<Seq<char>>::empty());
    } else {
        let init = endpoints.drop_last();
        let added = endpoints.last().owner@;
        assert forall|k: int| 0 <= k < init.len() implies #[trigger] init[k] == endpoints[k] by {}
        assert(distinct_owners(init)) by {
            assert forall|a: int, b: int| 0 <= a < b < init.len() implies #[trigger] init[a].owner@
                != #[trigger] init[b].owner@ by {
                assert(endpoints[a].owner@ != endpoints[b].owner@);
            }
        }
        lemma_owner_count(init);
        if has_owner(init, added) {
            let s = slot_of(init, added);
            assert(endpoints[s].owner@ != endpoints[endpoints.len() - 1].owner@);
        }
        assert(endpoint_map(endpoints).dom() =~= endpoint_map(init).dom().insert(added)) by {
            assert forall|owner: Seq<char>| has_owner(endpoints, owner) == (owner == added
                || has_owner(init, owner)) by {
                if has_owner(endpoints, owner) {
                    let s = slot_of(endpoints, owner);
                    if s < init.len() {
                        assert(init[s].owner@ == owner);
                    }
                }
                if has_owner(init, owner) {
                    let s = slot_of(init, owner);
                    assert(endpoints[s].owner@ == owner);
                }
                if owner == added {
                    assert(endpoints[endpoints.len() - 1].owner@ == owner);
                }
            }
        }
    }
}

/// How a line follows its endpoints. Registering an owner on a line on
/// which nothing is asserted leaves the line low. Asserting a registered
/// endpoint raises the line whatever the other endpoints hold. Releasing
/// the only asserted endpoint brings the line back low.
pub proof fn lemma_line_follows_endpoints(endpoints: Map<Seq<char>, bool>, owner: Seq<char>)
    ensures
        !any_asserted(endpoints) ==> !any_asserted(with_endpoint(endpoints, owner)),
        endpoints.contains_key(owner) ==> any_asserted(with_state(endpoints, owner, true)),
        endpoints.contains_key(owner) && (forall|other: Seq<char>|
            endpoints.contains_key(other) && other != owner ==> !#[trigger] endpoints[other])
            ==> !any_asserted(with_state(endpoints, owner, false)),
        !endpoints.contains_key(owner) ==> forall|state: bool|
            #[trigger] with_state(endpoints, owner, state) == endpoints,
{
    if !any_asserted(endpoints) {
        let after = with_endpoint(endpoints, owner);
        assert forall|other: Seq<char>| after.contains_key(other) implies !#[trigger] after[other] by {
            if other != owner {
                assert(endpoints.contains_key(other));
                assert(!endpoints[other]);
            }
        }
    }
    if endpoints.contains_key(owner) {
        let raised = with_state(endpoints, owner, true);
        assert(raised.contains_key(owner) && raised[owner]);
    }
}

} // verus!
