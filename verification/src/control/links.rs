use crate::control::control::{ControlLine, LINE_COUNT};
use crate::link::{any_asserted, with_endpoint, with_state, Callback, Link};
use vstd::prelude::*;

verus! {

/// The control-line network: one link for each control line.
pub struct ControlLinks {
    links: Vec<Link>,
}

impl ControlLinks {
    /// There is one well-formed link for each line.
    pub closed spec fn wf(&self) -> bool {
        &&& self.links@.len() == LINE_COUNT
        &&& forall|n: int| 0 <= n < LINE_COUNT ==> (#[trigger] self.links@[n]).wf()
    }

    /// The endpoints of the link of `line`, by owner.
    pub closed spec fn endpoints(&self, line: ControlLine) -> Map<Seq<char>, bool> {
        self.links@[line.number() as int]@
    }

    /// The callbacks bound to the link of `line`.
    pub closed spec fn callbacks(&self, line: ControlLine) -> Seq<Callback> {
        self.links@[line.number() as int].callbacks()
    }

    /// Whether `line` is high: whether any of its endpoints is asserted.
    pub open spec fn state(&self, line: ControlLine) -> bool {
        any_asserted(self.endpoints(line))
    }

    /// A network in which no link has an endpoint or a callback.
    pub fn new() -> (network: Self)
        ensures
            network.wf(),
            forall|line: ControlLine|
                #[trigger] network.endpoints(line) == Map::<Seq<char>, bool>::empty(),
            forall|line: ControlLine| #[trigger] network.callbacks(line) == Seq::<Callback>::empty(),
    {
        let mut links: Vec<Link> = Vec::new();
        let mut n: usize = 0;
        while n < LINE_COUNT
            invariant
                n <= LINE_COUNT,
                links@.len() == n,
                forall|k: int|
                    0 <= k < n ==> {
                        &&& (#[trigger] links@[k]).wf()
                        &&& links@[k]@ == Map::<Seq<char>, bool>::empty()
                        &&& links@[k].callbacks() == Seq::<Callback>::empty()
                    },
            decreases LINE_COUNT - n,
        {
            links.push(Link::new());
            n += 1;
        }
        Self { links }
    }

    /// The link of `line`.
    pub fn get(&self, line: ControlLine) -> (link: &Link)
        requires
            self.wf(),
        ensures
            link.wf(),
            link@ == self.endpoints(line),
            link.callbacks() == self.callbacks(line),
    {
        &self.links[line.index()]
    }

    /// Whether `line` is high.
    pub fn get_state(&self, line: ControlLine) -> (state: bool)
        requires
            self.wf(),
        ensures
            state == self.state(line),
    {
        self.links[line.index()].get_state()
    }

    /// Registers `owner` on the link of `line`, with a released endpoint.
    pub fn add_endpoint(&mut self, line: ControlLine, owner: String)
        requires
            old(self).wf(),
        ensures
            final(self).wf(),
            final(self).endpoints(line) == with_endpoint(old(self).endpoints(line), owner@),
            forall|other: ControlLine|
                other != line ==> #[trigger] final(self).endpoints(other) == old(self).endpoints(
                    other,
                ),
            forall|any: ControlLine| #[trigger] final(self).callbacks(any) == old(self).callbacks(any),
    {
        let n = line.index();
        self.links[n].add_endpoint(owner);
        assert forall|other: ControlLine| other != line implies #[trigger] self.endpoints(other)
            == old(self).endpoints(other) by {
            assert(other.number() != line.number());
        }
        assert forall|any: ControlLine| #[trigger] self.callbacks(any) == old(self).callbacks(
            any,
        ) by {}
    }

    /// Sets the endpoint of `owner` on the link of `line`, if it has one,
    /// and reports the callbacks bound to that link.
    pub fn set_endpoint(&mut self, line: ControlLine, owner: String, state: bool) -> (fired: Vec<
        Callback,
    >)
        requires
            old(self).wf(),
        ensures
            final(self).wf(),
            final(self).endpoints(line) == with_state(old(self).endpoints(line), owner@, state),
            forall|other: ControlLine|
                other != line ==> #[trigger] final(self).endpoints(other) == old(self).endpoints(
                    other,
                ),
            forall|any: ControlLine| #[trigger] final(self).callbacks(any) == old(self).callbacks(any),
            fired@ == old(self).callbacks(line),
    {
        let n = line.index();
        let fired = self.links[n].set_endpoint(owner, state);
        assert forall|other: ControlLine| other != line implies #[trigger] self.endpoints(other)
            == old(self).endpoints(other) by {
            assert(other.number() != line.number());
        }
        assert forall|any: ControlLine| #[trigger] self.callbacks(any) == old(self).callbacks(
            any,
        ) by {}
        fired
    }

    /// Binds `callback` to the link of `line`.
    pub fn add_callback(&mut self, line: ControlLine, callback: Callback)
        requires
            old(self).wf(),
        ensures
            final(self).wf(),
            final(self).callbacks(line) == old(self).callbacks(line).push(callback),
            forall|other: ControlLine|
                other != line ==> #[trigger] final(self).callbacks(other) == old(self).callbacks(
                    other,
                ),
            forall|any: ControlLine| #[trigger] final(self).endpoints(any) == old(self).endpoints(any),
    {
        let n = line.index();
        self.links[n].add_callback(callback);
        assert forall|other: ControlLine| other != line implies #[trigger] self.callbacks(other)
            == old(self).callbacks(other) by {
            assert(other.number() != line.number());
        }
        assert forall|any: ControlLine| #[trigger] self.endpoints(any) == old(self).endpoints(
            any,
        ) by {}
    }
}

} // verus!
