//! Relaying lines of text to every registered connection.
//!
//! The relay knows the connections by the numbers under which they were
//! registered with it. For each line of text it says which connection is to
//! be sent what; the sending itself is left to the caller, who goes on with
//! the next delivery where one fails.

use crate::framing::{frame_line, framed};
use vstd::prelude::*;
use vstd::string::*;

verus! {

/// One line to send to one connection.
#[derive(Debug, Clone, PartialEq, Eq)]
pub struct Delivery {
    /// The connection to send to.
    pub target: usize,
    /// What to send, terminator included, in one write.
    pub line: String,
}

/// A [`Delivery`] as a mathematical value.
pub struct DeliveryView {
    pub target: usize,
    pub line: Seq<char>,
}

impl View for Delivery {
    type V = DeliveryView;

    open spec fn view(&self) -> DeliveryView {
        DeliveryView { target: self.target, line: self.line@ }
    }
}

/// The deliveries `deliveries` as mathematical values.
pub open spec fn delivery_views(deliveries: Seq<Delivery>) -> Seq<DeliveryView> {
    Seq::new(deliveries.len(), |i: int| deliveries[i]@)
}

/// The deliveries that relay `text` to `targets`: one for each target, in
/// the order of the targets, each with `text` and the terminator.
pub open spec fn deliveries_of(targets: Seq<usize>, text: Seq<char>) -> Seq<DeliveryView> {
    Seq::new(targets.len(), |i: int| DeliveryView { target: targets[i], line: framed(text) })
}

/// The connections to which lines are relayed, in the order in which they
/// registered.
#[derive(Debug, Clone, PartialEq, Eq)]
pub struct Relay {
    targets: Vec<usize>,
}

impl View for Relay {
    type V = Seq<usize>;

    closed spec fn view(&self) -> Seq<usize> {
        self.targets@
    }
}

impl Relay {
    /// A relay that knows no connection yet.
    pub fn new() -> (relay: Self)
        ensures
            relay@ == Seq::<usize>::empty(),
    {
        Relay { targets: Vec::new() }
    }

    /// The number of connections that the relay knows.
    pub fn len(&self) -> (count: usize)
        ensures
            count == self@.len(),
    {
        self.targets.len()
    }

    /// Takes note of a connection that has completed its registration.
    pub fn register(&mut self, target: usize)
        ensures
            final(self)@ == old(self)@.push(target),
    {
        self.targets.push(target);
    }

    /// Says what to send for one line of text: the line, with the
    /// terminator, to every connection that the relay knows.
    pub fn broadcast(&self, text: &str) -> (deliveries: Vec<Delivery>)
        ensures
            delivery_views(deliveries@) == deliveries_of(self@, text@),
    {
        let mut deliveries: Vec<Delivery> = Vec::new();
        let mut i: usize = 0;
        while i < self.targets.len()
            invariant
                i <= self.targets.len(),
                deliveries@.len() == i,
                forall|j: int|
                    0 <= j < i ==> (#[trigger] deliveries@[j])@ == (DeliveryView {
                        target: self.targets@[j],
                        line: framed(text@),
                    }),
            decreases self.targets.len() - i,
        {
            deliveries.push(Delivery { target: self.targets[i], line: frame_line(text) });
            i = i + 1;
        }
        assert(delivery_views(deliveries@) =~= deliveries_of(self@, text@));
        deliveries
    }

    /// Relays one line of text. The connections in `arrivals`, which have
    /// registered since the line before, are taken note of first, so that
    /// they receive this line too.
    pub fn relay_line(&mut self, arrivals: &Vec<usize>, text: &str) -> (deliveries: Vec<Delivery>)
        ensures
            final(self)@ == old(self)@ + arrivals@,
            delivery_views(deliveries@) == deliveries_of(final(self)@, text@),
    {
        let mut i: usize = 0;
        while i < arrivals.len()
            invariant
                i <= arrivals.len(),
                self@ == old(self)@ + arrivals@.take(i as int),
            decreases arrivals.len() - i,
        {
            self.register(arrivals[i]);
            assert(arrivals@.take(i + 1) =~= arrivals@.take(i as int).push(arrivals@[i as int]));
            i = i + 1;
        }
        assert(arrivals@.take(i as int) =~= arrivals@);
        self.broadcast(text)
    }
}

} // verus!
