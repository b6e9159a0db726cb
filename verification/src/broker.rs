//! Broker/registry wiring protocol: exactly one inbound aggregation
//! channel and one outbound broadcast channel exist per process, built
//! once at startup, and every connection gets a private pair of handles.
//!
//! The channels themselves are unverified concurrency primitives owned by
//! the surrounding process; this type is the authority over the wiring
//! protocol.  It tracks whether the one-time construction has happened and
//! numbers the subscriptions handed out.  Calling [`ClientCreator::init`]
//! twice, or [`ClientCreator::create`] before `init`, is a programming
//! error that the process fails fast on, so both are excluded by contract.

use vstd::prelude::*;

verus! {

/// Factory handing each new connection its private channel-handle pair.
pub struct ClientCreator {
    initialized: bool,
    subscriptions: u64,
}

impl ClientCreator {
    /// Whether the one-time channel construction has happened.
    pub closed spec fn is_initialized(&self) -> bool {
        self.initialized
    }

    /// How many connection endpoints have been handed out.
    pub closed spec fn subscription_count(&self) -> u64 {
        self.subscriptions
    }

    /// A factory whose channels are not yet constructed.
    pub fn new() -> (c: Self)
        ensures
            !c.is_initialized(),
            c.subscription_count() == 0,
    {
        Self { initialized: false, subscriptions: 0 }
    }

    /// Records the one-time construction of the process-wide channel pair.
    /// Callable exactly once per process, before any [`Self::create`] call
    /// and before the authority begins consuming.
    pub fn init(&mut self)
        requires
            !old(self).is_initialized(),
        ensures
            final(self).is_initialized(),
            final(self).subscription_count() == old(self).subscription_count(),
    {
        self.initialized = true;
    }

    /// Hands a new connection its endpoint, numbering the subscription.
    /// Each subscription is independent: a slow subscriber affects neither
    /// other subscribers nor the authority.  Callable any number of times
    /// after [`Self::init`].
    pub fn create(&mut self) -> (subscription: u64)
        requires
            old(self).is_initialized(),
            old(self).subscription_count() < u64::MAX,
        ensures
            final(self).is_initialized(),
            final(self).subscription_count() == old(self).subscription_count() + 1,
            subscription == old(self).subscription_count(),
    {
        let subscription = self.subscriptions;
        self.subscriptions = self.subscriptions + 1;
        subscription
    }
}

} // verus!
