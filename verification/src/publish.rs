//! The publisher registry: accounts register as publishers with their
//! details, and the marketplace consults the registry before accepting a
//! listing.

use crate::store::AccountMap;
use crate::types::{PublisherDetails, PublisherId};
use vstd::prelude::*;

verus! {

/// A notification emitted by the publisher registry.
#[derive(Clone, Copy, PartialEq, Eq, Structural, Debug)]
pub enum Event {
    /// A publisher has been added.
    PublisherAdded {
        /// The account which was added.
        publisher: PublisherId,
    },
}

/// A failure reported by the publisher registry.
#[derive(Clone, Copy, PartialEq, Eq, Structural, Debug)]
pub enum Error {
    /// The publisher already exists.
    PublisherAlreadyExists,
    /// The publisher details are invalid.
    PublisherDetailsInvalid,
}

/// The registry of publishers, a map from accounts to publisher details.
pub struct PublisherRegistry {
    publishers: AccountMap<PublisherDetails>,
    events: Vec<Event>,
}

impl View for PublisherRegistry {
    type V = Map<int, PublisherDetails>;

    closed spec fn view(&self) -> Map<int, PublisherDetails> {
        self.publishers@
    }
}

impl PublisherRegistry {
    /// The registry's internal invariant.
    pub closed spec fn wf(&self) -> bool {
        self.publishers.wf()
    }

    /// The notifications emitted so far, oldest first.
    pub closed spec fn events(&self) -> Seq<Event> {
        self.events@
    }

    /// Creates an empty registry.
    pub fn new() -> (r: Self)
        ensures
            r.wf(),
            r@ == Map::<int, PublisherDetails>::empty(),
            r.events() == Seq::<Event>::empty(),
    {
        PublisherRegistry { publishers: AccountMap::new(), events: Vec::new() }
    }

    /// Adds a new publisher. Fails if the account is already registered or
    /// the details are invalid; a failed call changes nothing.
    pub fn publisher_add(&mut self, publisher: PublisherId, details: PublisherDetails) -> (r:
        Result<(), Error>)
        requires
            old(self).wf(),
        ensures
            final(self).wf(),
            r is Ok <==> (!old(self)@.contains_key(publisher as int) && details.valid_spec()),
            r is Ok ==> final(self)@ == old(self)@.insert(publisher as int, details),
            r is Ok ==> final(self).events() == old(self).events().push(
                Event::PublisherAdded { publisher },
            ),
            r is Err ==> *final(self) == *old(self),
            r == Err::<(), Error>(Error::PublisherAlreadyExists) <==> old(self)@.contains_key(
                publisher as int,
            ),
            r == Err::<(), Error>(Error::PublisherDetailsInvalid) <==> (!old(self)@.contains_key(
                publisher as int,
            ) && !details.valid_spec()),
    {
        if self.publishers.contains_key(publisher) {
            return Err(Error::PublisherAlreadyExists);
        }
        if !details.is_valid() {
            return Err(Error::PublisherDetailsInvalid);
        }
        self.publishers.insert_new(publisher, details);
        self.events.push(Event::PublisherAdded { publisher });
        Ok(())
    }

    /// Whether an account is a registered publisher.
    pub fn is_valid_publisher(&self, publisher: PublisherId) -> (r: bool)
        requires
            self.wf(),
        ensures
            r == self@.contains_key(publisher as int),
    {
        self.publishers.contains_key(publisher)
    }

    /// Inserts a publisher unconditionally, replacing any registered details.
    pub fn insert_publisher(&mut self, publisher: PublisherId, details: PublisherDetails)
        requires
            old(self).wf(),
        ensures
            final(self).wf(),
            final(self)@ == old(self)@.insert(publisher as int, details),
            final(self).events() == old(self).events(),
    {
        self.publishers.set(publisher, details);
    }

    /// The registered details of a publisher, if any.
    pub fn get(&self, publisher: PublisherId) -> (r: Option<&PublisherDetails>)
        requires
            self.wf(),
        ensures
            match r {
                Some(details) => self@.contains_key(publisher as int) && self@[publisher as int]
                    == *details,
                None => !self@.contains_key(publisher as int),
            },
    {
        self.publishers.get(publisher)
    }

    /// The most recent notification, if any was emitted.
    pub fn last_event(&self) -> (r: Option<&Event>)
        ensures
            match r {
                Some(e) => self.events().len() > 0 && *e == self.events().last(),
                None => self.events().len() == 0,
            },
    {
        if self.events.len() == 0 {
            None
        } else {
            Some(&self.events[self.events.len() - 1])
        }
    }
}

} // verus!
