//! The marketplace core: the listing store, the order lifecycle and the
//! ownership index.
//!
//! An order is one pending transaction between exactly one buyer and one
//! `(publisher, game)` pair, materialized as two mirrored index entries that
//! always agree: the by-publisher index `(publisher, game) -> buyer` and the
//! by-buyer index `(buyer, publisher, game) -> deposit`. Placing an order
//! holds the listing price from the buyer; fulfilling it releases the hold
//! into a transfer to the publisher, removes both index entries and grants
//! ownership. Every operation checks all its preconditions before any write:
//! a failed call changes nothing.

use crate::ledger::{HoldReason, Ledger, LedgerError};
use crate::publish::PublisherRegistry;
use crate::store::{ListingMap, OrderMap};
use crate::tags::TagCatalog;
use crate::types::{BuyerId, GameDetails, GameId, OrderDetails, PublisherId};
use vstd::prelude::*;

verus! {

/// A notification emitted by the marketplace.
#[derive(Clone, Copy, PartialEq, Eq, Structural, Debug)]
pub enum Event {
    /// A game has been added.
    GameAdded {
        /// The publisher of the game.
        publisher: PublisherId,
        /// The game id.
        game_id: GameId,
    },
    /// An order has been placed.
    OrderPlaced {
        /// The buyer of the game.
        buyer: BuyerId,
        /// The publisher of the game.
        publisher: PublisherId,
        /// The game id.
        game_id: GameId,
    },
    /// An order has been fulfilled.
    OrderFulfilled {
        /// The buyer of the game.
        buyer: BuyerId,
        /// The publisher of the game.
        publisher: PublisherId,
        /// The game id.
        game_id: GameId,
    },
}

/// A failure reported by the marketplace.
#[derive(Clone, Copy, PartialEq, Eq, Structural, Debug)]
pub enum Error {
    /// The publisher is invalid.
    InvalidPublisher,
    /// The game is not found.
    GameNotFound,
    /// The game already exists (as a listing, or in the buyer's library).
    GameAlreadyExists,
    /// The game details are invalid.
    GameDetailsInvalid,
    /// An order for the game is already pending.
    OrderAlreadyPlaced,
    /// No matching pending order exists.
    OrderNotFound,
    /// The ledger refused to move the funds.
    Funds(LedgerError),
}

/// The key of a listing, in specifications.
pub open spec fn listing_key(publisher: PublisherId, game_id: GameId) -> (int, int) {
    (publisher as int, game_id as int)
}

/// The key of an order or an ownership grant, in specifications.
pub open spec fn order_key(buyer: BuyerId, publisher: PublisherId, game_id: GameId) -> (
    int,
    int,
    int,
) {
    (buyer as int, publisher as int, game_id as int)
}

/// The marketplace state: listings, the two mirrored order indices, the
/// ownership index and the emitted notifications.
pub struct Games {
    published_games: ListingMap<GameDetails>,
    publisher_orders: ListingMap<BuyerId>,
    buyer_orders: OrderMap<OrderDetails>,
    owned_games: OrderMap<()>,
    events: Vec<Event>,
}

impl Games {
    /// The listing store: `(publisher, game) -> details`.
    pub closed spec fn listings(&self) -> Map<(int, int), GameDetails> {
        self.published_games@
    }

    /// The by-publisher order index: `(publisher, game) -> buyer`.
    pub closed spec fn orders_by_publisher(&self) -> Map<(int, int), BuyerId> {
        self.publisher_orders@
    }

    /// The by-buyer order index: `(buyer, publisher, game) -> deposit`.
    pub closed spec fn orders_by_buyer(&self) -> Map<(int, int, int), OrderDetails> {
        self.buyer_orders@
    }

    /// The ownership index: the set of finalized purchases.
    pub closed spec fn owned(&self) -> Set<(int, int, int)> {
        self.owned_games@.dom()
    }

    /// The notifications emitted so far, oldest first.
    pub closed spec fn events(&self) -> Seq<Event> {
        self.events@
    }

    /// The internal invariants of the four stores.
    pub closed spec fn stores_wf(&self) -> bool {
        &&& self.published_games.wf()
        &&& self.publisher_orders.wf()
        &&& self.buyer_orders.wf()
        &&& self.owned_games.wf()
    }

    /// The marketplace invariant. The two order indices are mirror images:
    /// an order under `(buyer, publisher, game)` in the by-buyer index
    /// stands under `(publisher, game)` in the by-publisher index with that
    /// buyer, and conversely. Every order points at an existing listing and
    /// its deposit equals the listing price, and no order exists for a game
    /// the buyer already owns.
    pub open spec fn wf(&self) -> bool {
        &&& self.stores_wf()
        &&& forall|k: (int, int, int)| #[trigger]
            self.orders_by_buyer().contains_key(k) ==> self.orders_by_publisher().contains_key(
                (k.1, k.2),
            ) && self.orders_by_publisher()[(k.1, k.2)] as int == k.0
        &&& forall|k: (int, int)| #[trigger]
            self.orders_by_publisher().contains_key(k) ==> self.orders_by_buyer().contains_key(
                (self.orders_by_publisher()[k] as int, k.0, k.1),
            )
        &&& forall|k: (int, int, int)| #[trigger]
            self.orders_by_buyer().contains_key(k) ==> self.listings().contains_key((k.1, k.2))
                && self.orders_by_buyer()[k].deposit == self.listings()[(k.1, k.2)].price
        &&& forall|k: (int, int, int)| #[trigger]
            self.orders_by_buyer().contains_key(k) ==> !self.owned().contains(k)
    }

    /// Creates an empty marketplace.
    pub fn new() -> (r: Self)
        ensures
            r.wf(),
            r.listings() == Map::<(int, int), GameDetails>::empty(),
            r.orders_by_publisher() == Map::<(int, int), BuyerId>::empty(),
            r.orders_by_buyer() == Map::<(int, int, int), OrderDetails>::empty(),
            r.owned() == Set::<(int, int, int)>::empty(),
            r.events() == Seq::<Event>::empty(),
    {
        let r = Games {
            published_games: ListingMap::new(),
            publisher_orders: ListingMap::new(),
            buyer_orders: OrderMap::new(),
            owned_games: OrderMap::new(),
            events: Vec::new(),
        };
        proof {
            assert(r.owned() =~= Set::<(int, int, int)>::empty());
        }
        r
    }

    /// Publishes a game: checks that the publisher is registered, that the
    /// `(publisher, game_id)` key is free and that the details are valid,
    /// then inserts the listing. A listing is immutable once created: no
    /// update or removal operation exists. A failed call changes nothing.
    pub fn game_add(
        &mut self,
        registry: &PublisherRegistry,
        catalog: &TagCatalog,
        publisher: PublisherId,
        game_id: GameId,
        details: GameDetails,
    ) -> (r: Result<(), Error>)
        requires
            old(self).wf(),
            registry.wf(),
            catalog.wf(),
        ensures
            final(self).wf(),
            r is Ok <==> (registry@.contains_key(publisher as int) && !old(
                self,
            ).listings().contains_key(listing_key(publisher, game_id)) && details.valid_spec(
                catalog@,
            )),
            r is Ok ==> final(self).listings() == old(self).listings().insert(
                listing_key(publisher, game_id),
                details,
            ),
            r is Ok ==> final(self).events() == old(self).events().push(
                Event::GameAdded { publisher, game_id },
            ),
            r is Ok ==> final(self).orders_by_publisher() == old(self).orders_by_publisher(),
            r is Ok ==> final(self).orders_by_buyer() == old(self).orders_by_buyer(),
            r is Ok ==> final(self).owned() == old(self).owned(),
            r is Err ==> *final(self) == *old(self),
            r == Err::<(), Error>(Error::InvalidPublisher) <==> !registry@.contains_key(
                publisher as int,
            ),
            r == Err::<(), Error>(Error::GameAlreadyExists) <==> (registry@.contains_key(
                publisher as int,
            ) && old(self).listings().contains_key(listing_key(publisher, game_id))),
            r == Err::<(), Error>(Error::GameDetailsInvalid) <==> (registry@.contains_key(
                publisher as int,
            ) && !old(self).listings().contains_key(listing_key(publisher, game_id))
                && !details.valid_spec(catalog@)),
    {
        if !registry.is_valid_publisher(publisher) {
            return Err(Error::InvalidPublisher);
        }
        if self.published_games.contains_key(publisher, game_id) {
            return Err(Error::GameAlreadyExists);
        }
        if !details.is_valid(catalog) {
            return Err(Error::GameDetailsInvalid);
        }
        self.published_games.insert_new(publisher, game_id, details);
        self.events.push(Event::GameAdded { publisher, game_id });
        proof {
            assert(self.orders_by_buyer() == old(self).orders_by_buyer());
            assert(self.orders_by_publisher() == old(self).orders_by_publisher());
            assert(self.owned() == old(self).owned());
            assert forall|k: (int, int, int)| #[trigger]
                self.orders_by_buyer().contains_key(k) implies self.listings().contains_key(
                (k.1, k.2),
            ) && self.orders_by_buyer()[k].deposit == self.listings()[(k.1, k.2)].price by {
                assert(old(self).orders_by_buyer().contains_key(k));
                assert(old(self).listings().contains_key((k.1, k.2)));
                assert((k.1, k.2) != listing_key(publisher, game_id));
            }
        }
        Ok(())
    }

    /// Places an order: checks that the buyer does not already own the game,
    /// that the listing exists and that no order is pending for it, then
    /// holds the listing price from the buyer and writes both order indices.
    /// The hold and the index writes stand or fall together: on any failure,
    /// including the ledger refusing the hold, nothing changes.
    pub fn order_place<L: Ledger>(
        &mut self,
        ledger: &mut L,
        buyer: BuyerId,
        publisher: PublisherId,
        game_id: GameId,
    ) -> (r: Result<(), Error>)
        requires
            old(self).wf(),
            old(ledger).wf(),
        ensures
            final(self).wf(),
            final(ledger).wf(),
            r is Ok <==> (!old(self).owned().contains(order_key(buyer, publisher, game_id)) && old(
                self,
            ).listings().contains_key(listing_key(publisher, game_id)) && !old(
                self,
            ).orders_by_publisher().contains_key(listing_key(publisher, game_id)) && old(
                ledger,
            ).free(buyer) >= old(self).listings()[listing_key(publisher, game_id)].price && old(
                ledger,
            ).held(buyer) + old(self).listings()[listing_key(publisher, game_id)].price
                <= u64::MAX),
            r is Ok ==> final(self).orders_by_buyer() == old(self).orders_by_buyer().insert(
                order_key(buyer, publisher, game_id),
                OrderDetails { deposit: old(self).listings()[listing_key(publisher, game_id)].price },
            ),
            r is Ok ==> final(self).orders_by_publisher() == old(
                self,
            ).orders_by_publisher().insert(listing_key(publisher, game_id), buyer),
            r is Ok ==> final(self).listings() == old(self).listings(),
            r is Ok ==> final(self).owned() == old(self).owned(),
            r is Ok ==> final(self).events() == old(self).events().push(
                Event::OrderPlaced { buyer, publisher, game_id },
            ),
            r is Ok ==> final(ledger).free(buyer) == old(ledger).free(buyer) - old(
                self,
            ).listings()[listing_key(publisher, game_id)].price,
            r is Ok ==> final(ledger).held(buyer) == old(ledger).held(buyer) + old(
                self,
            ).listings()[listing_key(publisher, game_id)].price,
            r is Ok ==> forall|a: u64|
                a != buyer ==> #[trigger] final(ledger).free(a) == old(ledger).free(a),
            r is Ok ==> forall|a: u64|
                a != buyer ==> #[trigger] final(ledger).held(a) == old(ledger).held(a),
            r is Err ==> *final(self) == *old(self) && *final(ledger) == *old(ledger),
            r == Err::<(), Error>(Error::GameAlreadyExists) <==> old(self).owned().contains(
                order_key(buyer, publisher, game_id),
            ),
            r == Err::<(), Error>(Error::GameNotFound) <==> (!old(self).owned().contains(
                order_key(buyer, publisher, game_id),
            ) && !old(self).listings().contains_key(listing_key(publisher, game_id))),
            r == Err::<(), Error>(Error::OrderAlreadyPlaced) <==> (!old(self).owned().contains(
                order_key(buyer, publisher, game_id),
            ) && old(self).listings().contains_key(listing_key(publisher, game_id)) && old(
                self,
            ).orders_by_publisher().contains_key(listing_key(publisher, game_id))),
            r == Err::<(), Error>(Error::Funds(LedgerError::FundsUnavailable)) <==> (!old(
                self,
            ).owned().contains(order_key(buyer, publisher, game_id)) && old(
                self,
            ).listings().contains_key(listing_key(publisher, game_id)) && !old(
                self,
            ).orders_by_publisher().contains_key(listing_key(publisher, game_id)) && old(
                ledger,
            ).free(buyer) < old(self).listings()[listing_key(publisher, game_id)].price),
            r == Err::<(), Error>(Error::Funds(LedgerError::Overflow)) <==> (!old(
                self,
            ).owned().contains(order_key(buyer, publisher, game_id)) && old(
                self,
            ).listings().contains_key(listing_key(publisher, game_id)) && !old(
                self,
            ).orders_by_publisher().contains_key(listing_key(publisher, game_id)) && old(
                ledger,
            ).free(buyer) >= old(self).listings()[listing_key(publisher, game_id)].price && old(
                ledger,
            ).held(buyer) + old(self).listings()[listing_key(publisher, game_id)].price
                > u64::MAX),
    {
        if self.owned_games.contains_key(buyer, publisher, game_id) {
            return Err(Error::GameAlreadyExists);
        }
        let price = match self.published_games.get(publisher, game_id) {
            Some(details) => details.price,
            None => { return Err(Error::GameNotFound) },
        };
        if self.publisher_orders.contains_key(publisher, game_id) {
            return Err(Error::OrderAlreadyPlaced);
        }
        match ledger.hold(HoldReason::GamePayment, buyer, price) {
            Ok(()) => {},
            Err(e) => { return Err(Error::Funds(e)) },
        }
        proof {
            if self.orders_by_buyer().contains_key(order_key(buyer, publisher, game_id)) {
                assert(self.orders_by_publisher().contains_key(listing_key(publisher, game_id)));
            }
        }
        self.buyer_orders.insert_new(buyer, publisher, game_id, OrderDetails { deposit: price });
        self.publisher_orders.insert_new(publisher, game_id, buyer);
        self.events.push(Event::OrderPlaced { buyer, publisher, game_id });
        proof {
            let okey = order_key(buyer, publisher, game_id);
            let lkey = listing_key(publisher, game_id);
            assert(self.listings() == old(self).listings());
            assert(self.owned() == old(self).owned());
            assert(self.orders_by_buyer() == old(self).orders_by_buyer().insert(
                okey,
                OrderDetails { deposit: price },
            ));
            assert(self.orders_by_publisher() == old(self).orders_by_publisher().insert(
                lkey,
                buyer,
            ));
            assert forall|k: (int, int, int)| #[trigger]
                self.orders_by_buyer().contains_key(k) implies self.orders_by_publisher(
            ).contains_key((k.1, k.2)) && self.orders_by_publisher()[(k.1, k.2)] as int
                == k.0 by {
                if k != okey {
                    assert(old(self).orders_by_buyer().contains_key(k));
                    assert(old(self).orders_by_publisher().contains_key((k.1, k.2)));
                    assert((k.1, k.2) != lkey);
                }
            }
            assert forall|k: (int, int)| #[trigger]
                self.orders_by_publisher().contains_key(k) implies self.orders_by_buyer(
            ).contains_key((self.orders_by_publisher()[k] as int, k.0, k.1)) by {
                if k != lkey {
                    assert(old(self).orders_by_publisher().contains_key(k));
                    let b2 = old(self).orders_by_publisher()[k] as int;
                    assert(old(self).orders_by_buyer().contains_key((b2, k.0, k.1)));
                    assert((b2, k.0, k.1) != okey);
                }
            }
            assert forall|k: (int, int, int)| #[trigger]
                self.orders_by_buyer().contains_key(k) implies self.listings().contains_key(
                (k.1, k.2),
            ) && self.orders_by_buyer()[k].deposit == self.listings()[(k.1, k.2)].price by {
                if k != okey {
                    assert(old(self).orders_by_buyer().contains_key(k));
                }
            }
            assert forall|k: (int, int, int)| #[trigger]
                self.orders_by_buyer().contains_key(k) implies !self.owned().contains(k) by {
                if k != okey {
                    assert(old(self).orders_by_buyer().contains_key(k));
                }
            }
        }
        Ok(())
    }

    /// Fulfills a pending order: looks the order up under
    /// `(buyer, publisher, game_id)`, releases the buyer's held deposit into
    /// a transfer to the publisher, removes both order index entries and
    /// grants ownership — one indivisible step. If the ledger's
    /// release/transfer fails, both order entries are left exactly as they
    /// were and no ownership grant appears. A caller naming a publisher that
    /// does not own the order simply finds no match.
    pub fn order_fulfill<L: Ledger>(
        &mut self,
        ledger: &mut L,
        publisher: PublisherId,
        game_id: GameId,
        buyer: BuyerId,
    ) -> (r: Result<(), Error>)
        requires
            old(self).wf(),
            old(ledger).wf(),
        ensures
            final(self).wf(),
            final(ledger).wf(),
            r is Ok <==> (old(self).orders_by_buyer().contains_key(
                order_key(buyer, publisher, game_id),
            ) && old(ledger).held(buyer) >= old(self).orders_by_buyer()[order_key(
                buyer,
                publisher,
                game_id,
            )].deposit && old(ledger).free(publisher) + old(self).orders_by_buyer()[order_key(
                buyer,
                publisher,
                game_id,
            )].deposit <= u64::MAX),
            r is Ok ==> final(self).orders_by_buyer() == old(self).orders_by_buyer().remove(
                order_key(buyer, publisher, game_id),
            ),
            r is Ok ==> final(self).orders_by_publisher() == old(
                self,
            ).orders_by_publisher().remove(listing_key(publisher, game_id)),
            r is Ok ==> final(self).owned() == old(self).owned().insert(
                order_key(buyer, publisher, game_id),
            ),
            r is Ok ==> final(self).listings() == old(self).listings(),
            r is Ok ==> final(self).events() == old(self).events().push(
                Event::OrderFulfilled { buyer, publisher, game_id },
            ),
            r is Ok ==> final(ledger).held(buyer) == old(ledger).held(buyer) - old(
                self,
            ).orders_by_buyer()[order_key(buyer, publisher, game_id)].deposit,
            r is Ok ==> final(ledger).free(publisher) == old(ledger).free(publisher) + old(
                self,
            ).orders_by_buyer()[order_key(buyer, publisher, game_id)].deposit,
            r is Ok ==> forall|a: u64|
                a != buyer ==> #[trigger] final(ledger).held(a) == old(ledger).held(a),
            r is Ok ==> forall|a: u64|
                a != publisher ==> #[trigger] final(ledger).free(a) == old(ledger).free(a),
            r is Err ==> *final(self) == *old(self) && *final(ledger) == *old(ledger),
            r == Err::<(), Error>(Error::OrderNotFound) <==> !old(
                self,
            ).orders_by_buyer().contains_key(order_key(buyer, publisher, game_id)),
            r == Err::<(), Error>(Error::Funds(LedgerError::FundsUnavailable)) <==> (old(
                self,
            ).orders_by_buyer().contains_key(order_key(buyer, publisher, game_id)) && old(
                ledger,
            ).held(buyer) < old(self).orders_by_buyer()[order_key(
                buyer,
                publisher,
                game_id,
            )].deposit),
            r == Err::<(), Error>(Error::Funds(LedgerError::Overflow)) <==> (old(
                self,
            ).orders_by_buyer().contains_key(order_key(buyer, publisher, game_id)) && old(
                ledger,
            ).held(buyer) >= old(self).orders_by_buyer()[order_key(
                buyer,
                publisher,
                game_id,
            )].deposit && old(ledger).free(publisher) + old(self).orders_by_buyer()[order_key(
                buyer,
                publisher,
                game_id,
            )].deposit > u64::MAX),
    {
        let deposit = match self.buyer_orders.get(buyer, publisher, game_id) {
            Some(order) => order.deposit,
            None => { return Err(Error::OrderNotFound) },
        };
        // By the mirror invariant, the by-publisher entry exists and names
        // this buyer, so no separate match check can fail here.
        match ledger.release_and_transfer(HoldReason::GamePayment, buyer, publisher, deposit) {
            Ok(()) => {},
            Err(e) => { return Err(Error::Funds(e)) },
        }
        proof {
            let okey = order_key(buyer, publisher, game_id);
            let lkey = listing_key(publisher, game_id);
            assert(self.orders_by_buyer().contains_key(okey));
            assert(self.orders_by_publisher().contains_key(lkey));
            assert(self.orders_by_publisher()[lkey] as int == buyer as int);
            assert(!self.owned().contains(okey));
        }
        self.buyer_orders.remove(buyer, publisher, game_id);
        self.publisher_orders.remove(publisher, game_id);
        self.owned_games.insert_new(buyer, publisher, game_id, ());
        self.events.push(Event::OrderFulfilled { buyer, publisher, game_id });
        proof {
            let okey = order_key(buyer, publisher, game_id);
            let lkey = listing_key(publisher, game_id);
            assert(self.listings() == old(self).listings());
            assert(self.orders_by_buyer() == old(self).orders_by_buyer().remove(okey));
            assert(self.orders_by_publisher() == old(self).orders_by_publisher().remove(lkey));
            assert(self.owned() =~= old(self).owned().insert(okey));
            assert forall|k: (int, int, int)| #[trigger]
                self.orders_by_buyer().contains_key(k) implies self.orders_by_publisher(
            ).contains_key((k.1, k.2)) && self.orders_by_publisher()[(k.1, k.2)] as int
                == k.0 by {
                assert(old(self).orders_by_buyer().contains_key(k));
                if (k.1, k.2) == lkey {
                    assert(old(self).orders_by_publisher()[lkey] as int == k.0);
                    assert(old(self).orders_by_publisher()[lkey] as int == buyer as int);
                    assert(k == okey);
                    assert(false);
                }
            }
            assert forall|k: (int, int)| #[trigger]
                self.orders_by_publisher().contains_key(k) implies self.orders_by_buyer(
            ).contains_key((self.orders_by_publisher()[k] as int, k.0, k.1)) by {
                assert(old(self).orders_by_publisher().contains_key(k));
                assert(k != lkey);
                let b2 = old(self).orders_by_publisher()[k] as int;
                assert(old(self).orders_by_buyer().contains_key((b2, k.0, k.1)));
                assert((b2, k.0, k.1) != okey);
            }
            assert forall|k: (int, int, int)| #[trigger]
                self.orders_by_buyer().contains_key(k) implies self.listings().contains_key(
                (k.1, k.2),
            ) && self.orders_by_buyer()[k].deposit == self.listings()[(k.1, k.2)].price by {
                assert(old(self).orders_by_buyer().contains_key(k));
            }
            assert forall|k: (int, int, int)| #[trigger]
                self.orders_by_buyer().contains_key(k) implies !self.owned().contains(k) by {
                assert(old(self).orders_by_buyer().contains_key(k));
                assert(k != okey);
            }
        }
        Ok(())
    }

    /// The details of a published game, if any.
    pub fn published_game(&self, publisher: PublisherId, game_id: GameId) -> (r: Option<
        &GameDetails,
    >)
        requires
            self.wf(),
        ensures
            match r {
                Some(details) => self.listings().contains_key(listing_key(publisher, game_id))
                    && self.listings()[listing_key(publisher, game_id)] == *details,
                None => !self.listings().contains_key(listing_key(publisher, game_id)),
            },
    {
        self.published_games.get(publisher, game_id)
    }

    /// The buyer of the pending order on a listing, if any.
    pub fn publisher_order(&self, publisher: PublisherId, game_id: GameId) -> (r: Option<BuyerId>)
        requires
            self.wf(),
        ensures
            match r {
                Some(buyer) => self.orders_by_publisher().contains_key(
                    listing_key(publisher, game_id),
                ) && self.orders_by_publisher()[listing_key(publisher, game_id)] == buyer,
                None => !self.orders_by_publisher().contains_key(listing_key(publisher, game_id)),
            },
    {
        match self.publisher_orders.get(publisher, game_id) {
            Some(buyer) => Some(*buyer),
            None => None,
        }
    }

    /// The pending order of a buyer on a listing, if any.
    pub fn buyer_order(&self, buyer: BuyerId, publisher: PublisherId, game_id: GameId) -> (r:
        Option<OrderDetails>)
        requires
            self.wf(),
        ensures
            match r {
                Some(order) => self.orders_by_buyer().contains_key(
                    order_key(buyer, publisher, game_id),
                ) && self.orders_by_buyer()[order_key(buyer, publisher, game_id)] == order,
                None => !self.orders_by_buyer().contains_key(order_key(buyer, publisher, game_id)),
            },
    {
        match self.buyer_orders.get(buyer, publisher, game_id) {
            Some(order) => Some(*order),
            None => None,
        }
    }

    /// Whether the buyer owns the game.
    pub fn owns_game(&self, buyer: BuyerId, publisher: PublisherId, game_id: GameId) -> (r: bool)
        requires
            self.wf(),
        ensures
            r == self.owned().contains(order_key(buyer, publisher, game_id)),
    {
        self.owned_games.contains_key(buyer, publisher, game_id)
    }

    /// The most recent notification, if any was emitted.
    pub fn last_event(&self) -> (r: Option<&Event>)
        ensures
            match r {
                Some(e) => self.events().len() > 0 && *e == self.events().last(),
                None => self.events().len() == 0,
            },
    {
        if self.events.len() == 0 {
            None
        } else {
            Some(&self.events[self.events.len() - 1])
        }
    }

    /// Imports a listing directly, under a key that is not yet taken. This is
    /// the state-import step used to seed a marketplace; published listings
    /// normally enter through [`Games::game_add`].
    pub fn insert_listing(&mut self, publisher: PublisherId, game_id: GameId, details: GameDetails)
        requires
            old(self).wf(),
            !old(self).listings().contains_key(listing_key(publisher, game_id)),
        ensures
            final(self).wf(),
            final(self).listings() == old(self).listings().insert(
                listing_key(publisher, game_id),
                details,
            ),
            final(self).orders_by_publisher() == old(self).orders_by_publisher(),
            final(self).orders_by_buyer() == old(self).orders_by_buyer(),
            final(self).owned() == old(self).owned(),
            final(self).events() == old(self).events(),
    {
        self.published_games.insert_new(publisher, game_id, details);
        proof {
            assert(self.orders_by_buyer() == old(self).orders_by_buyer());
            assert(self.orders_by_publisher() == old(self).orders_by_publisher());
            assert(self.owned() == old(self).owned());
            assert forall|k: (int, int, int)| #[trigger]
                self.orders_by_buyer().contains_key(k) implies self.listings().contains_key(
                (k.1, k.2),
            ) && self.orders_by_buyer()[k].deposit == self.listings()[(k.1, k.2)].price by {
                assert(old(self).orders_by_buyer().contains_key(k));
                assert(old(self).listings().contains_key((k.1, k.2)));
                assert((k.1, k.2) != listing_key(publisher, game_id));
            }
        }
    }

    /// Imports an ownership grant directly, for a game the buyer neither owns
    /// nor has a pending order on. This is the state-import step used to seed
    /// a marketplace; grants normally enter through [`Games::order_fulfill`].
    pub fn insert_owned(&mut self, buyer: BuyerId, publisher: PublisherId, game_id: GameId)
        requires
            old(self).wf(),
            !old(self).owned().contains(order_key(buyer, publisher, game_id)),
            !old(self).orders_by_buyer().contains_key(order_key(buyer, publisher, game_id)),
        ensures
            final(self).wf(),
            final(self).owned() == old(self).owned().insert(order_key(buyer, publisher, game_id)),
            final(self).listings() == old(self).listings(),
            final(self).orders_by_publisher() == old(self).orders_by_publisher(),
            final(self).orders_by_buyer() == old(self).orders_by_buyer(),
            final(self).events() == old(self).events(),
    {
        self.owned_games.insert_new(buyer, publisher, game_id, ());
        proof {
            let okey = order_key(buyer, publisher, game_id);
            assert(self.orders_by_buyer() == old(self).orders_by_buyer());
            assert(self.orders_by_publisher() == old(self).orders_by_publisher());
            assert(self.listings() == old(self).listings());
            assert(self.owned() =~= old(self).owned().insert(okey));
            assert forall|k: (int, int, int)| #[trigger]
                self.orders_by_buyer().contains_key(k) implies !self.owned().contains(k) by {
                assert(old(self).orders_by_buyer().contains_key(k));
                assert(k != okey);
            }
        }
    }
}

/// Mutual consistency of the order indices: at all times, `(p, g)` appears in
/// the by-publisher index exactly when `(b, p, g)` appears in the by-buyer
/// index for the buyer `b` that the by-publisher entry names — never one
/// without the other.
pub proof fn lemma_orders_mutually_consistent(m: &Games)
    requires
        m.wf(),
    ensures
        forall|b: int, p: int, g: int| #[trigger]
            m.orders_by_buyer().contains_key((b, p, g)) ==> m.orders_by_publisher().contains_key(
                (p, g),
            ) && m.orders_by_publisher()[(p, g)] as int == b,
        forall|p: int, g: int| #[trigger]
            m.orders_by_publisher().contains_key((p, g)) ==> m.orders_by_buyer().contains_key(
                (m.orders_by_publisher()[(p, g)] as int, p, g),
            ),
{
}

/// Price snapshot: at all times, every pending order is for an existing
/// listing and its deposit equals that listing's price. Listings are
/// immutable, so the deposit is the price the buyer saw when placing the
/// order.
pub proof fn lemma_deposit_matches_listing(m: &Games)
    requires
        m.wf(),
    ensures
        forall|k: (int, int, int)| #[trigger]
            m.orders_by_buyer().contains_key(k) ==> m.listings().contains_key((k.1, k.2))
                && m.orders_by_buyer()[k].deposit == m.listings()[(k.1, k.2)].price,
{
}

/// No pending order exists for a game its buyer already owns: once an order
/// is fulfilled, the ownership grant keeps the same purchase from ever being
/// pending again.
pub proof fn lemma_no_order_on_owned_game(m: &Games)
    requires
        m.wf(),
    ensures
        forall|k: (int, int, int)| #[trigger]
            m.orders_by_buyer().contains_key(k) ==> !m.owned().contains(k),
{
}

} // verus!
