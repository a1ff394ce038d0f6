//! Shared identifier types, size bounds, and the record types stored by the
//! marketplace: publisher details, game details and order details.

use crate::tags::TagCatalog;
use vstd::prelude::*;

verus! {

/// An account on the chain; publishers and buyers are both accounts.
pub type AccountId = u64;

/// The account that published a game.
pub type PublisherId = u64;

/// The account that buys a game.
pub type BuyerId = u64;

/// A game identifier, unique per publisher.
pub type GameId = u16;

/// A tag identifier in the tag catalog.
pub type TagId = u16;

/// An amount of currency.
pub type Balance = u64;

/// The name of a publisher or a game, as bytes.
pub type Name = Vec<u8>;

/// The URL of a publisher, as bytes.
pub type Url = Vec<u8>;

/// The name of a tag, as bytes.
pub type Tag = Vec<u8>;

/// The tags of a game listing.
pub type GameTags = Vec<TagId>;

/// The longest name (of a publisher or a game) that is accepted.
pub const MAX_NAME_SIZE: usize = 64;

/// The longest publisher URL that is accepted.
pub const MAX_URL_SIZE: usize = 256;

/// The most tags a single game listing may carry.
pub const MAX_TAGS_PER_GAME: usize = 16;

/// Details of a registered publisher.
#[derive(Clone, PartialEq, Eq, Debug)]
pub struct PublisherDetails {
    /// The name of the publisher.
    pub name: Name,
    /// The URL of the publisher.
    pub url: Url,
}

impl PublisherDetails {
    /// Valid publisher details: a non-empty, bounded name and a bounded URL.
    pub open spec fn valid_spec(&self) -> bool {
        &&& 0 < self.name@.len() <= MAX_NAME_SIZE
        &&& self.url@.len() <= MAX_URL_SIZE
    }

    /// Whether the details may enter the publisher registry.
    pub fn is_valid(&self) -> (r: bool)
        ensures
            r == self.valid_spec(),
    {
        0 < self.name.len() && self.name.len() <= MAX_NAME_SIZE && self.url.len() <= MAX_URL_SIZE
    }
}

/// Details of a published game listing.
#[derive(Clone, PartialEq, Eq, Debug)]
pub struct GameDetails {
    /// The name of the game.
    pub name: Name,
    /// The tags of the game.
    pub tags: GameTags,
    /// The price of the game.
    pub price: Balance,
}

impl GameDetails {
    /// Valid game details, against a tag catalog given as a map from tag
    /// identifiers to tag names: a non-empty, bounded name, a bounded tag
    /// list, and every tag known to the catalog.
    pub open spec fn valid_spec(&self, catalog: Map<int, Tag>) -> bool {
        &&& 0 < self.name@.len() <= MAX_NAME_SIZE
        &&& self.tags@.len() <= MAX_TAGS_PER_GAME
        &&& forall|i: int| 0 <= i < self.tags@.len() ==> catalog.contains_key(#[trigger] self.tags@[i] as int)
    }

    /// Whether the details may enter the listing store, against the given
    /// tag catalog.
    pub fn is_valid(&self, catalog: &TagCatalog) -> (r: bool)
        requires
            catalog.wf(),
        ensures
            r == self.valid_spec(catalog@),
    {
        if self.name.len() == 0 || self.name.len() > MAX_NAME_SIZE {
            return false;
        }
        if self.tags.len() > MAX_TAGS_PER_GAME {
            return false;
        }
        let n = self.tags.len();
        let mut i: usize = 0;
        while i < n
            invariant
                catalog.wf(),
                n == self.tags@.len(),
                0 <= i <= n,
                0 < self.name@.len() <= MAX_NAME_SIZE,
                self.tags@.len() <= MAX_TAGS_PER_GAME,
                forall|j: int|
                    0 <= j < i ==> catalog@.contains_key(#[trigger] self.tags@[j] as int),
            decreases n - i,
        {
            if !catalog.is_valid_tag(self.tags[i]) {
                return false;
            }
            i = i + 1;
        }
        true
    }
}

/// A pending order: the funds held in escrow for one game purchase.
#[derive(Clone, Copy, PartialEq, Eq, Structural, Debug)]
pub struct OrderDetails {
    /// The amount held from the buyer: the listing price at placement time.
    pub deposit: Balance,
}

} // verus!
