use liganite::games::{Error, Event, Games};
use liganite::ledger::{BalanceLedger, HoldReason, Ledger, LedgerError};
use liganite::publish::PublisherRegistry;
use liganite::tags::TagCatalog;
use liganite::types::{GameDetails, OrderDetails, PublisherDetails};

const INVALID_PUBLISHER: u64 = 0;
const PUBLISHER: u64 = 1;
const FUNDED_BUYER: u64 = 2;
const NON_FUNDED_BUYER: u64 = 3;
const INITIAL_BALANCE: u64 = 100_000;

fn test_registry() -> PublisherRegistry {
    let mut registry = PublisherRegistry::new();
    registry.insert_publisher(
        PUBLISHER,
        PublisherDetails { name: b"Example Publisher".to_vec(), url: b"https://example.com".to_vec() },
    );
    registry
}

fn game_details(name: &[u8], price: u64) -> GameDetails {
    GameDetails { name: name.to_vec(), tags: Vec::new(), price }
}

fn funded_ledger() -> BalanceLedger {
    let mut ledger = BalanceLedger::new();
    ledger.set_balance(PUBLISHER, INITIAL_BALANCE);
    ledger.set_balance(FUNDED_BUYER, INITIAL_BALANCE);
    ledger.set_balance(NON_FUNDED_BUYER, 0);
    ledger
}

#[test]
fn test_game_add() {
    let registry = test_registry();
    let catalog = TagCatalog::new();
    let mut games = Games::new();
    let game_id = 1;
    let details = game_details(b"Example Game", 0);
    assert_eq!(games.game_add(&registry, &catalog, PUBLISHER, game_id, details.clone()), Ok(()));

    assert_eq!(games.published_game(PUBLISHER, game_id), Some(&details));
    assert_eq!(games.last_event(), Some(&Event::GameAdded { publisher: PUBLISHER, game_id }));
}

#[test]
fn test_game_add_game_already_exists() {
    let registry = test_registry();
    let catalog = TagCatalog::new();
    let mut games = Games::new();
    let game_id = 1;
    let details = game_details(b"Example Game", 0);
    games.insert_listing(PUBLISHER, game_id, details.clone());

    assert_eq!(
        games.game_add(&registry, &catalog, PUBLISHER, game_id, details),
        Err(Error::GameAlreadyExists)
    );
}

#[test]
fn test_game_add_invalid_publisher() {
    let registry = test_registry();
    let catalog = TagCatalog::new();
    let mut games = Games::new();
    let game_id = 1;
    let details = game_details(b"Example Game", 0);
    assert_eq!(
        games.game_add(&registry, &catalog, INVALID_PUBLISHER, game_id, details),
        Err(Error::InvalidPublisher)
    );
}

#[test]
fn test_game_add_empty_name() {
    let registry = test_registry();
    let catalog = TagCatalog::new();
    let mut games = Games::new();
    let game_id = 1;
    let details = game_details(b"", 0);
    assert_eq!(
        games.game_add(&registry, &catalog, PUBLISHER, game_id, details),
        Err(Error::GameDetailsInvalid)
    );
}

#[test]
fn test_order_place() {
    let mut games = Games::new();
    let mut ledger = funded_ledger();
    let game_id = 1;
    let price = 12345;
    games.insert_listing(PUBLISHER, game_id, game_details(b"Example Game", price));

    assert_eq!(games.order_place(&mut ledger, FUNDED_BUYER, PUBLISHER, game_id), Ok(()));

    let expected = OrderDetails { deposit: price };
    assert_eq!(games.buyer_order(FUNDED_BUYER, PUBLISHER, game_id), Some(expected));
    assert_eq!(games.publisher_order(PUBLISHER, game_id), Some(FUNDED_BUYER));
    assert_eq!(ledger.balance(FUNDED_BUYER), INITIAL_BALANCE - price);
    assert_eq!(ledger.balance_on_hold(HoldReason::GamePayment, FUNDED_BUYER), price);
    assert_eq!(
        games.last_event(),
        Some(&Event::OrderPlaced { buyer: FUNDED_BUYER, publisher: PUBLISHER, game_id })
    );
}

#[test]
fn test_order_place_no_funds() {
    let mut games = Games::new();
    let mut ledger = funded_ledger();
    let game_id = 1;
    let price = 12345;
    games.insert_listing(PUBLISHER, game_id, game_details(b"Example Game", price));

    assert_eq!(
        games.order_place(&mut ledger, NON_FUNDED_BUYER, PUBLISHER, game_id),
        Err(Error::Funds(LedgerError::FundsUnavailable))
    );
}

#[test]
fn test_order_place_invalid_game() {
    let mut games = Games::new();
    let mut ledger = funded_ledger();
    assert_eq!(
        games.order_place(&mut ledger, FUNDED_BUYER, PUBLISHER, 1),
        Err(Error::GameNotFound)
    );
}

#[test]
fn test_order_place_already_placed() {
    let mut games = Games::new();
    let mut ledger = funded_ledger();
    let game_id = 1;
    let price = 12345;
    games.insert_listing(PUBLISHER, game_id, game_details(b"Example Game", price));

    assert_eq!(games.order_place(&mut ledger, FUNDED_BUYER, PUBLISHER, game_id), Ok(()));

    assert_eq!(
        games.order_place(&mut ledger, FUNDED_BUYER, PUBLISHER, game_id),
        Err(Error::OrderAlreadyPlaced)
    );
}

#[test]
fn test_order_place_owned_game() {
    let mut games = Games::new();
    let mut ledger = funded_ledger();
    let game_id = 1;
    games.insert_owned(FUNDED_BUYER, PUBLISHER, game_id);

    assert_eq!(
        games.order_place(&mut ledger, FUNDED_BUYER, PUBLISHER, game_id),
        Err(Error::GameAlreadyExists)
    );
}

#[test]
fn test_order_fulfill() {
    let mut games = Games::new();
    let mut ledger = funded_ledger();
    let game_id = 1;
    let price = 12345;
    games.insert_listing(PUBLISHER, game_id, game_details(b"Example Game", price));

    assert_eq!(games.order_place(&mut ledger, FUNDED_BUYER, PUBLISHER, game_id), Ok(()));

    assert_eq!(games.order_fulfill(&mut ledger, PUBLISHER, game_id, FUNDED_BUYER), Ok(()));

    assert_eq!(games.buyer_order(FUNDED_BUYER, PUBLISHER, game_id), None);
    assert_eq!(games.publisher_order(PUBLISHER, game_id), None);
    assert!(games.owns_game(FUNDED_BUYER, PUBLISHER, game_id));
    assert_eq!(ledger.balance(PUBLISHER), INITIAL_BALANCE + price);
    assert_eq!(ledger.balance(FUNDED_BUYER), INITIAL_BALANCE - price);
    assert_eq!(ledger.balance_on_hold(HoldReason::GamePayment, FUNDED_BUYER), 0);
    assert_eq!(
        games.last_event(),
        Some(&Event::OrderFulfilled { buyer: FUNDED_BUYER, publisher: PUBLISHER, game_id })
    );
}

#[test]
fn test_order_fulfill_missing_order() {
    let mut games = Games::new();
    let mut ledger = funded_ledger();
    assert_eq!(
        games.order_fulfill(&mut ledger, PUBLISHER, 1, FUNDED_BUYER),
        Err(Error::OrderNotFound)
    );
}

#[test]
fn test_order_fulfill_invalid_game() {
    let mut games = Games::new();
    let mut ledger = funded_ledger();
    let game_id = 1;
    let price = 12345;
    games.insert_listing(PUBLISHER, game_id, game_details(b"Example Game", price));

    assert_eq!(games.order_place(&mut ledger, FUNDED_BUYER, PUBLISHER, game_id), Ok(()));

    let invalid_game_id = game_id + 1;
    assert_eq!(
        games.order_fulfill(&mut ledger, PUBLISHER, invalid_game_id, FUNDED_BUYER),
        Err(Error::OrderNotFound)
    );
}
