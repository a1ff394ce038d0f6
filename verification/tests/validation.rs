use liganite::games::{Error, Games};
use liganite::ledger::{BalanceLedger, HoldReason, Ledger, LedgerError};
use liganite::publish::{Error as PublishError, PublisherRegistry};
use liganite::tags::TagCatalog;
use liganite::types::{GameDetails, PublisherDetails, MAX_NAME_SIZE, MAX_TAGS_PER_GAME, MAX_URL_SIZE};

fn registry_with(publisher: u64) -> PublisherRegistry {
    let mut registry = PublisherRegistry::new();
    registry.insert_publisher(publisher, PublisherDetails { name: b"P".to_vec(), url: Vec::new() });
    registry
}

#[test]
fn tag_catalog_build_enumerates_names() {
    let catalog = TagCatalog::build(vec![b"action".to_vec(), b"puzzle".to_vec()]);
    assert!(catalog.is_valid_tag(0));
    assert!(catalog.is_valid_tag(1));
    assert!(!catalog.is_valid_tag(2));
    assert_eq!(catalog.get(0), Some(&b"action".to_vec()));
    assert_eq!(catalog.get(1), Some(&b"puzzle".to_vec()));
    assert_eq!(catalog.get(7), None);
}

#[test]
fn game_add_unknown_tag_is_invalid() {
    let registry = registry_with(1);
    let catalog = TagCatalog::build(vec![b"action".to_vec()]);
    let mut games = Games::new();
    let details = GameDetails { name: b"Tagged".to_vec(), tags: vec![0, 5], price: 10 };
    assert_eq!(
        games.game_add(&registry, &catalog, 1, 1, details),
        Err(Error::GameDetailsInvalid)
    );
}

#[test]
fn game_add_known_tags_is_accepted() {
    let registry = registry_with(1);
    let catalog = TagCatalog::build(vec![b"action".to_vec(), b"puzzle".to_vec()]);
    let mut games = Games::new();
    let details = GameDetails { name: b"Tagged".to_vec(), tags: vec![0, 1], price: 10 };
    assert_eq!(games.game_add(&registry, &catalog, 1, 1, details.clone()), Ok(()));
    assert_eq!(games.published_game(1, 1), Some(&details));
}

#[test]
fn game_add_oversized_name_is_invalid() {
    let registry = registry_with(1);
    let catalog = TagCatalog::new();
    let mut games = Games::new();
    let details = GameDetails { name: vec![b'a'; MAX_NAME_SIZE + 1], tags: Vec::new(), price: 10 };
    assert_eq!(
        games.game_add(&registry, &catalog, 1, 1, details),
        Err(Error::GameDetailsInvalid)
    );

    let at_limit = GameDetails { name: vec![b'a'; MAX_NAME_SIZE], tags: Vec::new(), price: 10 };
    assert_eq!(games.game_add(&registry, &catalog, 1, 1, at_limit), Ok(()));
}

#[test]
fn game_add_too_many_tags_is_invalid() {
    let registry = registry_with(1);
    let catalog = TagCatalog::build(vec![b"action".to_vec()]);
    let mut games = Games::new();
    let details =
        GameDetails { name: b"Tagged".to_vec(), tags: vec![0; MAX_TAGS_PER_GAME + 1], price: 10 };
    assert_eq!(
        games.game_add(&registry, &catalog, 1, 1, details),
        Err(Error::GameDetailsInvalid)
    );
}

#[test]
fn publisher_add_oversized_details_is_invalid() {
    let mut registry = PublisherRegistry::new();
    let long_name =
        PublisherDetails { name: vec![b'a'; MAX_NAME_SIZE + 1], url: Vec::new() };
    assert_eq!(registry.publisher_add(1, long_name), Err(PublishError::PublisherDetailsInvalid));

    let long_url =
        PublisherDetails { name: b"P".to_vec(), url: vec![b'u'; MAX_URL_SIZE + 1] };
    assert_eq!(registry.publisher_add(1, long_url), Err(PublishError::PublisherDetailsInvalid));
}

#[test]
fn ledger_hold_moves_funds() {
    let mut ledger = BalanceLedger::new();
    ledger.set_balance(5, 1000);
    assert_eq!(ledger.hold(HoldReason::GamePayment, 5, 400), Ok(()));
    assert_eq!(ledger.balance(5), 600);
    assert_eq!(ledger.balance_on_hold(HoldReason::GamePayment, 5), 400);

    assert_eq!(
        ledger.hold(HoldReason::GamePayment, 5, 601),
        Err(LedgerError::FundsUnavailable)
    );
    assert_eq!(ledger.balance(5), 600);
}

#[test]
fn ledger_hold_overflow_is_refused() {
    let mut ledger = BalanceLedger::new();
    ledger.set_balance(5, u64::MAX);
    assert_eq!(ledger.hold(HoldReason::GamePayment, 5, u64::MAX), Ok(()));
    ledger.set_balance(5, 10);
    assert_eq!(ledger.hold(HoldReason::GamePayment, 5, 1), Err(LedgerError::Overflow));
}

#[test]
fn ledger_release_and_transfer_errors() {
    let mut ledger = BalanceLedger::new();
    ledger.set_balance(5, 1000);
    assert_eq!(
        ledger.release_and_transfer(HoldReason::GamePayment, 5, 6, 1),
        Err(LedgerError::FundsUnavailable)
    );

    assert_eq!(ledger.hold(HoldReason::GamePayment, 5, 400), Ok(()));
    ledger.set_balance(6, u64::MAX);
    assert_eq!(
        ledger.release_and_transfer(HoldReason::GamePayment, 5, 6, 400),
        Err(LedgerError::Overflow)
    );

    ledger.set_balance(6, 0);
    assert_eq!(ledger.release_and_transfer(HoldReason::GamePayment, 5, 6, 400), Ok(()));
    assert_eq!(ledger.balance(6), 400);
    assert_eq!(ledger.balance_on_hold(HoldReason::GamePayment, 5), 0);
    assert_eq!(ledger.balance(5), 600);
}
