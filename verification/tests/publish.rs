use liganite::publish::{Error, Event, PublisherRegistry};
use liganite::types::PublisherDetails;

fn example_publisher_details() -> PublisherDetails {
    PublisherDetails { name: b"Example Publisher".to_vec(), url: b"https://example.com".to_vec() }
}

#[test]
fn test_publisher_add() {
    let mut registry = PublisherRegistry::new();
    let publisher = 1;
    let details = example_publisher_details();
    assert_eq!(registry.publisher_add(publisher, details.clone()), Ok(()));

    assert_eq!(registry.get(publisher), Some(&details));
    assert_eq!(registry.last_event(), Some(&Event::PublisherAdded { publisher }));
}

#[test]
fn test_publisher_add_already_exists() {
    let mut registry = PublisherRegistry::new();
    let publisher = 1;
    let details = example_publisher_details();
    registry.insert_publisher(publisher, details.clone());

    assert_eq!(registry.publisher_add(publisher, details), Err(Error::PublisherAlreadyExists));
}

#[test]
fn test_publisher_add_empty_name() {
    let mut registry = PublisherRegistry::new();
    let publisher = 1;
    let details = PublisherDetails { name: b"".to_vec(), url: b"https://example.com".to_vec() };

    assert_eq!(registry.publisher_add(publisher, details), Err(Error::PublisherDetailsInvalid));
}

#[test]
fn test_publisher_manager_is_valid_publisher() {
    let mut registry = PublisherRegistry::new();
    let publisher = 1;
    let details = example_publisher_details();
    registry.insert_publisher(publisher, details);

    assert!(registry.is_valid_publisher(publisher));
    assert!(!registry.is_valid_publisher(2));
}
