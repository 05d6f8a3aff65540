use chatey::message::{age_amount, AgeUnit};
use chatey::{ChatMessage, ClientMessage};

#[test]
fn build_keeps_the_fields() {
    let m = ChatMessage::build(9, "Alice".to_string(), "hi".to_string()).unwrap();
    assert_eq!(m.get_addr(), 9);
    assert_eq!(m.get_username(), "Alice");
    assert_eq!(m.get_message(), "hi");
}

#[test]
fn build_at_keeps_the_stamp() {
    let m = ChatMessage::build_at(3, "Bob".to_string(), "yo".to_string(), 777);
    assert_eq!(m.get_timestamp(), 777);
    let d = m.duplicate();
    assert_eq!(d.get_addr(), 3);
    assert_eq!(d.get_timestamp(), 777);
    assert_eq!(d.get_message(), "yo");
}

#[test]
fn chat_message_from_client_message_overrides_the_sender() {
    let c = ClientMessage::new_at("Mallory".to_string(), "text".to_string(), 1);
    let m = ChatMessage::from(c, 5, "Carol".to_string());
    assert_eq!(m.get_addr(), 5);
    assert_eq!(m.get_username(), "Carol");
    assert_eq!(m.get_message(), "text");
}

#[test]
fn client_message_from_chat_message_keeps_the_stamp() {
    let m = ChatMessage::build_at(3, "Bob".to_string(), "yo".to_string(), 123456);
    let c = ClientMessage::from(m);
    assert_eq!(c.get_username(), "Bob");
    assert_eq!(c.get_message(), "yo");
    assert_eq!(c.get_timestamp(), 123456);
}

#[test]
fn client_message_new_keeps_name_and_text() {
    let c = ClientMessage::new("You".to_string(), "hello".to_string());
    assert_eq!(c.get_username(), "You");
    assert_eq!(c.get_message(), "hello");
    assert!(c.get_metadata().starts_with("You, "));
}

#[test]
fn ages_in_units() {
    assert_eq!(age_amount(0), (0, AgeUnit::Seconds));
    assert_eq!(age_amount(59), (59, AgeUnit::Seconds));
    assert_eq!(age_amount(60), (1, AgeUnit::Minutes));
    assert_eq!(age_amount(3599), (59, AgeUnit::Minutes));
    assert_eq!(age_amount(3600), (1, AgeUnit::Hours));
    assert_eq!(age_amount(86399), (23, AgeUnit::Hours));
    assert_eq!(age_amount(86400), (1, AgeUnit::Days));
    assert_eq!(age_amount(31535999), (364, AgeUnit::Days));
    assert_eq!(age_amount(31536000), (1, AgeUnit::Years));
    assert_eq!(age_amount(31535999999), (999, AgeUnit::Years));
    assert_eq!(age_amount(31536000000), (1, AgeUnit::Seconds));
    assert_eq!(age_amount(u64::MAX), (65535, AgeUnit::Seconds));
}

#[test]
fn metadata_tells_the_age() {
    let c = ClientMessage::new_at("Alice".to_string(), "hi".to_string(), 1_000_000);
    assert_eq!(c.metadata_at(1_000_000), "Alice, 0 s ago");
    assert_eq!(c.metadata_at(1_042_999), "Alice, 42 s ago");
    assert_eq!(c.metadata_at(1_000_000 + 125_000), "Alice, 2 min ago");
    assert_eq!(c.metadata_at(1_000_000 + 7_200_000), "Alice, 2 h ago");
    assert_eq!(c.metadata_at(1_000_000 + 3 * 86_400_000), "Alice, 3 day(s) ago");
    assert_eq!(c.metadata_at(1_000_000 + 2 * 31_536_000_000), "Alice, 2 year(s) ago");
    assert_eq!(c.metadata_at(0), "Alice, 0 s ago");
}

#[test]
fn a_chat_message_reads_as_a_line() {
    let m = ChatMessage::build_at(12, "Alice".to_string(), "hi there".to_string(), 5_000);
    assert_eq!(m.describe_at(5_000), "12 : hi there, 0 s ago");
    assert_eq!(m.describe_at(65_999), "12 : hi there, 60 s ago");
    assert_eq!(m.describe_at(0), "12 : hi there, 0 s ago");
    assert!(m.describe().starts_with("12 : hi there, "));
}
