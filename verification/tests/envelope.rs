use mildew_valley::command::{GameCommand, Heading};
use mildew_valley::envelope::{addressed, read_address};

#[test]
fn an_address_is_the_entity_little_endian_then_the_message() {
    assert_eq!(addressed(0x0403_0201, &[9, 8]), vec![1, 2, 3, 4, 9, 8]);
    assert_eq!(addressed(7, &[]), vec![7, 0, 0, 0]);
}

#[test]
fn an_addressed_message_reads_back() {
    let cmd = GameCommand::Walk { heading: Some(Heading::West) };
    let wire = addressed(123_456, &cmd.encode());
    let (entity, body) = read_address(&wire).expect("long enough");
    assert_eq!(entity, 123_456);
    assert_eq!(GameCommand::decode(&body), Some(cmd));
}

#[test]
fn too_short_to_name_an_entity_is_refused() {
    assert_eq!(read_address(&[1, 2, 3]), None);
    assert_eq!(read_address(&[]), None);
    assert_eq!(read_address(&[5, 0, 0, 0]), Some((5, vec![])));
}
