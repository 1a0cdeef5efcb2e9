use dot_marketplace::chat::{Error, Event, Pallet, Status};
use dot_marketplace::dispatch::{DispatchError, Origin};

fn module(e: Error) -> Result<(), DispatchError<Error>> {
    Err(DispatchError::Module(e))
}

#[test]
fn writing_stores_an_active_message_under_the_next_id() {
    let mut chat = Pallet::new();
    assert_eq!(chat.write_message(Origin::Signed(1), 2, b"hello".to_vec()), Ok(()));
    assert_eq!(chat.write_message(Origin::Signed(2), 1, b"hi".to_vec()), Ok(()));
    assert_eq!(chat.get_message_count(), 2);
    let first = chat.get_message(0);
    assert_eq!(first.message_id, 0);
    assert_eq!(first.sender_id, 1);
    assert_eq!(first.receiver_id, 2);
    assert_eq!(first.message, b"hello".to_vec());
    assert_eq!(first.reply, None);
    assert_eq!(first.status, Status::Active);
    assert_eq!(chat.get_message(1).message, b"hi".to_vec());
    assert_eq!(
        chat.events().to_vec(),
        vec![Event::MessageCreated(0, 1, 2), Event::MessageCreated(1, 2, 1)]
    );
}

#[test]
fn nobody_writes_to_themselves() {
    let mut chat = Pallet::new();
    assert_eq!(chat.write_message(Origin::Signed(1), 1, b"me".to_vec()), module(Error::ReceiverNotValid));
    assert_eq!(chat.write_message(Origin::Unsigned, 1, b"me".to_vec()), Err(DispatchError::BadOrigin));
    assert_eq!(chat.get_message_count(), 0);
}

#[test]
fn only_the_receiver_replies_once() {
    let mut chat = Pallet::new();
    chat.write_message(Origin::Signed(1), 2, b"hello".to_vec()).unwrap();
    assert_eq!(chat.reply_message(Origin::Signed(1), 0, b"no".to_vec()), module(Error::UnauthorisedToReply));
    assert_eq!(chat.reply_message(Origin::Signed(2), 7, b"no".to_vec()), module(Error::MessageDoesNotExist));
    assert_eq!(chat.reply_message(Origin::Signed(2), 0, b"hey".to_vec()), Ok(()));
    let m = chat.get_message(0);
    assert_eq!(m.reply, Some(b"hey".to_vec()));
    assert_eq!(m.status, Status::Replied);
    assert_eq!(chat.reply_message(Origin::Signed(2), 0, b"again".to_vec()), module(Error::ReplyAlreadyExists));
    assert_eq!(chat.events().last(), Some(&Event::MessageReplied(0, 2, 1)));
}

#[test]
fn reading_a_reply_closes_the_conversation() {
    let mut chat = Pallet::new();
    chat.write_message(Origin::Signed(1), 2, b"hello".to_vec()).unwrap();
    assert_eq!(chat.mark_as_read(Origin::Signed(1), 0, true), module(Error::ReplyDoesNotExist));
    chat.reply_message(Origin::Signed(2), 0, b"hey".to_vec()).unwrap();
    assert_eq!(chat.mark_as_read(Origin::Signed(2), 0, true), module(Error::UnauthorisedToClose));
    // keeping the conversation
    assert_eq!(chat.mark_as_read(Origin::Signed(1), 0, false), Ok(()));
    assert_eq!(chat.get_message(0).status, Status::Replied);
    // closing it removes the message
    assert_eq!(chat.mark_as_read(Origin::Signed(1), 0, true), Ok(()));
    assert_eq!(chat.mark_as_read(Origin::Signed(1), 0, true), module(Error::MessageDoesNotExist));
    let gone = chat.get_message(0);
    assert_eq!(gone.message, Vec::<u8>::new());
    assert_eq!(gone.status, Status::Active);
    assert_eq!(chat.get_message_count(), 1);
    assert_eq!(
        chat.events().to_vec(),
        vec![
            Event::MessageCreated(0, 1, 2),
            Event::MessageReplied(0, 2, 1),
            Event::MessageClosed(0, 1, 2),
            Event::MessageClosed(0, 1, 2),
        ]
    );
}

#[test]
fn a_closed_conversation_leaves_the_other_messages() {
    let mut chat = Pallet::new();
    chat.write_message(Origin::Signed(1), 2, b"a".to_vec()).unwrap();
    chat.write_message(Origin::Signed(3), 4, b"b".to_vec()).unwrap();
    chat.reply_message(Origin::Signed(2), 0, b"ra".to_vec()).unwrap();
    chat.mark_as_read(Origin::Signed(1), 0, true).unwrap();
    let other = chat.get_message(1);
    assert_eq!(other.message, b"b".to_vec());
    assert_eq!(other.sender_id, 3);
    assert_eq!(other.status, Status::Active);
}

#[test]
fn default_status_is_active() {
    assert_eq!(Status::default(), Status::Active);
}
