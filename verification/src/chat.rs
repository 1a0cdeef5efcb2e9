//! One-to-one chat between two users: a sender writes a message to a
//! receiver, the receiver replies once, and the sender reads the reply,
//! closing the conversation or keeping it.

use vstd::prelude::*;
use crate::dispatch::{DispatchError, Origin, ensure_signed};
use crate::ledger::AccountId;
use crate::table::Table;
use crate::user::copy_bytes;

verus! {

/// Where a conversation stands.
#[derive(Clone, Copy, PartialEq, Eq, Structural, Debug)]
pub enum Status {
    /// Written, waiting for the receiver's reply.
    Active,
    /// The receiver replied.
    Replied,
    /// The sender read the reply and closed the conversation.
    Closed,
}

impl Default for Status {
    fn default() -> (s: Self)
        ensures
            s == Status::Active,
    {
        Status::Active
    }
}

/// A message and its reply.
#[derive(Debug)]
pub struct Message {
    pub message_id: u128,
    pub sender_id: AccountId,
    pub receiver_id: AccountId,
    pub message: Vec<u8>,
    pub reply: Option<Vec<u8>>,
    pub status: Status,
}

/// A message as mathematical values.
pub struct MessageView {
    pub message_id: u128,
    pub sender_id: AccountId,
    pub receiver_id: AccountId,
    pub message: Seq<u8>,
    pub reply: Option<Seq<u8>>,
    pub status: Status,
}

impl View for Message {
    type V = MessageView;

    open spec fn view(&self) -> MessageView {
        MessageView {
            message_id: self.message_id,
            sender_id: self.sender_id,
            receiver_id: self.receiver_id,
            message: self.message@,
            reply: match self.reply {
                Some(r) => Some(r@),
                None => None,
            },
            status: self.status,
        }
    }
}

/// The message that a lookup of an id without one gives.
pub open spec fn empty_message() -> MessageView {
    MessageView {
        message_id: 0,
        sender_id: 0,
        receiver_id: 0,
        message: Seq::empty(),
        reply: None,
        status: Status::Active,
    }
}

impl Default for Message {
    fn default() -> (m: Self)
        ensures
            m@ == empty_message(),
    {
        Message {
            message_id: 0,
            sender_id: 0,
            receiver_id: 0,
            message: Vec::new(),
            reply: None,
            status: Status::Active,
        }
    }
}

impl Message {
    /// A copy of the message.
    pub fn duplicate(&self) -> (m: Self)
        ensures
            m@ == self@,
    {
        Message {
            message_id: self.message_id,
            sender_id: self.sender_id,
            receiver_id: self.receiver_id,
            message: copy_bytes(&self.message),
            reply: match &self.reply {
                Some(r) => Some(copy_bytes(r)),
                None => None,
            },
            status: self.status,
        }
    }

    /// The same message, rebuilt field by field.
    fn _new(self) -> (m: Self)
        ensures
            m@ == self@,
    {
        Self {
            message_id: self.message_id,
            sender_id: self.sender_id,
            receiver_id: self.receiver_id,
            message: self.message,
            reply: self.reply,
            status: self.status,
        }
    }
}

/// What the chat reports: the message id, then the account that acted and
/// the other party.
#[derive(Clone, Copy, PartialEq, Eq, Structural, Debug)]
pub enum Event {
    MessageCreated(u128, AccountId, AccountId),
    MessageReplied(u128, AccountId, AccountId),
    MessageClosed(u128, AccountId, AccountId),
}

/// Why the chat refused an operation.
#[derive(Clone, Copy, PartialEq, Eq, Structural, Debug)]
pub enum Error {
    NoneValue,
    StorageOverflow,
    /// The receiver is the sender.
    ReceiverNotValid,
    /// No message has the id.
    MessageDoesNotExist,
    /// The message was already replied to.
    ReplyAlreadyExists,
    /// Only the receiver replies.
    UnauthorisedToReply,
    /// Only the sender reads the reply.
    UnauthorisedToClose,
    /// The message has no reply yet.
    ReplyDoesNotExist,
}

/// Outcome of an operation of the chat.
pub type ChatResult = Result<(), DispatchError<Error>>;

/// The chat's state, as mathematical values.
#[verifier::ext_equal]
pub struct ChatView {
    /// The number of messages written so far, and the id of the next one.
    pub message_count: u128,
    pub messages: Map<u128, MessageView>,
    pub events: Seq<Event>,
}

impl ChatView {
    /// Every stored message has an id below the count, under which it is
    /// stored.
    pub open spec fn wf(self) -> bool {
        forall|id: u128| #[trigger]
            self.messages.contains_key(id) ==> id < self.message_count && self.messages[id].message_id == id
    }
}

pub open spec fn chat_error(e: Error) -> DispatchError<Error> {
    DispatchError::Module(e)
}

/// Writing `message` to `receiver`: it is stored under the next id, active
/// and without a reply.
pub open spec fn write_outcome(v: ChatView, origin: Origin, receiver: AccountId, message: Seq<u8>) -> Result<ChatView, DispatchError<Error>> {
    match origin {
        Origin::Signed(sender) => if sender == receiver {
            Err(chat_error(Error::ReceiverNotValid))
        } else {
            let id = v.message_count;
            Ok(ChatView {
                message_count: (id + 1) as u128,
                messages: v.messages.insert(id, MessageView {
                    message_id: id,
                    sender_id: sender,
                    receiver_id: receiver,
                    message,
                    reply: None,
                    status: Status::Active,
                }),
                events: v.events.push(Event::MessageCreated(id, sender, receiver)),
            })
        },
        _ => Err(DispatchError::BadOrigin),
    }
}

/// The receiver of active message `id` replying to it.
pub open spec fn reply_outcome(v: ChatView, origin: Origin, id: u128, reply: Seq<u8>) -> Result<ChatView, DispatchError<Error>> {
    match origin {
        Origin::Signed(who) => if !v.messages.contains_key(id) {
            Err(chat_error(Error::MessageDoesNotExist))
        } else if who != v.messages[id].receiver_id {
            Err(chat_error(Error::UnauthorisedToReply))
        } else if v.messages[id].status != Status::Active {
            Err(chat_error(Error::ReplyAlreadyExists))
        } else {
            let m = v.messages[id];
            Ok(ChatView {
                messages: v.messages.insert(id, MessageView { reply: Some(reply), status: Status::Replied, ..m }),
                events: v.events.push(Event::MessageReplied(id, who, m.sender_id)),
                ..v
            })
        },
        _ => Err(DispatchError::BadOrigin),
    }
}

/// The sender of replied message `id` reading the reply: with `mode` the
/// conversation closes and the message leaves the store, else it stays.
pub open spec fn read_outcome(v: ChatView, origin: Origin, id: u128, mode: bool) -> Result<ChatView, DispatchError<Error>> {
    match origin {
        Origin::Signed(who) => if !v.messages.contains_key(id) {
            Err(chat_error(Error::MessageDoesNotExist))
        } else if who != v.messages[id].sender_id {
            Err(chat_error(Error::UnauthorisedToClose))
        } else if v.messages[id].status != Status::Replied {
            Err(chat_error(Error::ReplyDoesNotExist))
        } else {
            Ok(ChatView {
                messages: if mode { v.messages.remove(id) } else { v.messages },
                events: v.events.push(Event::MessageClosed(id, who, v.messages[id].receiver_id)),
                ..v
            })
        },
        _ => Err(DispatchError::BadOrigin),
    }
}


/// A conversation from start to end: a message written by `sender` to
/// another account is stored under the next id, the receiver's reply to it
/// is accepted, and the sender's reading with closing removes it again,
/// leaving the stored messages as they were before it was written.
pub proof fn lemma_conversation_round_trip(
    v: ChatView,
    sender: AccountId,
    receiver: AccountId,
    message: Seq<u8>,
    reply: Seq<u8>,
)
    requires
        v.wf(),
        sender != receiver,
        v.message_count < u128::MAX,
    ensures
        ({
            let id = v.message_count;
            &&& write_outcome(v, Origin::Signed(sender), receiver, message) matches Ok(v1)
            &&& v1.messages[id].message == message
            &&& v1.messages[id].status == Status::Active
            &&& reply_outcome(v1, Origin::Signed(receiver), id, reply) matches Ok(v2)
            &&& v2.messages[id].reply == Some(reply)
            &&& v2.messages[id].status == Status::Replied
            &&& read_outcome(v2, Origin::Signed(sender), id, false) matches Ok(v3)
            &&& v3.messages == v2.messages
            &&& read_outcome(v2, Origin::Signed(sender), id, true) matches Ok(v4)
            &&& v4.messages == v.messages
            &&& v4.message_count == v.message_count + 1
        }),
{
    let id = v.message_count;
    assert(!v.messages.contains_key(id));
    let v1 = write_outcome(v, Origin::Signed(sender), receiver, message).unwrap();
    let v2 = reply_outcome(v1, Origin::Signed(receiver), id, reply).unwrap();
    let v4 = read_outcome(v2, Origin::Signed(sender), id, true).unwrap();
    assert(v4.messages =~= v.messages);
}

/// The message stored under `id`, the empty one when there is none.
pub open spec fn message_or_empty(v: ChatView, id: u128) -> MessageView {
    if v.messages.contains_key(id) {
        v.messages[id]
    } else {
        empty_message()
    }
}

/// The messages of the chat.
pub struct Pallet {
    message_count: u128,
    messages: Table<u128, Message>,
    events: Vec<Event>,
}

impl View for Pallet {
    type V = ChatView;

    closed spec fn view(&self) -> ChatView {
        ChatView {
            message_count: self.message_count,
            messages: self.messages@.map_values(|m: Message| m@),
            events: self.events@,
        }
    }
}

impl Pallet {
    /// A chat without messages.
    pub fn new() -> (c: Self)
        ensures
            c@ == (ChatView { message_count: 0, messages: Map::empty(), events: Seq::empty() }),
    {
        let c = Pallet { message_count: 0, messages: Table::new(), events: Vec::new() };
        assert(c@.messages =~= Map::<u128, MessageView>::empty());
        c
    }

    /// The number of messages written so far.
    pub fn get_message_count(&self) -> (n: u128)
        ensures
            n == self@.message_count,
    {
        self.message_count
    }

    /// A copy of the message stored under `id`, the empty one when there is
    /// none.
    pub fn get_message(&self, id: u128) -> (m: Message)
        ensures
            m@ == message_or_empty(self@, id),
    {
        match self.messages.get(&id) {
            Some(m) => m.duplicate(),
            None => Message::default(),
        }
    }

    /// The events reported so far, oldest first.
    pub fn events(&self) -> (e: &[Event])
        ensures
            e@ == self@.events,
    {
        self.events.as_slice()
    }

    fn put_message(&mut self, id: u128, m: Message)
        ensures
            final(self)@ == (ChatView { messages: old(self)@.messages.insert(id, m@), ..old(self)@ }),
    {
        let ghost before = self.messages@;
        let ghost mv = m@;
        self.messages.insert(id, m);
        proof {
            assert(self.messages@.map_values(|m: Message| m@) =~= before.map_values(|m: Message| m@).insert(id, mv));
        }
    }

    fn take_message(&mut self, id: u128) -> (m: Option<Message>)
        ensures
            final(self)@ == (ChatView { messages: old(self)@.messages.remove(id), ..old(self)@ }),
            match m {
                Some(m) => old(self)@.messages.contains_key(id) && m@ == old(self)@.messages[id],
                None => !old(self)@.messages.contains_key(id),
            },
    {
        let ghost before = self.messages@;
        let r = self.messages.remove(&id);
        proof {
            assert(self.messages@.map_values(|m: Message| m@) =~= before.map_values(|m: Message| m@).remove(id));
        }
        r
    }

    /// The signer of `origin` writes `message` to `receiver`.
    pub fn write_message(&mut self, origin: Origin, receiver: AccountId, message: Vec<u8>) -> (r: ChatResult)
        requires
            old(self)@.wf(),
            write_outcome(old(self)@, origin, receiver, message@) is Ok ==> old(self)@.message_count < u128::MAX,
        ensures
            final(self)@.wf(),
            match write_outcome(old(self)@, origin, receiver, message@) {
                Ok(v) => r is Ok && final(self)@ == v,
                Err(e) => r == Err::<(), DispatchError<Error>>(e) && final(self)@ == old(self)@,
            },
    {
        let sender = match ensure_signed(origin) {
            Ok(a) => a,
            Err(e) => return Err(e),
        };
        let message_count = self.get_message_count();
        if sender == receiver {
            return Err(DispatchError::Module(Error::ReceiverNotValid));
        }
        let ghost text = message@;
        let msg = Message {
            message_id: message_count,
            sender_id: sender,
            receiver_id: receiver,
            message: message,
            reply: None,
            status: Status::Active,
        };
        self.put_message(message_count, msg);
        self.message_count = message_count + 1;
        self.events.push(Event::MessageCreated(message_count, sender, receiver));
        proof {
            let v = write_outcome(old(self)@, origin, receiver, text).unwrap();
            assert(self@ =~= v);
        }
        Ok(())
    }

    /// The signer of `origin`, receiver of message `message_id`, replies.
    pub fn reply_message(&mut self, origin: Origin, message_id: u128, reply: Vec<u8>) -> (r: ChatResult)
        requires
            old(self)@.wf(),
        ensures
            final(self)@.wf(),
            match reply_outcome(old(self)@, origin, message_id, reply@) {
                Ok(v) => r is Ok && final(self)@ == v,
                Err(e) => r == Err::<(), DispatchError<Error>>(e) && final(self)@ == old(self)@,
            },
    {
        let receiver = match ensure_signed(origin) {
            Ok(a) => a,
            Err(e) => return Err(e),
        };
        let ghost text = reply@;
        let ghost v0 = self@;
        let mut msg = match self.take_message(message_id) {
            Some(m) => m,
            None => return Err(DispatchError::Module(Error::MessageDoesNotExist)),
        };
        if receiver != msg.receiver_id {
            self.put_message(message_id, msg);
            assert(self@ =~= v0);
            return Err(DispatchError::Module(Error::UnauthorisedToReply));
        }
        if msg.status != Status::Active {
            self.put_message(message_id, msg);
            assert(self@ =~= v0);
            return Err(DispatchError::Module(Error::ReplyAlreadyExists));
        }
        msg.reply = Some(reply);
        msg.status = Status::Replied;
        let message_sender = msg.sender_id;
        self.put_message(message_id, msg);
        self.events.push(Event::MessageReplied(message_id, receiver, message_sender));
        proof {
            let v = reply_outcome(v0, origin, message_id, text).unwrap();
            assert(self@ =~= v);
        }
        Ok(())
    }

    /// The signer of `origin`, sender of message `message_id`, reads the
    /// reply; with `mode` the message is closed and leaves the store.
    pub fn mark_as_read(&mut self, origin: Origin, message_id: u128, mode: bool) -> (r: ChatResult)
        requires
            old(self)@.wf(),
        ensures
            final(self)@.wf(),
            match read_outcome(old(self)@, origin, message_id, mode) {
                Ok(v) => r is Ok && final(self)@ == v,
                Err(e) => r == Err::<(), DispatchError<Error>>(e) && final(self)@ == old(self)@,
            },
    {
        let sender = match ensure_signed(origin) {
            Ok(a) => a,
            Err(e) => return Err(e),
        };
        let ghost v0 = self@;
        let msg = match self.take_message(message_id) {
            Some(m) => m,
            None => return Err(DispatchError::Module(Error::MessageDoesNotExist)),
        };
        if sender != msg.sender_id {
            self.put_message(message_id, msg);
            assert(self@ =~= v0);
            return Err(DispatchError::Module(Error::UnauthorisedToClose));
        }
        if msg.status != Status::Replied {
            self.put_message(message_id, msg);
            assert(self@ =~= v0);
            return Err(DispatchError::Module(Error::ReplyDoesNotExist));
        }
        let receiver = msg.receiver_id;
        let status = if mode { Status::Closed } else { Status::Replied };
        if status != Status::Closed {
            self.put_message(message_id, msg);
        }
        self.events.push(Event::MessageClosed(message_id, sender, receiver));
        proof {
            let v = read_outcome(v0, origin, message_id, mode).unwrap();
            assert(self@.messages =~= v.messages);
            assert(self@ =~= v);
        }
        Ok(())
    }
}

} // verus!
