use vstd::prelude::*;

use crate::chat_history::Update;

verus! {

/// A calendar day in the user's local time zone.
#[derive(Clone, Copy, PartialEq, Eq, Structural, Debug)]
pub struct LocalDay {
    pub year: i32,
    pub month: u8,
    pub day: u8,
}

/// Who sent a message: a user, or a chat posting in its own name.
#[derive(Clone, Copy, PartialEq, Eq, Structural, Debug)]
pub enum MessageSender {
    User(i64),
    Chat(i64),
}

impl MessageSender {
    pub open spec fn spec_id(self) -> i64 {
        match self {
            MessageSender::User(id) => id,
            MessageSender::Chat(id) => id,
        }
    }

    /// The identifier of the user or chat that sent the message.
    pub fn id(&self) -> (r: i64)
        ensures
            r == self.spec_id(),
    {
        match self {
            MessageSender::User(id) => *id,
            MessageSender::Chat(id) => *id,
        }
    }

    /// The user's identifier, when the sender is a user.
    pub fn as_user(&self) -> (r: Option<i64>)
        ensures
            r == (match *self {
                MessageSender::User(id) => Some(id),
                MessageSender::Chat(_) => None::<i64>,
            }),
    {
        match self {
            MessageSender::User(id) => Some(*id),
            MessageSender::Chat(_) => None,
        }
    }
}

/// What a message carries. Ordinary content (text and media) can be grouped
/// with neighbouring messages of the same sender; service notices cannot.
#[derive(Debug)]
pub enum MessageContent {
    Text(String),
    Animation,
    Audio,
    Document,
    Photo,
    Sticker,
    Video,
    VideoNote,
    VoiceNote,
    Location,
    Venue,
    Contact,
    AnimatedEmoji,
    Dice,
    Game,
    Poll,
    Invoice,
    Call,
    Unsupported,
    Service,
}

impl MessageContent {
    pub open spec fn spec_is_groupable(&self) -> bool {
        !(*self is Service)
    }

    pub fn is_groupable(&self) -> (r: bool)
        ensures
            r == self.spec_is_groupable(),
    {
        match self {
            MessageContent::Service => false,
            _ => true,
        }
    }
}

impl Clone for MessageContent {
    fn clone(&self) -> (r: Self)
        ensures
            r == *self,
    {
        match self {
            MessageContent::Text(t) => MessageContent::Text(t.clone()),
            MessageContent::Animation => MessageContent::Animation,
            MessageContent::Audio => MessageContent::Audio,
            MessageContent::Document => MessageContent::Document,
            MessageContent::Photo => MessageContent::Photo,
            MessageContent::Sticker => MessageContent::Sticker,
            MessageContent::Video => MessageContent::Video,
            MessageContent::VideoNote => MessageContent::VideoNote,
            MessageContent::VoiceNote => MessageContent::VoiceNote,
            MessageContent::Location => MessageContent::Location,
            MessageContent::Venue => MessageContent::Venue,
            MessageContent::Contact => MessageContent::Contact,
            MessageContent::AnimatedEmoji => MessageContent::AnimatedEmoji,
            MessageContent::Dice => MessageContent::Dice,
            MessageContent::Game => MessageContent::Game,
            MessageContent::Poll => MessageContent::Poll,
            MessageContent::Invoice => MessageContent::Invoice,
            MessageContent::Call => MessageContent::Call,
            MessageContent::Unsupported => MessageContent::Unsupported,
            MessageContent::Service => MessageContent::Service,
        }
    }
}

/// One message of a chat. Everything but the content is fixed when the
/// message is created; `day` is the local calendar day of `date`.
#[derive(Debug)]
pub struct Message {
    pub id: i64,
    pub sender: MessageSender,
    pub is_outgoing: bool,
    pub date: i32,
    pub day: LocalDay,
    pub content: MessageContent,
}

/// The key on which consecutive messages are grouped: messages are grouped
/// when both are groupable, both go the same way and have the same sender.
pub open spec fn spec_group_key(m: Message) -> Option<(bool, i64)> {
    if m.content.spec_is_groupable() {
        Some((m.is_outgoing, m.sender.spec_id()))
    } else {
        None
    }
}

impl Clone for Message {
    fn clone(&self) -> (r: Self)
        ensures
            r == *self,
    {
        Message {
            id: self.id,
            sender: self.sender,
            is_outgoing: self.is_outgoing,
            date: self.date,
            day: self.day,
            content: self.content.clone(),
        }
    }
}

impl Message {
    pub fn new(
        id: i64,
        sender: MessageSender,
        is_outgoing: bool,
        date: i32,
        day: LocalDay,
        content: MessageContent,
    ) -> (r: Message)
        ensures
            r == (Message { id, sender, is_outgoing, date, day, content }),
    {
        Message { id, sender, is_outgoing, date, day, content }
    }

    pub fn id(&self) -> (r: i64)
        ensures
            r == self.id,
    {
        self.id
    }

    pub fn sender(&self) -> (r: &MessageSender)
        ensures
            *r == self.sender,
    {
        &self.sender
    }

    pub fn is_outgoing(&self) -> (r: bool)
        ensures
            r == self.is_outgoing,
    {
        self.is_outgoing
    }

    pub fn date(&self) -> (r: i32)
        ensures
            r == self.date,
    {
        self.date
    }

    pub fn day(&self) -> (r: LocalDay)
        ensures
            r == self.day,
    {
        self.day
    }

    pub fn content(&self) -> (r: &MessageContent)
        ensures
            *r == self.content,
    {
        &self.content
    }

    /// Replaces the content; the message keeps its identity and its other fields.
    pub fn set_content(&mut self, content: MessageContent)
        ensures
            *final(self) == (Message { content, ..*old(self) }),
    {
        self.content = content;
    }

    /// Takes a content update meant for this message: the content is
    /// replaced; other updates leave the message as it is.
    pub fn handle_update(&mut self, update: Update)
        ensures
            *final(self) == (match update {
                Update::MessageContent { new_content, .. } => Message {
                    content: new_content,
                    ..*old(self)
                },
                _ => *old(self),
            }),
    {
        match update {
            Update::MessageContent { new_content, .. } => self.set_content(new_content),
            _ => {},
        }
    }

    /// The grouping key of this message, see [`spec_group_key`].
    pub fn group_key(&self) -> (r: Option<(bool, i64)>)
        ensures
            r == spec_group_key(*self),
    {
        if self.content.is_groupable() {
            Some((self.is_outgoing, self.sender.id()))
        } else {
            None
        }
    }
}

} // verus!
