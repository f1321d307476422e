use vstd::prelude::*;

use crate::message::{spec_group_key, LocalDay, Message};

verus! {

/// One entry of a chat history: a message, or a divider that closes the
/// messages of one local day on their older side.
#[derive(Debug)]
pub enum ChatHistoryItem {
    Message(Message),
    DayDivider(LocalDay),
}

/// Where a message stands in a run of consecutive messages of one sender.
#[derive(Clone, Copy, PartialEq, Eq, Structural, Debug)]
pub enum MessageStyle {
    Single,
    First,
    Last,
    Center,
}

impl ChatHistoryItem {
    /// The day of a message, or the day that a divider stands for.
    pub open spec fn spec_day(self) -> LocalDay {
        match self {
            ChatHistoryItem::Message(m) => m.day,
            ChatHistoryItem::DayDivider(d) => d,
        }
    }

    pub open spec fn spec_group_key(self) -> Option<(bool, i64)> {
        match self {
            ChatHistoryItem::Message(m) => spec_group_key(m),
            ChatHistoryItem::DayDivider(_) => None,
        }
    }

    pub fn day(&self) -> (r: LocalDay)
        ensures
            r == self.spec_day(),
    {
        match self {
            ChatHistoryItem::Message(m) => m.day,
            ChatHistoryItem::DayDivider(d) => *d,
        }
    }

    pub fn is_day_divider(&self) -> (r: bool)
        ensures
            r == (*self is DayDivider),
    {
        match self {
            ChatHistoryItem::Message(_) => false,
            ChatHistoryItem::DayDivider(_) => true,
        }
    }

    pub fn message(&self) -> (r: Option<&Message>)
        ensures
            r == (match *self {
                ChatHistoryItem::Message(m) => Some(&m),
                ChatHistoryItem::DayDivider(_) => None::<&Message>,
            }),
    {
        match self {
            ChatHistoryItem::Message(m) => Some(m),
            ChatHistoryItem::DayDivider(_) => None,
        }
    }

    pub fn group_key(&self) -> (r: Option<(bool, i64)>)
        ensures
            r == self.spec_group_key(),
    {
        match self {
            ChatHistoryItem::Message(m) => m.group_key(),
            ChatHistoryItem::DayDivider(_) => None,
        }
    }
}

impl Clone for ChatHistoryItem {
    fn clone(&self) -> (r: Self)
        ensures
            r == *self,
    {
        match self {
            ChatHistoryItem::Message(m) => ChatHistoryItem::Message(m.clone()),
            ChatHistoryItem::DayDivider(d) => ChatHistoryItem::DayDivider(*d),
        }
    }
}

/// Whether the item at `i` is a message with identifier `id`.
pub open spec fn is_message_with_id(s: Seq<ChatHistoryItem>, i: int, id: i64) -> bool {
    0 <= i < s.len() && s[i] is Message && s[i]->Message_0.id == id
}

/// Whether a message with identifier `id` stands in `s`.
pub open spec fn has_id(s: Seq<ChatHistoryItem>, id: i64) -> bool {
    exists|i: int| is_message_with_id(s, i, id)
}

/// No identifier stands twice in `s`.
pub open spec fn unique_ids(s: Seq<ChatHistoryItem>) -> bool {
    forall|i: int, j: int|
        0 <= i < s.len() && 0 <= j < s.len() && i != j && #[trigger] s[i] is Message
            && #[trigger] s[j] is Message ==> s[i]->Message_0.id != s[j]->Message_0.id
}

/// Messages stand newest first: identifiers strictly descend over the list.
pub open spec fn ids_descending(s: Seq<ChatHistoryItem>) -> bool {
    forall|i: int, j: int|
        0 <= i < j < s.len() && #[trigger] s[i] is Message && #[trigger] s[j] is Message
            ==> s[i]->Message_0.id > s[j]->Message_0.id
}

/// The day dividers stand where the days change: each maximal run of
/// consecutive messages of one day is closed, on its older side, by exactly
/// one divider for that day, and nothing else is a divider.
pub open spec fn days_well_placed(s: Seq<ChatHistoryItem>) -> bool {
    // a divider closes a message of its own day
    &&& forall|i: int|
        0 <= i < s.len() && #[trigger] s[i] is DayDivider ==> i > 0 && s[i - 1] is Message
            && s[i - 1].spec_day() == s[i].spec_day()
    // a message is followed by a divider or by a message of the same day
    &&& forall|i: int|
        0 <= i < s.len() && #[trigger] s[i] is Message ==> i + 1 < s.len() && (s[i + 1] is Message
            ==> s[i + 1].spec_day() == s[i].spec_day())
    // after a divider comes a message of another day
    &&& forall|i: int|
        0 <= i && i + 1 < s.len() && #[trigger] s[i] is DayDivider ==> s[i + 1] is Message
            && s[i + 1].spec_day() != s[i].spec_day()
}

/// The grouping key of the item next to `i` on its newer side, looking past
/// a day divider; `None` at the head.
pub open spec fn newer_key(s: Seq<ChatHistoryItem>, i: int) -> Option<(bool, i64)> {
    let j = if i > 0 && s[i - 1] is DayDivider {
        i - 2
    } else {
        i - 1
    };
    if 0 <= j {
        s[j].spec_group_key()
    } else {
        None
    }
}

/// The grouping key of the item next to `i` on its older side, looking past
/// a day divider; `None` at the end.
pub open spec fn older_key(s: Seq<ChatHistoryItem>, i: int) -> Option<(bool, i64)> {
    let j = if i + 1 < s.len() && s[i + 1] is DayDivider {
        i + 2
    } else {
        i + 1
    };
    if j < s.len() {
        s[j].spec_group_key()
    } else {
        None
    }
}

/// The style of the item at `i`: messages with equal grouping keys that
/// follow each other, with at most a day divider between them, form a run; a
/// run's newest message is `First`, its oldest `Last`, those between
/// `Center`, and a message alone is `Single`. Service messages and dividers
/// have no key and stand alone.
pub open spec fn style_at(s: Seq<ChatHistoryItem>, i: int) -> MessageStyle {
    let key = s[i].spec_group_key();
    let with_newer = key is Some && newer_key(s, i) == key;
    let with_older = key is Some && older_key(s, i) == key;
    if with_newer && with_older {
        MessageStyle::Center
    } else if with_newer {
        MessageStyle::Last
    } else if with_older {
        MessageStyle::First
    } else {
        MessageStyle::Single
    }
}

/// The items for a batch of messages given newest first: each message, and a
/// divider after each message whose older neighbour in the batch has another
/// day, or that is the oldest of the batch.
pub open spec fn layout(b: Seq<Message>) -> Seq<ChatHistoryItem>
    decreases b.len(),
{
    if b.len() == 0 {
        Seq::empty()
    } else {
        let rest = layout(b.drop_first());
        if b.len() > 1 && b[1].day == b[0].day {
            seq![ChatHistoryItem::Message(b[0])] + rest
        } else {
            seq![ChatHistoryItem::Message(b[0]), ChatHistoryItem::DayDivider(b[0].day)] + rest
        }
    }
}

} // verus!
