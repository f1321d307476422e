use std::collections::HashMap;
use std::collections::HashSet;
use std::collections::VecDeque;

use vstd::prelude::*;

use crate::history_item::{
    days_well_placed, has_id, is_message_with_id, layout, newer_key, older_key, style_at, unique_ids,
    ChatHistoryItem, MessageStyle,
};
use crate::lemmas::{
    lemma_same_shape,
    distinct_ids, lemma_appended_days, lemma_appended_ids, lemma_fresh, lemma_pushed_front,
    lemma_removed_at_days, lemma_removed_at_ids,
};
use crate::message::{Message, MessageContent};

verus! {

broadcast use vstd::std_specs::hash::group_hash_axioms;

/// An error of the messaging engine, as it reported it.
#[derive(Debug)]
pub struct EngineError {
    pub code: i32,
    pub message: String,
}

/// Why older messages could not be loaded.
#[derive(Debug)]
pub enum ChatHistoryError {
    /// Older messages are being loaded already.
    AlreadyLoading,
    /// The messaging engine failed to give the messages.
    Tdlib(EngineError),
}

/// A request for up to `limit` messages of the chat `chat_id` older than
/// the message `from_message_id` (0: the newest messages).
#[derive(Clone, Copy, PartialEq, Eq, Structural, Debug)]
pub struct HistoryRequest {
    pub chat_id: i64,
    pub from_message_id: i64,
    pub limit: i32,
}

/// An update of the messaging engine that concerns the history.
#[derive(Debug)]
pub enum Update {
    NewMessage(Message),
    MessageContent { message_id: i64, new_content: MessageContent },
    MessageEdited { message_id: i64 },
    MessageSendSucceeded { old_message_id: i64, message: Message },
    DeleteMessages { message_ids: Vec<i64>, from_cache: bool },
}

/// What changed in the item list: at `position`, `removed` items were taken
/// out and `added` items put in their place.
#[derive(Clone, Copy, PartialEq, Eq, Structural, Debug)]
pub struct ItemsChanged {
    pub position: usize,
    pub removed: usize,
    pub added: usize,
}

/// `c` tells how to go from `old` to `new`: both agree before `c.position`
/// and after the changed stretch.
pub open spec fn describes(
    old: Seq<ChatHistoryItem>,
    new: Seq<ChatHistoryItem>,
    c: ItemsChanged,
) -> bool {
    let p = c.position as int;
    &&& p + c.removed <= old.len()
    &&& p + c.added <= new.len()
    &&& new.len() == old.len() - c.removed + c.added
    &&& new.subrange(0, p) == old.subrange(0, p)
    &&& new.subrange(p + c.added, new.len() as int) == old.subrange(
        p + c.removed,
        old.len() as int,
    )
}

/// The items after `m` is put at the head of `s`, with a divider after it
/// unless the message at the head has the same day.
pub open spec fn pushed_front(s: Seq<ChatHistoryItem>, m: Message) -> Seq<ChatHistoryItem> {
    if s.len() > 0 && s[0] is Message && s[0].spec_day() == m.day {
        seq![ChatHistoryItem::Message(m)] + s
    } else {
        seq![ChatHistoryItem::Message(m), ChatHistoryItem::DayDivider(m.day)] + s
    }
}

/// The items after a new message arrives: it goes to the head, unless a
/// message with its identifier is already there.
pub open spec fn after_new_message(s: Seq<ChatHistoryItem>, m: Message) -> Seq<ChatHistoryItem> {
    if has_id(s, m.id) {
        s
    } else {
        pushed_front(s, m)
    }
}

/// The stretch `[a, b)` of items that go when the message at `p` is taken
/// out: the message; the divider that closed it, when no message of its day
/// is left newer than it; and the divider before it too, when the messages
/// on both sides of the gap then have the same day.
pub open spec fn removal_span(s: Seq<ChatHistoryItem>, p: int) -> (int, int) {
    let orphan = p + 1 < s.len() && s[p + 1] is DayDivider && (p == 0 || s[p - 1] is DayDivider);
    let rejoin = orphan && p > 0 && p + 2 < s.len() && s[p + 2] is Message && s[p
        + 2].spec_day() == s[p - 1].spec_day();
    if rejoin {
        (p - 1, p + 2)
    } else if orphan {
        (p, p + 2)
    } else {
        (p, p + 1)
    }
}

/// The items after the message at `p` is taken out.
pub open spec fn removed_at(s: Seq<ChatHistoryItem>, p: int) -> Seq<ChatHistoryItem> {
    let (a, b) = removal_span(s, p);
    s.subrange(0, a) + s.subrange(b, s.len() as int)
}

/// The change reported when the message at `p` is taken out.
pub open spec fn removal_change(s: Seq<ChatHistoryItem>, p: int) -> ItemsChanged {
    let (a, b) = removal_span(s, p);
    ItemsChanged { position: a as usize, removed: (b - a) as usize, added: 0 }
}

/// The position of the message with identifier `id` in `s`.
pub open spec fn index_of(s: Seq<ChatHistoryItem>, id: i64) -> int {
    choose|i: int| is_message_with_id(s, i, id)
}

/// The items after the message with identifier `id` is deleted; nothing
/// changes when no such message is there.
pub open spec fn after_delete(s: Seq<ChatHistoryItem>, id: i64) -> Seq<ChatHistoryItem> {
    if has_id(s, id) {
        removed_at(s, index_of(s, id))
    } else {
        s
    }
}

/// The identifiers of the messages in `s`.
pub open spec fn ids_of(s: Seq<ChatHistoryItem>) -> Set<i64> {
    Set::new(|id: i64| has_id(s, id))
}

/// The messages of the batch `b` whose identifiers are neither in `ids` nor
/// earlier in `b`, in the order of `b`.
pub open spec fn fresh_messages(b: Seq<Message>, ids: Set<i64>) -> Seq<Message>
    decreases b.len(),
{
    if b.len() == 0 {
        Seq::empty()
    } else if ids.contains(b[0].id) {
        fresh_messages(b.drop_first(), ids)
    } else {
        seq![b[0]] + fresh_messages(b.drop_first(), ids.insert(b[0].id))
    }
}

/// Whether the older end of `s` is a divider for the day of the newest
/// message of the batch `f`, which then continues that day.
pub open spec fn joins(s: Seq<ChatHistoryItem>, f: Seq<Message>) -> bool {
    &&& f.len() > 0
    &&& s.len() > 0
    &&& s.last() is DayDivider
    &&& s.last().spec_day() == f[0].day
}

/// The items after the batch `f` of new messages is put at the older end.
pub open spec fn appended(s: Seq<ChatHistoryItem>, f: Seq<Message>) -> Seq<ChatHistoryItem> {
    if joins(s, f) {
        s.drop_last() + layout(f)
    } else {
        s + layout(f)
    }
}

/// The items after a batch of older messages arrives: the messages that are
/// not there yet go to the older end, with their dividers.
pub open spec fn after_append(s: Seq<ChatHistoryItem>, b: Seq<Message>) -> Seq<ChatHistoryItem> {
    appended(s, fresh_messages(b, ids_of(s)))
}

/// The change reported when the batch `f` of new messages is put at the
/// older end of `s`.
pub open spec fn append_change(s: Seq<ChatHistoryItem>, f: Seq<Message>) -> ItemsChanged {
    let j: int = if joins(s, f) {
        1
    } else {
        0
    };
    ItemsChanged {
        position: (s.len() - j) as usize,
        removed: j as usize,
        added: layout(f).len() as usize,
    }
}

/// The items after the messages with identifiers `ids` are deleted, one
/// after the other.
pub open spec fn after_deletes(s: Seq<ChatHistoryItem>, ids: Seq<i64>) -> Seq<ChatHistoryItem>
    decreases ids.len(),
{
    if ids.len() == 0 {
        s
    } else {
        after_delete(after_deletes(s, ids.drop_last()), ids.last())
    }
}

/// The change reported when the message `id` is deleted from `s`: one
/// change if it is there, none otherwise.
pub open spec fn delete_changes(s: Seq<ChatHistoryItem>, id: i64) -> Seq<ItemsChanged> {
    if has_id(s, id) {
        seq![removal_change(s, index_of(s, id))]
    } else {
        Seq::empty()
    }
}

/// The changes reported when the messages `ids` are deleted one after the other.
pub open spec fn deletes_changes(s: Seq<ChatHistoryItem>, ids: Seq<i64>) -> Seq<ItemsChanged>
    decreases ids.len(),
{
    if ids.len() == 0 {
        Seq::empty()
    } else {
        deletes_changes(s, ids.drop_last()) + delete_changes(
            after_deletes(s, ids.drop_last()),
            ids.last(),
        )
    }
}

/// The change reported when `m` arrives as a new message in `s`.
pub open spec fn new_message_changes(s: Seq<ChatHistoryItem>, m: Message) -> Seq<ItemsChanged> {
    if has_id(s, m.id) {
        Seq::empty()
    } else {
        seq![
            ItemsChanged {
                position: 0,
                removed: 0,
                added: (pushed_front(s, m).len() - s.len()) as usize,
            },
        ]
    }
}

/// The items after the content of the message `id` is replaced.
pub open spec fn after_edit(s: Seq<ChatHistoryItem>, id: i64, content: MessageContent) -> Seq<
    ChatHistoryItem,
> {
    if has_id(s, id) {
        let p = index_of(s, id);
        s.update(p, ChatHistoryItem::Message(Message { content, ..s[p]->Message_0 }))
    } else {
        s
    }
}

/// The identifier of the oldest message in `s`, or 0 when there is none.
pub open spec fn oldest_message_id(s: Seq<ChatHistoryItem>) -> i64
    decreases s.len(),
{
    if s.len() == 0 {
        0
    } else if s.last() is Message {
        s.last()->Message_0.id
    } else {
        oldest_message_id(s.drop_last())
    }
}

/// The items after `update` is applied to `s`.
pub open spec fn after_update(s: Seq<ChatHistoryItem>, update: Update) -> Seq<ChatHistoryItem> {
    match update {
        Update::NewMessage(m) => after_new_message(s, m),
        Update::MessageContent { message_id, new_content } => after_edit(s, message_id, new_content),
        Update::MessageEdited { .. } => s,
        Update::MessageSendSucceeded { old_message_id, message } => after_new_message(
            after_delete(s, old_message_id),
            message,
        ),
        Update::DeleteMessages { message_ids, from_cache } => if from_cache {
            s
        } else {
            after_deletes(s, message_ids@)
        },
    }
}

/// The changes reported when `update` is applied to `s`.
pub open spec fn update_changes(s: Seq<ChatHistoryItem>, update: Update) -> Seq<ItemsChanged> {
    match update {
        Update::NewMessage(m) => new_message_changes(s, m),
        Update::MessageSendSucceeded { old_message_id, message } => delete_changes(
            s,
            old_message_id,
        ) + new_message_changes(after_delete(s, old_message_id), message),
        Update::DeleteMessages { message_ids, from_cache } => if from_cache {
            Seq::empty()
        } else {
            deletes_changes(s, message_ids@)
        },
        _ => Seq::empty(),
    }
}

/// The history of one chat, newest item first.
pub struct ChatHistory {
    chat_id: i64,
    is_loading: bool,
    list: VecDeque<ChatHistoryItem>,
    message_map: HashMap<i64, Message>,
    changes: Vec<ItemsChanged>,
}

/// Every message of `s` is in `map` under its identifier, and nothing else.
pub open spec fn map_matches(s: Seq<ChatHistoryItem>, map: Map<i64, Message>) -> bool {
    &&& forall|id: i64| #[trigger] map.contains_key(id) ==> has_id(s, id)
    &&& forall|i: int|
        0 <= i < s.len() && #[trigger] s[i] is Message ==> map.contains_key(s[i]->Message_0.id)
            && map[s[i]->Message_0.id] == s[i]->Message_0
}

impl View for ChatHistory {
    type V = Seq<ChatHistoryItem>;

    closed spec fn view(&self) -> Seq<ChatHistoryItem> {
        self.list@
    }
}

impl ChatHistory {
    /// The history's invariant: dividers where the days change, each
    /// identifier once, and the lookup table in step with the list.
    pub closed spec fn wf(&self) -> bool {
        &&& days_well_placed(self.list@)
        &&& unique_ids(self.list@)
        &&& map_matches(self.list@, self.message_map@)
    }

    /// The changes made since they were last taken, oldest first.
    pub closed spec fn spec_changes(&self) -> Seq<ItemsChanged> {
        self.changes@
    }

    pub closed spec fn spec_is_loading(&self) -> bool {
        self.is_loading
    }

    pub closed spec fn spec_chat_id(&self) -> i64 {
        self.chat_id
    }

    /// An empty history of the chat `chat_id`.
    pub fn new(chat_id: i64) -> (r: ChatHistory)
        ensures
            r.wf(),
            r@ == Seq::<ChatHistoryItem>::empty(),
            r.spec_changes() == Seq::<ItemsChanged>::empty(),
            !r.spec_is_loading(),
            r.spec_chat_id() == chat_id,
    {
        ChatHistory {
            chat_id,
            is_loading: false,
            list: VecDeque::new(),
            message_map: HashMap::new(),
            changes: Vec::new(),
        }
    }

    pub fn chat_id(&self) -> (r: i64)
        ensures
            r == self.spec_chat_id(),
    {
        self.chat_id
    }

    pub fn is_loading(&self) -> (r: bool)
        ensures
            r == self.spec_is_loading(),
    {
        self.is_loading
    }

    /// The number of items.
    pub fn n_items(&self) -> (r: usize)
        ensures
            r == self@.len(),
    {
        self.list.len()
    }

    /// The item at `position`, if there is one.
    pub fn item(&self, position: usize) -> (r: Option<ChatHistoryItem>)
        ensures
            r == (if position < self@.len() {
                Some(self@[position as int])
            } else {
                None::<ChatHistoryItem>
            }),
    {
        if position < self.list.len() {
            Some(self.list[position].clone())
        } else {
            None
        }
    }

    /// The grouping key of the item next to `position` on its newer side,
    /// looking past a day divider.
    fn newer_key(&self, position: usize) -> (r: Option<(bool, i64)>)
        requires
            position < self@.len(),
        ensures
            r == newer_key(self@, position as int),
    {
        if position == 0 {
            None
        } else if self.list[position - 1].is_day_divider() {
            if position >= 2 {
                self.list[position - 2].group_key()
            } else {
                None
            }
        } else {
            self.list[position - 1].group_key()
        }
    }

    /// The grouping key of the item next to `position` on its older side,
    /// looking past a day divider.
    fn older_key(&self, position: usize) -> (r: Option<(bool, i64)>)
        requires
            position < self@.len(),
        ensures
            r == older_key(self@, position as int),
    {
        let n = self.list.len();
        if position + 1 < n && self.list[position + 1].is_day_divider() {
            if position + 2 < n {
                self.list[position + 2].group_key()
            } else {
                None
            }
        } else if position + 1 < n {
            self.list[position + 1].group_key()
        } else {
            None
        }
    }

    /// The grouping style of the item at `position`.
    pub fn style(&self, position: usize) -> (r: MessageStyle)
        requires
            position < self@.len(),
        ensures
            r == style_at(self@, position as int),
    {
        let key = self.list[position].group_key();
        let with_newer = key.is_some() && self.newer_key(position) == key;
        let with_older = key.is_some() && self.older_key(position) == key;
        if with_newer && with_older {
            MessageStyle::Center
        } else if with_newer {
            MessageStyle::Last
        } else if with_older {
            MessageStyle::First
        } else {
            MessageStyle::Single
        }
    }

    /// The message with identifier `id`, looked up in the table.
    pub fn message_by_id(&self, id: i64) -> (r: Option<Message>)
        requires
            self.wf(),
        ensures
            r is Some <==> has_id(self@, id),
            forall|i: int| is_message_with_id(self@, i, id) ==> r == Some(self@[i]->Message_0),
    {
        match self.message_map.get(&id) {
            Some(m) => Some(m.clone()),
            None => None,
        }
    }

    /// Takes the changes made since they were last taken.
    pub fn take_changes(&mut self) -> (r: Vec<ItemsChanged>)
        ensures
            r@ == old(self).spec_changes(),
            final(self).spec_changes() == Seq::<ItemsChanged>::empty(),
            final(self)@ == old(self)@,
            final(self).wf() == old(self).wf(),
            final(self).spec_is_loading() == old(self).spec_is_loading(),
            final(self).spec_chat_id() == old(self).spec_chat_id(),
    {
        let mut out = Vec::new();
        std::mem::swap(&mut self.changes, &mut out);
        out
    }
    /// Puts `message` at the head, with a divider after it when the day changes.
    fn push_front(&mut self, message: Message)
        requires
            old(self).wf(),
            !has_id(old(self)@, message.id),
        ensures
            final(self).wf(),
            final(self)@ == pushed_front(old(self)@, message),
            final(self).changes@ == old(self).changes@.push(
                ItemsChanged {
                    position: 0,
                    removed: 0,
                    added: (final(self)@.len() - old(self)@.len()) as usize,
                },
            ),
            final(self).is_loading == old(self).is_loading,
            final(self).chat_id == old(self).chat_id,
    {
        let ghost s = self.list@;
        let ghost m = message;
        proof {
            lemma_pushed_front(s, m, self.message_map@);
        }
        let day = message.day;
        let same_day = self.list.len() > 0 && match &self.list[0] {
            ChatHistoryItem::Message(head) => head.day == day,
            ChatHistoryItem::DayDivider(_) => false,
        };
        self.message_map.insert(message.id, message.clone());
        self.list.push_front(ChatHistoryItem::Message(message));
        let added: usize = if same_day {
            1
        } else {
            self.list.insert(1, ChatHistoryItem::DayDivider(day));
            2
        };
        assert(self.list@ =~= pushed_front(s, m));
        self.changes.push(ItemsChanged { position: 0, removed: 0, added });
    }

    /// Applies a new message: it goes to the head of the history, unless a
    /// message with its identifier is already there.
    pub fn apply_new_message(&mut self, message: Message)
        requires
            old(self).wf(),
        ensures
            final(self).wf(),
            final(self)@ == after_new_message(old(self)@, message),
            final(self).spec_changes() == (if has_id(old(self)@, message.id) {
                old(self).spec_changes()
            } else {
                old(self).spec_changes().push(
                    ItemsChanged {
                        position: 0,
                        removed: 0,
                        added: (final(self)@.len() - old(self)@.len()) as usize,
                    },
                )
            }),
            final(self).spec_is_loading() == old(self).spec_is_loading(),
            final(self).spec_chat_id() == old(self).spec_chat_id(),
    {
        if !self.message_map.contains_key(&message.id) {
            self.push_front(message);
        }
    }
    /// The position of the message with identifier `id`, found by bisection
    /// over the identifiers, which descend from the head while messages
    /// arrive in order.
    fn bisect(&self, id: i64) -> (r: Option<usize>)
        ensures
            r matches Some(p) ==> is_message_with_id(self@, p as int, id),
    {
        let n = self.list.len();
        let mut lo: usize = 0;
        let mut hi: usize = n;
        while lo < hi
            invariant
                n == self.list@.len(),
                lo <= hi <= n,
            decreases hi - lo,
        {
            let mid = lo + (hi - lo) / 2;
            let probe = if self.list[mid].is_day_divider() && mid + 1 < n {
                mid + 1
            } else {
                mid
            };
            match &self.list[probe] {
                ChatHistoryItem::Message(m) => {
                    if m.id == id {
                        return Some(probe);
                    } else if id > m.id {
                        hi = mid;
                    } else if probe + 1 < hi {
                        lo = probe + 1;
                    } else {
                        lo = hi;
                    }
                },
                ChatHistoryItem::DayDivider(_) => {
                    return None;
                },
            }
        }
        None
    }

    /// The position of the message with identifier `id`: by bisection, or by
    /// a scan when the identifiers do not descend.
    fn position_of(&self, id: i64) -> (p: usize)
        requires
            self.wf(),
            has_id(self@, id),
        ensures
            is_message_with_id(self@, p as int, id),
    {
        match self.bisect(id) {
            Some(p) => {
                return p;
            },
            None => {},
        }
        let n = self.list.len();
        let mut i: usize = 0;
        while i < n
            invariant
                n == self.list@.len(),
                has_id(self.list@, id),
                i <= n,
                forall|j: int| 0 <= j < i ==> !is_message_with_id(self.list@, j, id),
            decreases n - i,
        {
            let found = match &self.list[i] {
                ChatHistoryItem::Message(m) => m.id == id,
                ChatHistoryItem::DayDivider(_) => false,
            };
            if found {
                return i;
            }
            i = i + 1;
        }
        proof {
            let j = choose|j: int| is_message_with_id(self.list@, j, id);
            assert(!is_message_with_id(self.list@, j, id));
        }
        0
    }

    /// Takes out the message with identifier `id`, if it is there, and the
    /// dividers that are no longer needed.
    #[verifier::rlimit(50)]
    fn remove(&mut self, id: i64)
        requires
            old(self).wf(),
        ensures
            final(self).wf(),
            final(self)@ == after_delete(old(self)@, id),
            !has_id(final(self)@, id),
            final(self).changes@ == (if has_id(old(self)@, id) {
                old(self).changes@.push(removal_change(old(self)@, index_of(old(self)@, id)))
            } else {
                old(self).changes@
            }),
            final(self).is_loading == old(self).is_loading,
            final(self).chat_id == old(self).chat_id,
    {
        if !self.message_map.contains_key(&id) {
            return;
        }
        let ghost s = self.list@;
        let p = self.position_of(id);
        proof {
            lemma_removed_at_ids(s, p as int, self.message_map@, id);
            lemma_removed_at_days(s, p as int);
        }
        let n = self.list.len();
        let orphan = p + 1 < n && self.list[p + 1].is_day_divider() && (p == 0 || self.list[p
            - 1].is_day_divider());
        let rejoin = orphan && p > 0 && p + 2 < n && !self.list[p + 2].is_day_divider()
            && self.list[p + 2].day() == self.list[p - 1].day();
        self.message_map.remove(&id);
        let ghost span = removal_span(s, p as int);
        assert(orphan == (p + 1 < s.len() && s[p + 1] is DayDivider && (p == 0 || s[p
            - 1] is DayDivider)));
        let position: usize;
        let removed: usize;
        if rejoin {
            assert(span == (p - 1, p + 2));
            self.list.remove(p - 1);
            self.list.remove(p - 1);
            self.list.remove(p - 1);
            position = p - 1;
            removed = 3;
        } else if orphan {
            assert(span == (p as int, p + 2));
            self.list.remove(p);
            self.list.remove(p);
            position = p;
            removed = 2;
        } else {
            assert(span == (p as int, p + 1));
            self.list.remove(p);
            position = p;
            removed = 1;
        }
        assert(self.list@ =~= s.subrange(0, span.0) + s.subrange(span.1, s.len() as int));
        self.changes.push(ItemsChanged { position, removed, added: 0 });
    }
    /// The fresh messages of `messages`, in order: those whose identifiers
    /// are neither among the keys of `known` nor earlier in the batch.
    fn fresh_of(known: &HashMap<i64, Message>, messages: &Vec<Message>, Ghost(ids): Ghost<Set<i64>>) -> (r: Vec<Message>)
        requires
            forall|x: i64| known@.contains_key(x) <==> ids.contains(x),
        ensures
            r@ == fresh_messages(messages@, ids),
    {
        let mut seen: HashSet<i64> = HashSet::new();
        let mut fresh: Vec<Message> = Vec::new();
        let n = messages.len();
        let mut i: usize = 0;
        assert(messages@.subrange(0, n as int) =~= messages@);
        assert(ids + seen@ =~= ids);
        assert(fresh@ + fresh_messages(messages@, ids) =~= fresh_messages(messages@, ids));
        while i < n
            invariant
                n == messages@.len(),
                i <= n,
                forall|x: i64| known@.contains_key(x) <==> ids.contains(x),
                fresh_messages(messages@, ids) == fresh@ + fresh_messages(
                    messages@.subrange(i as int, n as int),
                    ids + seen@,
                ),
            decreases n - i,
        {
            let ghost rest = messages@.subrange(i as int, n as int);
            let ghost before = ids + seen@;
            assert(rest.drop_first() =~= messages@.subrange(i + 1, n as int));
            assert(rest[0] == messages@[i as int]);
            let m = messages[i].clone();
            if !known.contains_key(&m.id) && !seen.contains(&m.id) {
                assert(!before.contains(m.id));
                assert(fresh_messages(rest, before) == seq![m] + fresh_messages(
                    rest.drop_first(),
                    before.insert(m.id),
                ));
                seen.insert(m.id);
                assert(ids + seen@ =~= before.insert(m.id));
                fresh.push(m);
                assert(fresh_messages(messages@, ids) =~= fresh@ + fresh_messages(
                    messages@.subrange(i + 1, n as int),
                    ids + seen@,
                ));
            } else {
                assert(before.contains(m.id));
                assert(fresh_messages(rest, before) == fresh_messages(rest.drop_first(), before));
            }
            i = i + 1;
        }
        assert(messages@.subrange(n as int, n as int) =~= Seq::<Message>::empty());
        assert(fresh@ =~= fresh_messages(messages@, ids));
        fresh
    }

    /// Enters each message of `fresh` in `map` under its identifier.
    fn insert_all(map: &mut HashMap<i64, Message>, fresh: &Vec<Message>)
        requires
            distinct_ids(fresh@),
        ensures
            forall|x: i64|
                #[trigger] final(map)@.contains_key(x) <==> old(map)@.contains_key(x) || exists|t: int|
                    0 <= t < fresh@.len() && fresh@[t].id == x,
            forall|x: i64|
                old(map)@.contains_key(x) && (forall|t: int|
                    0 <= t < fresh@.len() ==> fresh@[t].id != x) ==> #[trigger] final(map)@[x]
                    == old(map)@[x],
            forall|t: int| 0 <= t < fresh@.len() ==> final(map)@[#[trigger] fresh@[t].id] == fresh@[t],
    {
        let ghost map0 = map@;
        let k = fresh.len();
        let mut q: usize = 0;
        while q < k
            invariant
                k == fresh@.len(),
                q <= k,
                distinct_ids(fresh@),
                forall|x: i64|
                    #[trigger] map@.contains_key(x) <==> map0.contains_key(x) || exists|t: int|
                        0 <= t < q && fresh@[t].id == x,
                forall|x: i64|
                    map0.contains_key(x) && (forall|t: int| 0 <= t < q ==> fresh@[t].id != x)
                        ==> #[trigger] map@[x] == map0[x],
                forall|t: int| 0 <= t < q ==> map@[#[trigger] fresh@[t].id] == fresh@[t],
            decreases k - q,
        {
            let m = fresh[q].clone();
            map.insert(m.id, m);
            q = q + 1;
        }
    }

    /// The items for the batch `fresh`, newest first, each day closed by a divider.
    fn layout_of(fresh: &Vec<Message>) -> (r: VecDeque<ChatHistoryItem>)
        ensures
            r@ == layout(fresh@),
    {
        let k = fresh.len();
        let mut j = k;
        let mut tail: VecDeque<ChatHistoryItem> = VecDeque::new();
        assert(fresh@.subrange(k as int, k as int) =~= Seq::<Message>::empty());
        while j > 0
            invariant
                k == fresh@.len(),
                j <= k,
                tail@ == layout(fresh@.subrange(j as int, k as int)),
            decreases j,
        {
            j = j - 1;
            let ghost b = fresh@.subrange(j as int, k as int);
            assert(b.drop_first() =~= fresh@.subrange(j + 1, k as int));
            let m = fresh[j].clone();
            let same_day = j + 1 < k && fresh[j + 1].day == m.day;
            if !same_day {
                tail.push_front(ChatHistoryItem::DayDivider(m.day));
            }
            tail.push_front(ChatHistoryItem::Message(m));
            assert(tail@ =~= layout(b));
        }
        assert(fresh@.subrange(0, k as int) =~= fresh@);
        tail
    }

    /// Puts a batch of older messages, newest first, at the older end; the
    /// messages that are already there are left out.
    fn append(&mut self, messages: Vec<Message>)
        requires
            old(self).wf(),
        ensures
            final(self).wf(),
            final(self)@ == after_append(old(self)@, messages@),
            final(self).changes@ == (if fresh_messages(messages@, ids_of(old(self)@)).len() > 0 {
                old(self).changes@.push(
                    append_change(old(self)@, fresh_messages(messages@, ids_of(old(self)@))),
                )
            } else {
                old(self).changes@
            }),
            final(self).is_loading == old(self).is_loading,
            final(self).chat_id == old(self).chat_id,
    {
        let ghost s = self.list@;
        let ghost map0 = self.message_map@;
        proof {
            assert forall|x: i64| map0.contains_key(x) <==> ids_of(s).contains(x) by {
                if has_id(s, x) {
                    let i = choose|i: int| is_message_with_id(s, i, x);
                    assert(s[i] is Message);
                }
            }
        }
        let fresh = Self::fresh_of(&self.message_map, &messages, Ghost(ids_of(s)));
        let mut tail = Self::layout_of(&fresh);
        proof {
            lemma_fresh(messages@, ids_of(s));
            assert forall|k: int| 0 <= k < fresh@.len() implies !has_id(s, #[trigger] fresh@[k].id) by {
                assert(!ids_of(s).contains(fresh@[k].id));
            }
            lemma_appended_days(s, fresh@);
        }
        let k = fresh.len();
        Self::insert_all(&mut self.message_map, &fresh);
        proof {
            lemma_appended_ids(s, fresh@, map0, self.message_map@);
        }
        let len = self.list.len();
        let mut position = len;
        let mut removed: usize = 0;
        if k > 0 && len > 0 {
            let join = match &self.list[len - 1] {
                ChatHistoryItem::DayDivider(d) => *d == fresh[0].day,
                ChatHistoryItem::Message(_) => false,
            };
            if join {
                self.list.pop_back();
                position = len - 1;
                removed = 1;
            }
        }
        let added = tail.len();
        self.list.append(&mut tail);
        assert(self.list@ =~= appended(s, fresh@));
        if k > 0 {
            self.changes.push(ItemsChanged { position, removed, added });
        }
    }
    /// Deletes the messages `message_ids`, those of them that are there.
    pub fn apply_delete(&mut self, message_ids: &Vec<i64>)
        requires
            old(self).wf(),
        ensures
            final(self).wf(),
            final(self)@ == after_deletes(old(self)@, message_ids@),
            final(self).spec_changes() == old(self).spec_changes() + deletes_changes(
                old(self)@,
                message_ids@,
            ),
            final(self).spec_is_loading() == old(self).spec_is_loading(),
            final(self).spec_chat_id() == old(self).spec_chat_id(),
    {
        let ghost s = self.list@;
        let ghost c = self.changes@;
        let n = message_ids.len();
        let mut i: usize = 0;
        assert(message_ids@.subrange(0, 0) =~= Seq::<i64>::empty());
        assert(c + Seq::<ItemsChanged>::empty() =~= c);
        while i < n
            invariant
                n == message_ids@.len(),
                i <= n,
                self.wf(),
                self.list@ == after_deletes(s, message_ids@.subrange(0, i as int)),
                self.changes@ == c + deletes_changes(s, message_ids@.subrange(0, i as int)),
                self.is_loading == old(self).is_loading,
                self.chat_id == old(self).chat_id,
            decreases n - i,
        {
            let ghost prefix = message_ids@.subrange(0, i + 1);
            assert(prefix.drop_last() =~= message_ids@.subrange(0, i as int));
            assert(prefix.last() == message_ids@[i as int]);
            let ghost before = self.changes@;
            self.remove(message_ids[i]);
            assert(self.changes@ =~= before + delete_changes(
                after_deletes(s, prefix.drop_last()),
                prefix.last(),
            ));
            i = i + 1;
        }
        assert(message_ids@.subrange(0, n as int) =~= message_ids@);
    }

    /// Replaces the content of the message `message_id`, if it is there, and
    /// gives its position.
    pub fn apply_edit(&mut self, message_id: i64, new_content: MessageContent) -> (r: Option<
        usize,
    >)
        requires
            old(self).wf(),
        ensures
            final(self).wf(),
            final(self)@ == after_edit(old(self)@, message_id, new_content),
            r == (if has_id(old(self)@, message_id) {
                Some(index_of(old(self)@, message_id) as usize)
            } else {
                None::<usize>
            }),
            final(self).spec_changes() == old(self).spec_changes(),
            final(self).spec_is_loading() == old(self).spec_is_loading(),
            final(self).spec_chat_id() == old(self).spec_chat_id(),
    {
        if !self.message_map.contains_key(&message_id) {
            return None;
        }
        let ghost s = self.list@;
        let ghost content = new_content;
        let p = self.position_of(message_id);
        proof {
            let q = index_of(s, message_id);
            assert(is_message_with_id(s, q, message_id));
            assert(s[q] is Message && s[p as int] is Message);
        }
        let item = self.list.remove(p);
        match item {
            Some(ChatHistoryItem::Message(mut m)) => {
                m.set_content(new_content);
                self.message_map.insert(message_id, m.clone());
                self.list.insert(p, ChatHistoryItem::Message(m));
            },
            _ => {
                assert(false);
            },
        }
        proof {
            let t = self.list@;
            assert(t =~= after_edit(s, message_id, content));
            lemma_same_shape(s, t);
            assert forall|i: int| 0 <= i < t.len() && i != p implies t[i] == s[i] by {}
            assert forall|x: i64| #[trigger] self.message_map@.contains_key(x) implies has_id(t, x) by {
                let j = choose|j: int| is_message_with_id(s, j, x);
                assert(is_message_with_id(t, j, x));
            }
            assert forall|i: int| 0 <= i < t.len() && #[trigger] t[i] is Message implies
                self.message_map@.contains_key(t[i]->Message_0.id) && self.message_map@[t[i]->Message_0.id]
                == t[i]->Message_0 by {
                if i != p {
                    assert(s[i] is Message);
                }
            }
        }
        Some(p)
    }

    /// A pending message was sent: it leaves under its old identifier and
    /// comes back at the head as `message`.
    pub fn apply_send_succeeded(&mut self, old_message_id: i64, message: Message)
        requires
            old(self).wf(),
        ensures
            final(self).wf(),
            final(self)@ == after_new_message(after_delete(old(self)@, old_message_id), message),
            final(self).spec_changes() == old(self).spec_changes() + delete_changes(
                old(self)@,
                old_message_id,
            ) + new_message_changes(after_delete(old(self)@, old_message_id), message),
            final(self).spec_is_loading() == old(self).spec_is_loading(),
            final(self).spec_chat_id() == old(self).spec_chat_id(),
    {
        let ghost c = self.changes@;
        self.remove(old_message_id);
        let ghost c1 = self.changes@;
        self.apply_new_message(message);
        assert(c1 =~= c + delete_changes(old(self)@, old_message_id));
        assert(self.changes@ =~= c1 + new_message_changes(after_delete(old(self)@, old_message_id), message));
    }
    /// Applies an update of the messaging engine. Deletions that only evict
    /// messages from the engine's cache leave the history as it is.
    pub fn handle_update(&mut self, update: Update)
        requires
            old(self).wf(),
        ensures
            final(self).wf(),
            final(self)@ == after_update(old(self)@, update),
            final(self).spec_changes() == old(self).spec_changes() + update_changes(
                old(self)@,
                update,
            ),
            final(self).spec_is_loading() == old(self).spec_is_loading(),
            final(self).spec_chat_id() == old(self).spec_chat_id(),
    {
        let ghost c = self.changes@;
        let ghost u = update;
        match update {
            Update::NewMessage(message) => {
                self.apply_new_message(message);
                assert(self.changes@ =~= c + update_changes(old(self)@, u));
            },
            Update::MessageContent { message_id, new_content } => {
                self.apply_edit(message_id, new_content);
                assert(self.changes@ =~= c + update_changes(old(self)@, u));
            },
            Update::MessageEdited { .. } => {
                assert(self.changes@ =~= c + update_changes(old(self)@, u));
            },
            Update::MessageSendSucceeded { old_message_id, message } => {
                self.apply_send_succeeded(old_message_id, message);
            },
            Update::DeleteMessages { message_ids, from_cache } => {
                if !from_cache {
                    self.apply_delete(&message_ids);
                }
                assert(self.changes@ =~= c + update_changes(old(self)@, u));
            },
        }
    }

    /// The identifier of the oldest message, or 0 when there is none.
    fn oldest_message_id(&self) -> (r: i64)
        ensures
            r == oldest_message_id(self@),
    {
        let mut i = self.list.len();
        assert(self.list@.subrange(0, i as int) =~= self.list@);
        while i > 0
            invariant
                i <= self.list@.len(),
                oldest_message_id(self.list@) == oldest_message_id(
                    self.list@.subrange(0, i as int),
                ),
            decreases i,
        {
            let ghost sub = self.list@.subrange(0, i as int);
            assert(sub.last() == self.list@[i - 1]);
            match &self.list[i - 1] {
                ChatHistoryItem::Message(m) => {
                    return m.id;
                },
                ChatHistoryItem::DayDivider(_) => {},
            }
            assert(sub.drop_last() =~= self.list@.subrange(0, i - 1));
            i = i - 1;
        }
        0
    }

    /// Starts loading up to `limit` messages older than the oldest one there.
    /// Only one load runs at a time: while one runs, this fails with
    /// `AlreadyLoading` and changes nothing.
    pub fn start_load_older(&mut self, limit: i32) -> (r: Result<HistoryRequest, ChatHistoryError>)
        requires
            old(self).wf(),
        ensures
            final(self).wf(),
            final(self)@ == old(self)@,
            final(self).spec_changes() == old(self).spec_changes(),
            final(self).spec_chat_id() == old(self).spec_chat_id(),
            final(self).spec_is_loading(),
            old(self).spec_is_loading() ==> r matches Err(ChatHistoryError::AlreadyLoading),
            !old(self).spec_is_loading() ==> r == Ok::<HistoryRequest, ChatHistoryError>(
                HistoryRequest {
                    chat_id: old(self).spec_chat_id(),
                    from_message_id: oldest_message_id(old(self)@),
                    limit,
                },
            ),
    {
        if self.is_loading {
            return Err(ChatHistoryError::AlreadyLoading);
        }
        let from_message_id = self.oldest_message_id();
        self.is_loading = true;
        Ok(HistoryRequest { chat_id: self.chat_id, from_message_id, limit })
    }

    /// Ends a load with what the engine answered: older messages, newest
    /// first, that go to the older end, or an error. Gives whether more
    /// messages may be there: `false` when the engine gave none.
    pub fn finish_load_older(&mut self, result: Result<Vec<Message>, EngineError>) -> (r: Result<
        bool,
        ChatHistoryError,
    >)
        requires
            old(self).wf(),
        ensures
            final(self).wf(),
            !final(self).spec_is_loading(),
            final(self).spec_chat_id() == old(self).spec_chat_id(),
            match result {
                Err(e) => {
                    &&& r == Err::<bool, ChatHistoryError>(ChatHistoryError::Tdlib(e))
                    &&& final(self)@ == old(self)@
                    &&& final(self).spec_changes() == old(self).spec_changes()
                },
                Ok(batch) => {
                    &&& r == Ok::<bool, ChatHistoryError>(batch@.len() > 0)
                    &&& final(self)@ == after_append(old(self)@, batch@)
                    &&& final(self).spec_changes() == (if fresh_messages(
                        batch@,
                        ids_of(old(self)@),
                    ).len() > 0 {
                        old(self).spec_changes().push(
                            append_change(old(self)@, fresh_messages(batch@, ids_of(old(self)@))),
                        )
                    } else {
                        old(self).spec_changes()
                    })
                },
            },
    {
        self.is_loading = false;
        match result {
            Err(e) => Err(ChatHistoryError::Tdlib(e)),
            Ok(batch) => {
                let more = batch.len() > 0;
                self.append(batch);
                Ok(more)
            },
        }
    }
}

} // verus!
