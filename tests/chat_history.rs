use telegrand::chat_history::{
    ChatHistory, ChatHistoryError, EngineError, HistoryRequest, ItemsChanged, Update,
};
use telegrand::history_item::{ChatHistoryItem, MessageStyle};
use telegrand::message::{LocalDay, Message, MessageContent, MessageSender};

fn day(d: u8) -> LocalDay {
    LocalDay { year: 2024, month: 5, day: d }
}

fn msg(id: i64, sender: i64, d: u8) -> Message {
    Message::new(
        id,
        MessageSender::User(sender),
        false,
        1_715_000_000 + id as i32,
        day(d),
        MessageContent::Text(format!("message {}", id)),
    )
}

fn service(id: i64, sender: i64, d: u8) -> Message {
    Message::new(id, MessageSender::User(sender), false, 0, day(d), MessageContent::Service)
}

/// The items as short words: `m<id>` for a message, `d<day>` for a divider.
fn items(h: &ChatHistory) -> Vec<String> {
    let mut out = Vec::new();
    for i in 0..h.n_items() {
        match h.item(i).unwrap() {
            ChatHistoryItem::Message(m) => out.push(format!("m{}", m.id())),
            ChatHistoryItem::DayDivider(d) => out.push(format!("d{}", d.day)),
        }
    }
    out
}

fn change(position: usize, removed: usize, added: usize) -> ItemsChanged {
    ItemsChanged { position, removed, added }
}

#[test]
fn new_message_on_empty_history_gets_a_divider() {
    let mut h = ChatHistory::new(7);
    h.apply_new_message(msg(1, 10, 3));
    assert_eq!(items(&h), vec!["m1", "d3"]);
    assert_eq!(h.take_changes(), vec![change(0, 0, 2)]);
    assert!(h.take_changes().is_empty());
}

#[test]
fn new_message_of_the_same_day_joins_the_head() {
    let mut h = ChatHistory::new(7);
    h.apply_new_message(msg(1, 10, 3));
    h.apply_new_message(msg(2, 10, 3));
    assert_eq!(items(&h), vec!["m2", "m1", "d3"]);
    h.apply_new_message(msg(3, 10, 4));
    assert_eq!(items(&h), vec!["m3", "d4", "m2", "m1", "d3"]);
    assert_eq!(h.take_changes(), vec![change(0, 0, 2), change(0, 0, 1), change(0, 0, 2)]);
}

#[test]
fn new_message_twice_is_applied_once() {
    let mut h = ChatHistory::new(7);
    h.apply_new_message(msg(1, 10, 3));
    h.apply_new_message(msg(5, 11, 4));
    let once = items(&h);
    h.apply_new_message(msg(5, 11, 4));
    assert_eq!(items(&h), once);
    assert_eq!(h.take_changes().len(), 2);
}

#[test]
fn deleting_a_new_message_restores_the_history() {
    let mut h = ChatHistory::new(7);
    h.apply_new_message(msg(1, 10, 3));
    h.apply_new_message(msg(2, 10, 3));
    let before = items(&h);
    h.apply_new_message(msg(3, 10, 5));
    assert_eq!(items(&h), vec!["m3", "d5", "m2", "m1", "d3"]);
    h.apply_delete(&vec![3]);
    assert_eq!(items(&h), before);
    h.apply_new_message(msg(4, 10, 3));
    h.apply_delete(&vec![4]);
    assert_eq!(items(&h), before);
}

#[test]
fn three_messages_of_one_sender_form_a_group() {
    let mut h = ChatHistory::new(7);
    assert!(matches!(
        h.start_load_older(20),
        Ok(HistoryRequest { chat_id: 7, from_message_id: 0, limit: 20 })
    ));
    let r = h.finish_load_older(Ok(vec![msg(3, 10, 3), msg(2, 10, 3), msg(1, 10, 3)]));
    assert!(matches!(r, Ok(true)));
    assert_eq!(items(&h), vec!["m3", "m2", "m1", "d3"]);
    assert_eq!(h.style(0), MessageStyle::First);
    assert_eq!(h.style(1), MessageStyle::Center);
    assert_eq!(h.style(2), MessageStyle::Last);
    h.apply_delete(&vec![2]);
    assert_eq!(items(&h), vec!["m3", "m1", "d3"]);
    assert_eq!(h.style(0), MessageStyle::First);
    assert_eq!(h.style(1), MessageStyle::Last);
}

#[test]
fn messages_apart_from_each_other_stand_single() {
    let mut h = ChatHistory::new(7);
    h.start_load_older(20).unwrap_or_else(|_| panic!("not loading yet"));
    h.finish_load_older(Ok(vec![msg(3, 10, 3), msg(2, 11, 3), msg(1, 10, 3)])).unwrap_or_else(|_| panic!("load failed"));
    assert_eq!(h.style(0), MessageStyle::Single);
    assert_eq!(h.style(1), MessageStyle::Single);
    assert_eq!(h.style(2), MessageStyle::Single);
}

#[test]
fn service_messages_break_groups_and_dividers_do_not() {
    let mut h = ChatHistory::new(7);
    h.start_load_older(20).unwrap_or_else(|_| panic!("not loading yet"));
    h.finish_load_older(Ok(vec![
        msg(5, 10, 4),
        msg(4, 10, 3),
        service(3, 10, 3),
        msg(2, 10, 3),
        msg(1, 10, 3),
    ]))
    .unwrap_or_else(|_| panic!("load failed"));
    assert_eq!(items(&h), vec!["m5", "d4", "m4", "m3", "m2", "m1", "d3"]);
    assert_eq!(h.style(0), MessageStyle::First);
    assert_eq!(h.style(1), MessageStyle::Single);
    assert_eq!(h.style(2), MessageStyle::Last);
    assert_eq!(h.style(3), MessageStyle::Single);
    assert_eq!(h.style(4), MessageStyle::First);
    assert_eq!(h.style(5), MessageStyle::Last);
    assert_eq!(h.style(6), MessageStyle::Single);
}

#[test]
fn one_divider_between_two_days_of_a_batch() {
    let mut h = ChatHistory::new(7);
    h.start_load_older(50).unwrap_or_else(|_| panic!("not loading yet"));
    h.finish_load_older(Ok(vec![msg(4, 10, 9), msg(3, 11, 9), msg(2, 10, 8), msg(1, 11, 8)]))
        .unwrap_or_else(|_| panic!("load failed"));
    assert_eq!(items(&h), vec!["m4", "m3", "d9", "m2", "m1", "d8"]);
    assert_eq!(h.take_changes(), vec![change(0, 0, 6)]);
}

#[test]
fn an_older_batch_continues_the_oldest_day() {
    let mut h = ChatHistory::new(7);
    h.start_load_older(2).unwrap_or_else(|_| panic!("not loading yet"));
    h.finish_load_older(Ok(vec![msg(10, 1, 9), msg(9, 1, 8)])).unwrap_or_else(|_| panic!("load failed"));
    assert_eq!(items(&h), vec!["m10", "d9", "m9", "d8"]);
    let request = h.start_load_older(2).unwrap_or_else(|_| panic!("not loading"));
    assert_eq!(request, HistoryRequest { chat_id: 7, from_message_id: 9, limit: 2 });
    let r = h.finish_load_older(Ok(vec![msg(8, 1, 8), msg(7, 1, 7)]));
    assert!(matches!(r, Ok(true)));
    assert_eq!(items(&h), vec!["m10", "d9", "m9", "m8", "d8", "m7", "d7"]);
    assert_eq!(h.take_changes(), vec![change(0, 0, 4), change(3, 1, 4)]);
    assert_eq!(h.style(0), MessageStyle::First);
    assert_eq!(h.style(2), MessageStyle::Center);
    assert_eq!(h.style(3), MessageStyle::Center);
    assert_eq!(h.style(5), MessageStyle::Last);
}

#[test]
fn a_batch_leaves_out_messages_already_there() {
    let mut h = ChatHistory::new(7);
    h.apply_new_message(msg(5, 1, 3));
    h.start_load_older(10).unwrap_or_else(|_| panic!("not loading yet"));
    let r = h.finish_load_older(Ok(vec![msg(5, 1, 3), msg(4, 1, 3), msg(4, 1, 3)]));
    assert!(matches!(r, Ok(true)));
    assert_eq!(items(&h), vec!["m5", "m4", "d3"]);
    assert_eq!(h.take_changes(), vec![change(0, 0, 2), change(1, 1, 2)]);
}

#[test]
fn a_second_load_while_one_runs_is_refused() {
    let mut h = ChatHistory::new(7);
    h.apply_new_message(msg(5, 1, 3));
    let first = h.start_load_older(20);
    assert!(matches!(first, Ok(HistoryRequest { chat_id: 7, from_message_id: 5, limit: 20 })));
    assert!(h.is_loading());
    let before = items(&h);
    let second = h.start_load_older(20);
    assert!(matches!(second, Err(ChatHistoryError::AlreadyLoading)));
    assert_eq!(items(&h), before);
    assert!(h.is_loading());
    let r = h.finish_load_older(Ok(vec![]));
    assert!(matches!(r, Ok(false)));
    assert!(!h.is_loading());
    assert_eq!(items(&h), before);
}

#[test]
fn an_engine_error_is_handed_on_and_ends_the_load() {
    let mut h = ChatHistory::new(7);
    h.apply_new_message(msg(5, 1, 3));
    h.take_changes();
    h.start_load_older(20).unwrap_or_else(|_| panic!("not loading yet"));
    let r = h.finish_load_older(Err(EngineError { code: 400, message: "CHAT_INVALID".to_string() }));
    match r {
        Err(ChatHistoryError::Tdlib(e)) => {
            assert_eq!(e.code, 400);
            assert_eq!(e.message, "CHAT_INVALID");
        },
        _ => panic!("expected the engine's error"),
    }
    assert!(!h.is_loading());
    assert_eq!(items(&h), vec!["m5", "d3"]);
    assert!(h.take_changes().is_empty());
    assert!(h.start_load_older(20).is_ok());
}

#[test]
fn send_succeeded_replaces_the_pending_message() {
    let mut h = ChatHistory::new(7);
    h.apply_new_message(msg(90, 1, 3));
    h.apply_new_message(msg(100, 2, 3));
    h.take_changes();
    h.apply_send_succeeded(100, msg(205, 2, 3));
    assert!(h.message_by_id(100).is_none());
    assert_eq!(h.message_by_id(205).map(|m| m.id()), Some(205));
    assert_eq!(items(&h), vec!["m205", "m90", "d3"]);
    assert_eq!(h.take_changes(), vec![change(0, 1, 0), change(0, 0, 1)]);
}

#[test]
fn send_succeeded_through_an_update() {
    let mut h = ChatHistory::new(7);
    h.handle_update(Update::NewMessage(msg(100, 2, 3)));
    h.take_changes();
    h.handle_update(Update::MessageSendSucceeded { old_message_id: 100, message: msg(205, 2, 4) });
    assert_eq!(items(&h), vec!["m205", "d4"]);
    assert_eq!(h.take_changes(), vec![change(0, 2, 0), change(0, 0, 2)]);
}

#[test]
fn deletions_from_the_cache_are_ignored() {
    let mut h = ChatHistory::new(7);
    h.handle_update(Update::NewMessage(msg(1, 2, 3)));
    h.handle_update(Update::NewMessage(msg(2, 2, 3)));
    h.take_changes();
    h.handle_update(Update::DeleteMessages { message_ids: vec![1, 2], from_cache: true });
    assert_eq!(items(&h), vec!["m2", "m1", "d3"]);
    assert!(h.take_changes().is_empty());
    h.handle_update(Update::DeleteMessages { message_ids: vec![1, 42, 2], from_cache: false });
    assert!(items(&h).is_empty());
    assert_eq!(h.take_changes(), vec![change(1, 1, 0), change(0, 2, 0)]);
}

#[test]
fn deleting_a_lone_day_joins_its_neighbours() {
    let mut h = ChatHistory::new(7);
    h.apply_new_message(msg(1, 2, 4));
    h.apply_new_message(msg(2, 2, 3));
    h.apply_new_message(msg(3, 2, 4));
    assert_eq!(items(&h), vec!["m3", "d4", "m2", "d3", "m1", "d4"]);
    h.take_changes();
    h.apply_delete(&vec![2]);
    assert_eq!(items(&h), vec!["m3", "m1", "d4"]);
    assert_eq!(h.take_changes(), vec![change(1, 3, 0)]);
}

#[test]
fn deleting_the_newest_of_a_day_keeps_its_divider() {
    let mut h = ChatHistory::new(7);
    h.apply_new_message(msg(1, 2, 3));
    h.apply_new_message(msg(2, 2, 4));
    h.apply_new_message(msg(3, 2, 4));
    h.take_changes();
    h.apply_delete(&vec![3]);
    assert_eq!(items(&h), vec!["m2", "d4", "m1", "d3"]);
    assert_eq!(h.take_changes(), vec![change(0, 1, 0)]);
    h.apply_delete(&vec![1]);
    assert_eq!(items(&h), vec!["m2", "d4"]);
    assert_eq!(h.take_changes(), vec![change(2, 2, 0)]);
}

#[test]
fn an_edit_replaces_the_content_in_place() {
    let mut h = ChatHistory::new(7);
    h.apply_new_message(msg(1, 2, 3));
    h.apply_new_message(msg(2, 2, 3));
    h.take_changes();
    assert_eq!(h.apply_edit(1, MessageContent::Text("edited".to_string())), Some(1));
    match h.message_by_id(1).map(|m| m.content().clone()) {
        Some(MessageContent::Text(t)) => assert_eq!(t, "edited"),
        _ => panic!("expected the new text"),
    }
    assert_eq!(h.apply_edit(9, MessageContent::Photo), None);
    assert_eq!(items(&h), vec!["m2", "m1", "d3"]);
    assert!(h.take_changes().is_empty());
    h.handle_update(Update::MessageContent { message_id: 2, new_content: MessageContent::Service });
    assert!(matches!(h.message_by_id(2).map(|m| m.content().clone()), Some(MessageContent::Service)));
    assert_eq!(h.style(0), MessageStyle::Single);
    assert_eq!(h.style(1), MessageStyle::Single);
    h.handle_update(Update::MessageEdited { message_id: 1 });
    assert_eq!(items(&h), vec!["m2", "m1", "d3"]);
}

#[test]
fn outgoing_and_incoming_messages_are_not_grouped() {
    let mut h = ChatHistory::new(7);
    let user = MessageSender::User(5);
    h.apply_new_message(Message::new(1, user, false, 0, day(3), MessageContent::Photo));
    h.apply_new_message(Message::new(2, user, false, 0, day(3), MessageContent::Video));
    h.apply_new_message(Message::new(3, user, true, 0, day(3), MessageContent::Sticker));
    h.apply_new_message(Message::new(4, MessageSender::Chat(6), false, 0, day(3), MessageContent::Poll));
    assert_eq!(items(&h), vec!["m4", "m3", "m2", "m1", "d3"]);
    assert_eq!(h.style(0), MessageStyle::Single);
    assert_eq!(h.style(1), MessageStyle::Single);
    assert_eq!(h.style(2), MessageStyle::First);
    assert_eq!(h.style(3), MessageStyle::Last);
    assert_eq!(h.style(4), MessageStyle::Single);
}

#[test]
fn message_lookup_and_sender() {
    let mut h = ChatHistory::new(7);
    assert_eq!(h.chat_id(), 7);
    assert!(h.message_by_id(1).is_none());
    assert!(h.item(0).is_none());
    h.apply_new_message(msg(1, 2, 3));
    let m = h.message_by_id(1).unwrap_or_else(|| panic!("message 1 is there"));
    assert_eq!(m.sender().id(), 2);
    assert_eq!(m.sender().as_user(), Some(2));
    assert_eq!(MessageSender::Chat(8).as_user(), None);
    assert_eq!(MessageSender::Chat(8).id(), 8);
    assert_eq!(m.day(), day(3));
    assert!(!m.is_outgoing());
    assert_eq!(m.date(), 1_715_000_001);
    assert_eq!(m.group_key(), Some((false, 2)));
    assert!(h.item(1).map(|i| i.is_day_divider()).unwrap_or(false));
}

#[test]
fn a_message_takes_only_content_updates() {
    let mut m = msg(3, 2, 4);
    m.handle_update(Update::MessageContent { message_id: 3, new_content: MessageContent::Photo });
    assert!(matches!(m.content(), MessageContent::Photo));
    m.handle_update(Update::MessageEdited { message_id: 3 });
    assert!(matches!(m.content(), MessageContent::Photo));
    m.set_content(MessageContent::Text("again".to_string()));
    assert!(matches!(m.content(), MessageContent::Text(t) if t == "again"));
    assert_eq!(m.id(), 3);
    assert_eq!(m.day(), day(4));
}

/// Checks that message identifiers descend and that each run of messages of
/// one day is closed by exactly one divider of that day.
fn assert_well_ordered(h: &ChatHistory) {
    let n = h.n_items();
    let mut last_id: Option<i64> = None;
    for i in 0..n {
        match h.item(i).unwrap() {
            ChatHistoryItem::Message(m) => {
                if let Some(prev) = last_id {
                    assert!(m.id() < prev, "identifiers must descend");
                }
                last_id = Some(m.id());
                match h.item(i + 1) {
                    Some(ChatHistoryItem::Message(next)) => assert_eq!(next.day(), m.day()),
                    Some(ChatHistoryItem::DayDivider(d)) => assert_eq!(d, m.day()),
                    None => panic!("the oldest message must be closed by a divider"),
                }
            }
            ChatHistoryItem::DayDivider(d) => {
                assert!(i > 0, "no divider at the head");
                if let Some(next) = h.item(i + 1) {
                    match next {
                        ChatHistoryItem::Message(m) => assert_ne!(m.day(), d),
                        ChatHistoryItem::DayDivider(_) => panic!("two dividers in a row"),
                    }
                }
            }
        }
    }
}

#[test]
fn operations_in_order_keep_the_history_ordered() {
    let mut h = ChatHistory::new(7);
    h.apply_new_message(msg(50, 1, 10));
    assert_well_ordered(&h);
    h.apply_new_message(msg(51, 2, 10));
    assert_well_ordered(&h);
    h.apply_new_message(msg(60, 1, 11));
    assert_well_ordered(&h);
    h.start_load_older(10).unwrap_or_else(|_| panic!("not loading yet"));
    h.finish_load_older(Ok(vec![msg(49, 1, 10), msg(40, 2, 9), msg(30, 3, 7)]))
        .unwrap_or_else(|_| panic!("load failed"));
    assert_well_ordered(&h);
    assert_eq!(items(&h), vec!["m60", "d11", "m51", "m50", "m49", "d10", "m40", "d9", "m30", "d7"]);
    h.apply_delete(&vec![40]);
    assert_well_ordered(&h);
    h.apply_delete(&vec![60, 49]);
    assert_well_ordered(&h);
    h.apply_new_message(msg(70, 1, 12));
    assert_well_ordered(&h);
    h.apply_delete(&vec![30, 50, 51]);
    assert_well_ordered(&h);
    assert_eq!(items(&h), vec!["m70", "d12"]);
    h.apply_delete(&vec![70]);
    assert!(items(&h).is_empty());
}
