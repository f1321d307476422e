use vstd::prelude::*;

use crate::chat_history::{
    append_change, describes,
    after_append, after_delete, after_new_message, after_update, appended, fresh_messages, ids_of,
    index_of, joins, pushed_front, removal_change, removal_span, removed_at,
    update_changes,
    ItemsChanged, Update,
};
use crate::history_item::{
    style_at,
    days_well_placed, has_id, ids_descending, is_message_with_id, layout, unique_ids,
    ChatHistoryItem,
};
use crate::lemmas::{
    cut, cut_source, lemma_appended_days, lemma_cut_index, lemma_layout_members, lemma_layout_step,
    lemma_pushed_front_days, lemma_pushed_front_ids, lemma_removed_at_days,
};
use crate::message::Message;

verus! {

/// Identifiers strictly descend over the batch `b`.
pub open spec fn batch_descending(b: Seq<Message>) -> bool {
    forall|i: int, j: int| 0 <= i < j < b.len() ==> b[i].id > b[j].id
}

proof fn lemma_pushed_front_order(s: Seq<ChatHistoryItem>, m: Message)
    requires
        ids_descending(s),
        forall|i: int| 0 <= i < s.len() && #[trigger] s[i] is Message ==> s[i]->Message_0.id < m.id,
    ensures
        ids_descending(pushed_front(s, m)),
{
    let t = pushed_front(s, m);
    let k: int = t.len() - s.len();
    assert forall|i: int| k <= i < t.len() implies t[i] == s[i - k] by {}
    assert forall|i: int, j: int|
        0 <= i < j < t.len() && #[trigger] t[i] is Message && #[trigger] t[j] is Message implies t[i]->Message_0.id
        > t[j]->Message_0.id by {
        assert(t[j] == s[j - k]);
        assert(s[j - k] is Message);
        if i >= k {
            assert(t[i] == s[i - k]);
        }
    }
}

proof fn lemma_layout_order(f: Seq<Message>)
    requires
        batch_descending(f),
    ensures
        ids_descending(layout(f)),
    decreases f.len(),
{
    if f.len() > 0 {
        let rest = f.drop_first();
        let r = layout(rest);
        assert forall|i: int, j: int| 0 <= i < j < rest.len() implies rest[i].id > rest[j].id by {
            assert(rest[i] == f[i + 1] && rest[j] == f[j + 1]);
        }
        lemma_layout_order(rest);
        lemma_layout_members(rest);
        lemma_layout_step(f);
        assert forall|i: int| 0 <= i < r.len() && #[trigger] r[i] is Message implies r[i]->Message_0.id
            < f[0].id by {
            let k = choose|k: int| 0 <= k < rest.len() && r[i]->Message_0 == #[trigger] rest[k];
            assert(rest[k] == f[k + 1]);
        }
        lemma_pushed_front_order(r, f[0]);
    }
}

/// The fresh messages of a batch are messages of the batch, in its order.
proof fn lemma_fresh_order(b: Seq<Message>, ids: Set<i64>)
    ensures
        forall|k: int|
            0 <= k < fresh_messages(b, ids).len() ==> exists|j: int|
                0 <= j < b.len() && #[trigger] fresh_messages(b, ids)[k] == b[j],
        batch_descending(b) ==> batch_descending(fresh_messages(b, ids)),
    decreases b.len(),
{
    if b.len() > 0 {
        let rest = b.drop_first();
        let f = fresh_messages(b, ids);
        let ids2 = if ids.contains(b[0].id) {
            ids
        } else {
            ids.insert(b[0].id)
        };
        let g = fresh_messages(rest, ids2);
        lemma_fresh_order(rest, ids2);
        if batch_descending(b) {
            assert forall|i: int, j: int| 0 <= i < j < rest.len() implies rest[i].id
                > rest[j].id by {
                assert(rest[i] == b[i + 1] && rest[j] == b[j + 1]);
            }
        }
        if ids.contains(b[0].id) {
            assert(f == g);
            assert forall|k: int| 0 <= k < f.len() implies exists|j: int|
                0 <= j < b.len() && #[trigger] f[k] == b[j] by {
                let j = choose|j: int| 0 <= j < rest.len() && #[trigger] g[k] == rest[j];
                assert(rest[j] == b[j + 1]);
            }
        } else {
            assert(f == seq![b[0]] + g);
            assert forall|k: int| 0 <= k < f.len() implies exists|j: int|
                0 <= j < b.len() && #[trigger] f[k] == b[j] by {
                if k == 0 {
                    assert(f[0] == b[0]);
                } else {
                    assert(f[k] == g[k - 1]);
                    let j = choose|j: int| 0 <= j < rest.len() && #[trigger] g[k - 1] == rest[j];
                    assert(rest[j] == b[j + 1]);
                }
            }
            if batch_descending(b) {
                assert forall|i: int, j: int| 0 <= i < j < f.len() implies f[i].id > f[j].id by {
                    assert(f[j] == g[j - 1]);
                    let jj = choose|jj: int| 0 <= jj < rest.len() && #[trigger] g[j - 1] == rest[jj];
                    assert(rest[jj] == b[jj + 1]);
                    if i > 0 {
                        assert(f[i] == g[i - 1]);
                    }
                }
            }
        }
    }
}

/// A new message whose identifier is above all those in the history keeps
/// the messages in descending order and the dividers in place.
pub proof fn law_new_message_keeps_order(s: Seq<ChatHistoryItem>, m: Message)
    requires
        days_well_placed(s),
        ids_descending(s),
        forall|i: int| 0 <= i < s.len() && #[trigger] s[i] is Message ==> s[i]->Message_0.id < m.id,
    ensures
        days_well_placed(after_new_message(s, m)),
        ids_descending(after_new_message(s, m)),
{
    if !has_id(s, m.id) {
        lemma_pushed_front_days(s, m);
        lemma_pushed_front_order(s, m);
    }
}

/// Deleting a message keeps the messages in descending order and the
/// dividers in place.
pub proof fn law_delete_keeps_order(s: Seq<ChatHistoryItem>, id: i64)
    requires
        days_well_placed(s),
        ids_descending(s),
    ensures
        days_well_placed(after_delete(s, id)),
        ids_descending(after_delete(s, id)),
{
    if has_id(s, id) {
        let p = index_of(s, id);
        assert(is_message_with_id(s, p, id));
        lemma_removed_at_days(s, p);
        let (a, b) = removal_span(s, p);
        assert(removed_at(s, p) == cut(s, a, b));
        let r = cut(s, a, b);
        lemma_cut_index(s, a, b);
        assert forall|i: int, j: int|
            0 <= i < j < r.len() && #[trigger] r[i] is Message && #[trigger] r[j] is Message implies r[i]->Message_0.id
            > r[j]->Message_0.id by {
            assert(r[i] == s[cut_source(a, b, i)]);
            assert(r[j] == s[cut_source(a, b, j)]);
        }
    }
}

/// A batch of older messages in descending order, all older than those in
/// the history, keeps the messages in descending order and the dividers in
/// place.
pub proof fn law_append_keeps_order(s: Seq<ChatHistoryItem>, b: Seq<Message>)
    requires
        days_well_placed(s),
        ids_descending(s),
        batch_descending(b),
        forall|i: int, k: int|
            0 <= i < s.len() && 0 <= k < b.len() && #[trigger] s[i] is Message ==> #[trigger] b[k].id
                < s[i]->Message_0.id,
    ensures
        days_well_placed(after_append(s, b)),
        ids_descending(after_append(s, b)),
{
    let f = fresh_messages(b, ids_of(s));
    let l = layout(f);
    lemma_appended_days(s, f);
    lemma_fresh_order(b, ids_of(s));
    lemma_layout_order(f);
    lemma_layout_members(f);
    let x = if joins(s, f) {
        s.drop_last()
    } else {
        s
    };
    let t = appended(s, f);
    let n = x.len() as int;
    assert(t == x + l);
    assert forall|i: int| 0 <= i < n implies x[i] == s[i] by {}
    assert forall|i: int, j: int|
        0 <= i < j < t.len() && #[trigger] t[i] is Message && #[trigger] t[j] is Message implies t[i]->Message_0.id
        > t[j]->Message_0.id by {
        if j < n {
            assert(t[i] == s[i] && t[j] == s[j]);
        } else if i >= n {
            assert(t[i] == l[i - n] && t[j] == l[j - n]);
        } else {
            assert(t[i] == s[i]);
            assert(t[j] == l[j - n]);
            let k = choose|k: int| 0 <= k < f.len() && l[j - n]->Message_0 == #[trigger] f[k];
            let jj = choose|jj: int| 0 <= jj < b.len() && #[trigger] f[k] == b[jj];
            assert(b[jj].id < s[i]->Message_0.id);
        }
    }
}

/// An operation on the history, as the update feed and the loader apply them.
pub enum HistoryOp {
    NewMessage(Message),
    Delete(i64),
    Append(Seq<Message>),
}

/// The items after `op`.
pub open spec fn apply_op(s: Seq<ChatHistoryItem>, op: HistoryOp) -> Seq<ChatHistoryItem> {
    match op {
        HistoryOp::NewMessage(m) => after_new_message(s, m),
        HistoryOp::Delete(id) => after_delete(s, id),
        HistoryOp::Append(b) => after_append(s, b),
    }
}

/// Whether `op` comes in order: a new message is newer than every message
/// there, and a batch is in descending order and older than every message there.
pub open spec fn op_in_order(s: Seq<ChatHistoryItem>, op: HistoryOp) -> bool {
    match op {
        HistoryOp::NewMessage(m) => forall|i: int|
            0 <= i < s.len() && #[trigger] s[i] is Message ==> s[i]->Message_0.id < m.id,
        HistoryOp::Delete(_) => true,
        HistoryOp::Append(b) => batch_descending(b) && forall|i: int, k: int|
            0 <= i < s.len() && 0 <= k < b.len() && #[trigger] s[i] is Message ==> #[trigger] b[k].id
                < s[i]->Message_0.id,
    }
}

/// The items after the operations `ops`, first to last.
pub open spec fn run_ops(s: Seq<ChatHistoryItem>, ops: Seq<HistoryOp>) -> Seq<ChatHistoryItem>
    decreases ops.len(),
{
    if ops.len() == 0 {
        s
    } else {
        apply_op(run_ops(s, ops.drop_last()), ops.last())
    }
}

/// Whether each of `ops` comes in order where it is applied.
pub open spec fn ops_in_order(s: Seq<ChatHistoryItem>, ops: Seq<HistoryOp>) -> bool
    decreases ops.len(),
{
    if ops.len() == 0 {
        true
    } else {
        ops_in_order(s, ops.drop_last()) && op_in_order(run_ops(s, ops.drop_last()), ops.last())
    }
}

/// Over any run of new messages, deletions and appended batches that come in
/// order, the messages stay in strictly descending order of identifier and
/// each run of messages of one day stays closed by exactly one divider.
pub proof fn law_operations_keep_order(s: Seq<ChatHistoryItem>, ops: Seq<HistoryOp>)
    requires
        days_well_placed(s),
        ids_descending(s),
        ops_in_order(s, ops),
    ensures
        days_well_placed(run_ops(s, ops)),
        ids_descending(run_ops(s, ops)),
    decreases ops.len(),
{
    if ops.len() > 0 {
        law_operations_keep_order(s, ops.drop_last());
        let before = run_ops(s, ops.drop_last());
        match ops.last() {
            HistoryOp::NewMessage(m) => law_new_message_keeps_order(before, m),
            HistoryOp::Delete(id) => law_delete_keeps_order(before, id),
            HistoryOp::Append(b) => law_append_keeps_order(before, b),
        }
    }
}

/// A new message delivered twice leaves the history as one delivery does.
pub proof fn law_new_message_idempotent(s: Seq<ChatHistoryItem>, m: Message)
    ensures
        after_new_message(after_new_message(s, m), m) == after_new_message(s, m),
{
    if !has_id(s, m.id) {
        assert(is_message_with_id(pushed_front(s, m), 0, m.id));
    }
}

/// Deleting a message just inserted gives back the history as it was,
/// dividers included.
pub proof fn law_delete_undoes_new_message(s: Seq<ChatHistoryItem>, m: Message)
    requires
        days_well_placed(s),
        unique_ids(s),
        !has_id(s, m.id),
    ensures
        after_delete(after_new_message(s, m), m.id) == s,
{
    let t = pushed_front(s, m);
    lemma_pushed_front_ids(s, m);
    assert(is_message_with_id(t, 0, m.id));
    let p = index_of(t, m.id);
    assert(is_message_with_id(t, p, m.id));
    assert(t[p] is Message && t[0] is Message);
    assert(p == 0);
    if s.len() > 0 {
        assert(!(s[0] is DayDivider));
    }
    let (a, b) = removal_span(t, 0);
    if t.len() - s.len() == 1 {
        assert(a == 0 && b == 1);
        assert(removed_at(t, 0) =~= s);
    } else {
        assert(a == 0 && b == 2);
        assert(removed_at(t, 0) =~= s);
    }
}

/// When a pending message is confirmed, its old identifier is gone, the
/// confirmed message stands at the head, and two changes are reported: a
/// removal, then an insertion at the head.
pub proof fn law_send_succeeded(s: Seq<ChatHistoryItem>, old_id: i64, m: Message)
    requires
        unique_ids(s),
        has_id(s, old_id),
        !has_id(s, m.id),
    ensures
        ({
            let u = Update::MessageSendSucceeded { old_message_id: old_id, message: m };
            let r = after_update(s, u);
            let c = update_changes(s, u);
            &&& !has_id(r, old_id)
            &&& r[0] == ChatHistoryItem::Message(m)
            &&& c.len() == 2
            &&& c[0].added == 0 && c[0].removed > 0
            &&& c[1].position == 0 && c[1].removed == 0 && c[1].added > 0
        }),
{
    let p = index_of(s, old_id);
    assert(is_message_with_id(s, p, old_id));
    let d = after_delete(s, old_id);
    let (a, b) = removal_span(s, p);
    assert(a <= p < b);
    assert(d == cut(s, a, b));
    lemma_cut_index(s, a, b);
    assert forall|i: int| !#[trigger] is_message_with_id(d, i, m.id) by {
        if 0 <= i < d.len() && d[i] is Message {
            let si = cut_source(a, b, i);
            assert(d[i] == s[si]);
            assert(!is_message_with_id(s, si, m.id));
        }
    }
    assert forall|i: int| !#[trigger] is_message_with_id(d, i, old_id) by {
        if 0 <= i < d.len() && d[i] is Message {
            let si = cut_source(a, b, i);
            assert(d[i] == s[si]);
            assert(si != p);
            assert(s[si] is Message && s[p] is Message);
        }
    }
    let r = pushed_front(d, m);
    let k: int = r.len() - d.len();
    assert forall|i: int| !is_message_with_id(r, i, old_id) by {
        if k <= i < r.len() && r[i] is Message {
            assert(r[i] == d[i - k]);
        }
    }
    let u = Update::MessageSendSucceeded { old_message_id: old_id, message: m };
    assert(!has_id(d, m.id));
    assert(after_update(s, u) == r);
    let c0 = removal_change(s, p);
    let c1 = ItemsChanged { position: 0, removed: 0, added: k as usize };
    assert(index_of(s, old_id) == p);
    assert(update_changes(s, u) =~= seq![c0, c1]);
}

/// The change reported for a new message tells how the list changed: the
/// items put in at the head, and nothing else.
pub proof fn law_new_message_change(s: Seq<ChatHistoryItem>, m: Message)
    requires
        !has_id(s, m.id),
    ensures
        describes(
            s,
            after_new_message(s, m),
            ItemsChanged {
                position: 0,
                removed: 0,
                added: (pushed_front(s, m).len() - s.len()) as usize,
            },
        ),
{
    let t = pushed_front(s, m);
    let k: int = t.len() - s.len();
    assert(t.subrange(0, 0) =~= s.subrange(0, 0));
    assert(t.subrange(k, t.len() as int) =~= s.subrange(0, s.len() as int));
}

/// The change reported for a deletion tells how the list changed: the
/// stretch taken out, and nothing else.
pub proof fn law_delete_change(s: Seq<ChatHistoryItem>, id: i64)
    requires
        s.len() <= usize::MAX,
        has_id(s, id),
    ensures
        describes(s, after_delete(s, id), removal_change(s, index_of(s, id))),
{
    let p = index_of(s, id);
    assert(is_message_with_id(s, p, id));
    let (a, b) = removal_span(s, p);
    assert(0 <= a <= p < b <= s.len());
    let t = after_delete(s, id);
    assert(t == s.subrange(0, a) + s.subrange(b, s.len() as int));
    assert(t.subrange(0, a) =~= s.subrange(0, a));
    assert(t.subrange(a, t.len() as int) =~= s.subrange(b, s.len() as int));
}

/// The change reported for a batch of older messages tells how the list
/// changed: the items put in at the older end, in place of a divider that the
/// batch continues.
pub proof fn law_append_change(s: Seq<ChatHistoryItem>, b: Seq<Message>)
    requires
        after_append(s, b).len() <= usize::MAX,
        s.len() <= usize::MAX,
        fresh_messages(b, ids_of(s)).len() > 0,
    ensures
        describes(s, after_append(s, b), append_change(s, fresh_messages(b, ids_of(s)))),
{
    let f = fresh_messages(b, ids_of(s));
    let l = layout(f);
    let x = if joins(s, f) {
        s.drop_last()
    } else {
        s
    };
    let t = appended(s, f);
    assert(t == x + l);
    let n = x.len() as int;
    assert(t.subrange(0, n) =~= s.subrange(0, n));
    assert(t.subrange(n + l.len(), t.len() as int) =~= Seq::<ChatHistoryItem>::empty());
    assert(s.subrange(s.len() as int, s.len() as int) =~= Seq::<ChatHistoryItem>::empty());
}

/// The style of an item depends only on the items up to two places away.
proof fn lemma_style_local(s: Seq<ChatHistoryItem>, t: Seq<ChatHistoryItem>, i: int, j: int)
    requires
        0 <= i < s.len(),
        0 <= j < t.len(),
        (i >= 1) == (j >= 1),
        (i >= 2) == (j >= 2),
        (i + 1 < s.len()) == (j + 1 < t.len()),
        (i + 2 < s.len()) == (j + 2 < t.len()),
        s[i] == t[j],
        i >= 1 ==> s[i - 1] == t[j - 1],
        i >= 2 ==> s[i - 2] == t[j - 2],
        i + 1 < s.len() ==> s[i + 1] == t[j + 1],
        i + 2 < s.len() ==> s[i + 2] == t[j + 2],
    ensures
        style_at(s, i) == style_at(t, j),
{
}

/// After a new message, only the items near the head may change style: every
/// older item keeps its style.
pub proof fn law_new_message_styles(s: Seq<ChatHistoryItem>, m: Message)
    requires
        !has_id(s, m.id),
    ensures
        forall|i: int|
            2 <= i < s.len() ==> style_at(
                after_new_message(s, m),
                i + (pushed_front(s, m).len() - s.len()),
            ) == #[trigger] style_at(s, i),
{
    let t = pushed_front(s, m);
    let k: int = t.len() - s.len();
    assert forall|i: int| 2 <= i < s.len() implies style_at(t, i + k) == #[trigger] style_at(s, i) by {
        assert(t[i + k] == s[i] && t[i + k - 1] == s[i - 1] && t[i + k - 2] == s[i - 2]);
        if i + 1 < s.len() {
            assert(t[i + k + 1] == s[i + 1]);
        }
        if i + 2 < s.len() {
            assert(t[i + k + 2] == s[i + 2]);
        }
        lemma_style_local(s, t, i, i + k);
    }
}

/// After a deletion, only the items within two places of the stretch taken
/// out may change style: every other item keeps its style.
pub proof fn law_delete_styles(s: Seq<ChatHistoryItem>, id: i64)
    requires
        has_id(s, id),
    ensures
        ({
            let p = index_of(s, id);
            let (a, b) = removal_span(s, p);
            &&& forall|i: int|
                0 <= i < a - 2 ==> style_at(after_delete(s, id), i) == #[trigger] style_at(s, i)
            &&& forall|i: int|
                b + 2 <= i < s.len() ==> style_at(after_delete(s, id), i - (b - a))
                    == #[trigger] style_at(s, i)
        }),
{
    let p = index_of(s, id);
    assert(is_message_with_id(s, p, id));
    let (a, b) = removal_span(s, p);
    assert(0 <= a <= p < b <= s.len());
    let t = after_delete(s, id);
    assert(t == s.subrange(0, a) + s.subrange(b, s.len() as int));
    assert(t.len() == s.len() - (b - a));
    assert forall|i: int| 0 <= i < a - 2 implies style_at(t, i) == #[trigger] style_at(s, i) by {
        assert(t[i] == s[i] && t[i + 1] == s[i + 1] && t[i + 2] == s[i + 2]);
        if i >= 1 {
            assert(t[i - 1] == s[i - 1]);
        }
        if i >= 2 {
            assert(t[i - 2] == s[i - 2]);
        }
        lemma_style_local(s, t, i, i);
    }
    assert forall|i: int| b + 2 <= i < s.len() implies style_at(t, i - (b - a)) == #[trigger] style_at(
        s,
        i,
    ) by {
        let j = i - (b - a);
        assert(t[j] == s[i] && t[j - 1] == s[i - 1] && t[j - 2] == s[i - 2]);
        if i + 1 < s.len() {
            assert(t[j + 1] == s[i + 1]);
        }
        if i + 2 < s.len() {
            assert(t[j + 2] == s[i + 2]);
        }
        lemma_style_local(s, t, i, j);
    }
}

/// After a batch of older messages, only the items within three places of
/// the older end may change style: every newer item keeps its style.
pub proof fn law_append_styles(s: Seq<ChatHistoryItem>, b: Seq<Message>)
    ensures
        forall|i: int|
            0 <= i < s.len() - 3 ==> style_at(after_append(s, b), i) == #[trigger] style_at(s, i),
{
    let f = fresh_messages(b, ids_of(s));
    let l = layout(f);
    let x = if joins(s, f) {
        s.drop_last()
    } else {
        s
    };
    let t = appended(s, f);
    assert(t == x + l);
    assert forall|i: int| 0 <= i < s.len() - 3 implies style_at(t, i) == #[trigger] style_at(s, i) by {
        assert(t[i] == s[i] && t[i + 1] == s[i + 1] && t[i + 2] == s[i + 2]);
        if i >= 1 {
            assert(t[i - 1] == s[i - 1]);
        }
        if i >= 2 {
            assert(t[i - 2] == s[i - 2]);
        }
        lemma_style_local(s, t, i, i);
    }
}

} // verus!
