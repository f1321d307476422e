use vstd::prelude::*;

use crate::chat_history::{
    appended, fresh_messages, index_of, joins, map_matches, pushed_front, removal_span, removed_at,
};
use crate::history_item::{
    days_well_placed, has_id, is_message_with_id, layout, unique_ids, ChatHistoryItem,
};
use crate::message::Message;

verus! {

/// Putting a message at the head keeps the dividers in place.
pub proof fn lemma_pushed_front_days(s: Seq<ChatHistoryItem>, m: Message)
    requires
        days_well_placed(s),
    ensures
        days_well_placed(pushed_front(s, m)),
{
    let t = pushed_front(s, m);
    let k: int = t.len() - s.len();
    assert(k == 1 || k == 2);
    assert forall|i: int| k <= i < t.len() implies t[i] == s[i - k] by {}
    assert forall|i: int| 0 <= i < t.len() && #[trigger] t[i] is DayDivider implies i > 0
        && t[i - 1] is Message && t[i - 1].spec_day() == t[i].spec_day() by {
        if i >= k {
            assert(t[i] == s[i - k]);
            assert(s[i - k] is DayDivider);
            if i - k > 0 {
                assert(t[i - 1] == s[i - 1 - k]);
            }
        }
    }
    assert forall|i: int| 0 <= i < t.len() && #[trigger] t[i] is Message implies i + 1 < t.len()
        && (t[i + 1] is Message ==> t[i + 1].spec_day() == t[i].spec_day()) by {
        if i >= k {
            assert(t[i] == s[i - k]);
            assert(s[i - k] is Message);
            assert(t[i + 1] == s[i + 1 - k]);
        }
    }
    assert forall|i: int| 0 <= i && i + 1 < t.len() && #[trigger] t[i] is DayDivider implies t[i
        + 1] is Message && t[i + 1].spec_day() != t[i].spec_day() by {
        if i >= k {
            assert(t[i] == s[i - k]);
            assert(s[i - k] is DayDivider);
            assert(t[i + 1] == s[i + 1 - k]);
        } else {
            assert(i == 1 && k == 2);
            assert(t[2] == s[0]);
            if s[0] is DayDivider {
                assert(false);
            }
        }
    }
}

/// Putting a message with a new identifier at the head keeps the
/// identifiers unique.
pub proof fn lemma_pushed_front_ids(s: Seq<ChatHistoryItem>, m: Message)
    requires
        unique_ids(s),
        !has_id(s, m.id),
    ensures
        unique_ids(pushed_front(s, m)),
        has_id(pushed_front(s, m), m.id),
{
    let t = pushed_front(s, m);
    let k: int = t.len() - s.len();
    assert(is_message_with_id(t, 0, m.id));
    assert forall|i: int, j: int|
        0 <= i < t.len() && 0 <= j < t.len() && i != j && #[trigger] t[i] is Message
            && #[trigger] t[j] is Message implies t[i]->Message_0.id != t[j]->Message_0.id by {
        if i >= k && j >= k {
            assert(t[i] == s[i - k]);
            assert(t[j] == s[j - k]);
            assert(s[i - k] is Message && s[j - k] is Message);
        } else if i >= k {
            assert(t[i] == s[i - k]);
            assert(j == 0);
            assert(!is_message_with_id(s, i - k, m.id));
        } else if j >= k {
            assert(t[j] == s[j - k]);
            assert(i == 0);
            assert(!is_message_with_id(s, j - k, m.id));
        }
    }
}

/// Putting a message with a new identifier at the head keeps the invariant.
pub proof fn lemma_pushed_front(s: Seq<ChatHistoryItem>, m: Message, map: Map<i64, Message>)
    requires
        days_well_placed(s),
        unique_ids(s),
        map_matches(s, map),
        !has_id(s, m.id),
    ensures
        days_well_placed(pushed_front(s, m)),
        unique_ids(pushed_front(s, m)),
        map_matches(pushed_front(s, m), map.insert(m.id, m)),
        has_id(pushed_front(s, m), m.id),
{
    let t = pushed_front(s, m);
    let k: int = t.len() - s.len();
    let map2 = map.insert(m.id, m);
    lemma_pushed_front_days(s, m);
    lemma_pushed_front_ids(s, m);
    assert forall|id: i64| #[trigger] map2.contains_key(id) implies has_id(t, id) by {
        if id != m.id {
            assert(map.contains_key(id));
            let j = choose|j: int| is_message_with_id(s, j, id);
            assert(t[j + k] == s[j]);
            assert(is_message_with_id(t, j + k, id));
        }
    }
    assert forall|i: int| 0 <= i < t.len() && #[trigger] t[i] is Message implies map2.contains_key(
        t[i]->Message_0.id,
    ) && map2[t[i]->Message_0.id] == t[i]->Message_0 by {
        if i >= k {
            assert(t[i] == s[i - k]);
            assert(s[i - k] is Message);
            assert(!is_message_with_id(s, i - k, m.id));
        }
    }
}

/// No identifier stands twice in the batch `b`.
pub open spec fn distinct_ids(b: Seq<Message>) -> bool {
    forall|i: int, j: int| 0 <= i < b.len() && 0 <= j < b.len() && i != j ==> b[i].id != b[j].id
}

/// The items for a batch are the batch's head with a divider if needed, put
/// in front of the items for the rest.
pub proof fn lemma_layout_step(b: Seq<Message>)
    requires
        b.len() > 0,
    ensures
        layout(b) == pushed_front(layout(b.drop_first()), b[0]),
        layout(b)[0] == ChatHistoryItem::Message(b[0]),
{
    let rest = b.drop_first();
    if rest.len() > 0 {
        reveal_with_fuel(layout, 2);
        assert(layout(rest)[0] == ChatHistoryItem::Message(rest[0]));
    }
}

/// The items for a batch have their dividers in place.
pub proof fn lemma_layout_days(b: Seq<Message>)
    ensures
        days_well_placed(layout(b)),
    decreases b.len(),
{
    if b.len() > 0 {
        lemma_layout_days(b.drop_first());
        lemma_layout_step(b);
        lemma_pushed_front_days(layout(b.drop_first()), b[0]);
    }
}

/// The messages among the items for a batch are those of the batch.
#[verifier::rlimit(40)]
pub proof fn lemma_layout_members(b: Seq<Message>)
    ensures
        forall|i: int|
            0 <= i < layout(b).len() && #[trigger] layout(b)[i] is Message ==> exists|k: int|
                0 <= k < b.len() && layout(b)[i]->Message_0 == #[trigger] b[k],
        forall|k: int|
            0 <= k < b.len() ==> exists|i: int|
                0 <= i < layout(b).len() && #[trigger] layout(b)[i] == ChatHistoryItem::Message(
                    #[trigger] b[k],
                ),
    decreases b.len(),
{
    if b.len() > 0 {
        let rest = b.drop_first();
        let r = layout(rest);
        let l = layout(b);
        lemma_layout_members(rest);
        lemma_layout_step(b);
        let n: int = l.len() - r.len();
        assert forall|i: int| n <= i < l.len() implies l[i] == r[i - n] by {}
        assert forall|i: int| 0 <= i < l.len() && #[trigger] l[i] is Message implies exists|k: int|
            0 <= k < b.len() && l[i]->Message_0 == #[trigger] b[k] by {
            if i >= n {
                assert(l[i] == r[i - n]);
                let k = choose|k: int|
                    0 <= k < rest.len() && r[i - n]->Message_0 == #[trigger] rest[k];
                assert(rest[k] == b[k + 1]);
            } else {
                assert(i == 0);
                assert(l[0]->Message_0 == b[0]);
            }
        }
        assert forall|k: int| 0 <= k < b.len() implies exists|i: int|
            0 <= i < l.len() && #[trigger] l[i] == ChatHistoryItem::Message(#[trigger] b[k]) by {
            if k == 0 {
                assert(l[0] == ChatHistoryItem::Message(b[0]));
            } else {
                assert(rest[k - 1] == b[k]);
                let i = choose|i: int|
                    0 <= i < r.len() && #[trigger] r[i] == ChatHistoryItem::Message(
                        #[trigger] rest[k - 1],
                    );
                assert(l[i + n] == r[i]);
            }
        }
    }
}

/// The items for a batch with distinct identifiers hold each identifier once.
pub proof fn lemma_layout_ids(b: Seq<Message>)
    requires
        distinct_ids(b),
    ensures
        unique_ids(layout(b)),
    decreases b.len(),
{
    if b.len() > 0 {
        let rest = b.drop_first();
        let r = layout(rest);
        assert forall|i: int, j: int| 0 <= i < rest.len() && 0 <= j < rest.len() && i != j
            implies rest[i].id != rest[j].id by {
            assert(rest[i] == b[i + 1] && rest[j] == b[j + 1]);
        }
        lemma_layout_ids(rest);
        lemma_layout_members(rest);
        lemma_layout_step(b);
        assert forall|i: int| !is_message_with_id(r, i, b[0].id) by {
            if 0 <= i < r.len() && r[i] is Message {
                let k = choose|k: int| 0 <= k < rest.len() && r[i]->Message_0 == #[trigger] rest[k];
                assert(rest[k] == b[k + 1]);
            }
        }
        lemma_pushed_front_ids(r, b[0]);
    }
}

/// Taking the stretch `[a, b)` out of `s` leaves the dividers in place when
/// the items that come to stand next to each other fit together.
pub open spec fn junction_fits(s: Seq<ChatHistoryItem>, a: int, b: int) -> bool {
    &&& a > 0 && s[a - 1] is Message ==> b < s.len() && (s[b] is Message ==> s[b].spec_day()
        == s[a - 1].spec_day())
    &&& a > 0 && s[a - 1] is DayDivider && b < s.len() ==> s[b] is Message && s[b].spec_day()
        != s[a - 1].spec_day()
    &&& b < s.len() && s[b] is DayDivider ==> a > 0 && s[a - 1] is Message && s[a - 1].spec_day()
        == s[b].spec_day()
}

/// The items of `s` without the stretch `[a, b)`.
pub open spec fn cut(s: Seq<ChatHistoryItem>, a: int, b: int) -> Seq<ChatHistoryItem> {
    s.subrange(0, a) + s.subrange(b, s.len() as int)
}

/// Where the item at `i` of `cut(s, a, b)` stood in `s`.
pub open spec fn cut_source(a: int, b: int, i: int) -> int {
    if i < a {
        i
    } else {
        i + (b - a)
    }
}

pub proof fn lemma_cut_index(s: Seq<ChatHistoryItem>, a: int, b: int)
    requires
        0 <= a <= b <= s.len(),
    ensures
        cut(s, a, b).len() == s.len() - (b - a),
        forall|i: int|
            0 <= i < cut(s, a, b).len() ==> #[trigger] cut(s, a, b)[i] == s[cut_source(a, b, i)],
{
    let r = cut(s, a, b);
    assert forall|i: int| 0 <= i < r.len() implies #[trigger] r[i] == s[cut_source(a, b, i)] by {}
}

/// Taking the stretch `[a, b)` out of `s` keeps the dividers in place when the
/// two sides fit together.
pub proof fn lemma_cut_days(s: Seq<ChatHistoryItem>, a: int, b: int)
    requires
        days_well_placed(s),
        0 <= a < b <= s.len(),
        junction_fits(s, a, b),
    ensures
        days_well_placed(cut(s, a, b)),
{
    let r = cut(s, a, b);
    let d = b - a;
    lemma_cut_index(s, a, b);
    assert forall|i: int| 0 <= i < r.len() && #[trigger] r[i] is DayDivider implies i > 0
        && r[i - 1] is Message && r[i - 1].spec_day() == r[i].spec_day() by {
        assert(r[i] == s[cut_source(a, b, i)]);
        if i < a {
            assert(s[i] is DayDivider);
            assert(r[i - 1] == s[cut_source(a, b, i - 1)]);
        } else {
            assert(s[i + d] is DayDivider);
            if i > a {
                assert(r[i - 1] == s[cut_source(a, b, i - 1)]);
            } else {
                assert(r[i - 1] == s[cut_source(a, b, i - 1)]);
            }
        }
    }
    assert forall|i: int| 0 <= i < r.len() && #[trigger] r[i] is Message implies i + 1 < r.len()
        && (r[i + 1] is Message ==> r[i + 1].spec_day() == r[i].spec_day()) by {
        assert(r[i] == s[cut_source(a, b, i)]);
        if i + 1 < r.len() {
            assert(r[i + 1] == s[cut_source(a, b, i + 1)]);
        }
        if i < a - 1 {
            assert(s[i] is Message);
        } else if i == a - 1 {
            assert(s[a - 1] is Message);
        } else {
            assert(s[i + d] is Message);
        }
    }
    assert forall|i: int| 0 <= i && i + 1 < r.len() && #[trigger] r[i] is DayDivider implies r[i
        + 1] is Message && r[i + 1].spec_day() != r[i].spec_day() by {
        assert(r[i] == s[cut_source(a, b, i)]);
        assert(r[i + 1] == s[cut_source(a, b, i + 1)]);
        if i < a - 1 {
            assert(s[i] is DayDivider);
        } else if i == a - 1 {
            assert(s[a - 1] is DayDivider);
        } else {
            assert(s[i + d] is DayDivider);
        }
    }
}

/// Taking out a stretch keeps the identifiers unique, drops the message `p`,
/// and leaves the table without it in step.
proof fn lemma_cut_ids(s: Seq<ChatHistoryItem>, a: int, b: int, map: Map<i64, Message>, p: int, id: i64)
    requires
        unique_ids(s),
        map_matches(s, map),
        0 <= a <= p < b <= s.len(),
        is_message_with_id(s, p, id),
        forall|i: int| a <= i < b && #[trigger] s[i] is Message ==> s[i]->Message_0.id == id,
    ensures
        unique_ids(cut(s, a, b)),
        map_matches(cut(s, a, b), map.remove(id)),
        !has_id(cut(s, a, b), id),
{
    let r = cut(s, a, b);
    let d = b - a;
    let map2 = map.remove(id);
    lemma_cut_index(s, a, b);
    assert forall|i: int, j: int|
        0 <= i < r.len() && 0 <= j < r.len() && i != j && #[trigger] r[i] is Message
            && #[trigger] r[j] is Message implies r[i]->Message_0.id != r[j]->Message_0.id by {
        assert(r[i] == s[cut_source(a, b, i)]);
        assert(r[j] == s[cut_source(a, b, j)]);
    }
    assert forall|i: int| 0 <= i < r.len() && #[trigger] r[i] is Message implies map2.contains_key(
        r[i]->Message_0.id,
    ) && map2[r[i]->Message_0.id] == r[i]->Message_0 by {
        let si = cut_source(a, b, i);
        assert(r[i] == s[si]);
        assert(s[si] is Message);
        assert(s[p] is Message);
    }
    assert forall|x: i64| #[trigger] map2.contains_key(x) implies has_id(r, x) by {
        assert(map.contains_key(x));
        let j = choose|j: int| is_message_with_id(s, j, x);
        if j < a {
            assert(r[j] == s[cut_source(a, b, j)]);
            assert(is_message_with_id(r, j, x));
        } else if j >= b {
            assert(r[j - d] == s[cut_source(a, b, j - d)]);
            assert(is_message_with_id(r, j - d, x));
        } else {
            assert(s[j] is Message);
        }
    }
    assert forall|i: int| !is_message_with_id(r, i, id) by {
        if 0 <= i < r.len() && r[i] is Message {
            let si = cut_source(a, b, i);
            assert(r[i] == s[si]);
            assert(s[si] is Message);
            assert(s[p] is Message);
        }
    }
}

/// Taking out the message at `p` keeps the dividers in place.
pub proof fn lemma_removed_at_days(s: Seq<ChatHistoryItem>, p: int)
    requires
        days_well_placed(s),
        0 <= p < s.len(),
        s[p] is Message,
    ensures
        0 <= removal_span(s, p).0 <= p < removal_span(s, p).1 <= s.len(),
        days_well_placed(removed_at(s, p)),
{
    let (a, b) = removal_span(s, p);
    assert(p + 1 < s.len());
    if p > 0 && s[p - 1] is DayDivider {
        assert(p - 1 > 0);
    }
    if p + 1 < s.len() && s[p + 1] is DayDivider && p + 2 < s.len() {
        assert(s[p + 2] is Message);
    }
    lemma_cut_days(s, a, b);
    assert(removed_at(s, p) == cut(s, a, b));
}

/// Taking out the message at `p`, with identifier `id`, keeps the
/// identifiers unique and leaves the table without `id` in step.
pub proof fn lemma_removed_at_ids(s: Seq<ChatHistoryItem>, p: int, map: Map<i64, Message>, id: i64)
    requires
        unique_ids(s),
        map_matches(s, map),
        is_message_with_id(s, p, id),
    ensures
        has_id(s, id),
        index_of(s, id) == p,
        0 <= removal_span(s, p).0 <= p < removal_span(s, p).1 <= s.len(),
        unique_ids(removed_at(s, p)),
        map_matches(removed_at(s, p), map.remove(id)),
        !has_id(removed_at(s, p), id),
{
    let (a, b) = removal_span(s, p);
    let q = index_of(s, id);
    assert(is_message_with_id(s, q, id));
    assert(s[p] is Message && s[q] is Message);
    assert(q == p);
    assert forall|i: int| a <= i < b && #[trigger] s[i] is Message implies s[i]->Message_0.id
        == id by {
        if i != p {
            assert(s[i] is DayDivider);
        }
    }
    lemma_cut_ids(s, a, b, map, p, id);
    assert(removed_at(s, p) == cut(s, a, b));
}

/// The fresh messages of a batch have distinct identifiers, none in `ids`.
pub proof fn lemma_fresh(b: Seq<Message>, ids: Set<i64>)
    ensures
        distinct_ids(fresh_messages(b, ids)),
        forall|k: int|
            0 <= k < fresh_messages(b, ids).len() ==> !ids.contains(
                #[trigger] fresh_messages(b, ids)[k].id,
            ),
    decreases b.len(),
{
    if b.len() > 0 {
        let rest = b.drop_first();
        if ids.contains(b[0].id) {
            lemma_fresh(rest, ids);
        } else {
            let ids2 = ids.insert(b[0].id);
            lemma_fresh(rest, ids2);
            let f = fresh_messages(b, ids);
            let g = fresh_messages(rest, ids2);
            assert(f == seq![b[0]] + g);
            assert forall|k: int| 1 <= k < f.len() implies f[k] == g[k - 1] by {}
            assert forall|k: int| 0 <= k < f.len() implies !ids.contains(#[trigger] f[k].id) by {
                if k > 0 {
                    assert(f[k] == g[k - 1]);
                    assert(!ids2.contains(g[k - 1].id));
                }
            }
            assert forall|i: int, j: int| 0 <= i < f.len() && 0 <= j < f.len() && i != j
                implies f[i].id != f[j].id by {
                if i > 0 && j > 0 {
                    assert(f[i] == g[i - 1] && f[j] == g[j - 1]);
                } else if i > 0 {
                    assert(f[i] == g[i - 1]);
                    assert(!ids2.contains(g[i - 1].id));
                } else if j > 0 {
                    assert(f[j] == g[j - 1]);
                    assert(!ids2.contains(g[j - 1].id));
                }
            }
        }
    }
}

/// The conditions of `days_well_placed` but the one that a message must be
/// followed by something, checked everywhere but at the last item.
pub open spec fn placed_but_last(s: Seq<ChatHistoryItem>) -> bool {
    &&& forall|i: int|
        0 <= i < s.len() && #[trigger] s[i] is DayDivider ==> i > 0 && s[i - 1] is Message
            && s[i - 1].spec_day() == s[i].spec_day()
    &&& forall|i: int|
        0 <= i && i + 1 < s.len() && #[trigger] s[i] is Message ==> (s[i + 1] is Message
            ==> s[i + 1].spec_day() == s[i].spec_day())
    &&& forall|i: int|
        0 <= i && i + 1 < s.len() && #[trigger] s[i] is DayDivider ==> s[i + 1] is Message
            && s[i + 1].spec_day() != s[i].spec_day()
}

/// Two well placed pieces make a well placed whole when they fit where they meet.
proof fn lemma_concat_days(x: Seq<ChatHistoryItem>, y: Seq<ChatHistoryItem>)
    requires
        placed_but_last(x),
        days_well_placed(y),
        x.len() > 0 && x.last() is Message ==> y.len() > 0 && y[0].spec_day() == x.last().spec_day(),
        x.len() > 0 && x.last() is DayDivider && y.len() > 0 ==> y[0].spec_day()
            != x.last().spec_day(),
    ensures
        days_well_placed(x + y),
{
    let t = x + y;
    let n = x.len() as int;
    if y.len() > 0 {
        assert(!(y[0] is DayDivider));
    }
    assert forall|i: int| 0 <= i < t.len() && #[trigger] t[i] is DayDivider implies i > 0
        && t[i - 1] is Message && t[i - 1].spec_day() == t[i].spec_day() by {
        if i < n {
            assert(x[i] is DayDivider);
        } else {
            assert(t[i] == y[i - n]);
            assert(y[i - n] is DayDivider);
            assert(t[i - 1] == y[i - 1 - n]);
        }
    }
    assert forall|i: int| 0 <= i < t.len() && #[trigger] t[i] is Message implies i + 1 < t.len()
        && (t[i + 1] is Message ==> t[i + 1].spec_day() == t[i].spec_day()) by {
        if i < n - 1 {
            assert(x[i] is Message);
        } else if i == n - 1 {
            assert(x.last() is Message);
        } else {
            assert(t[i] == y[i - n]);
            assert(y[i - n] is Message);
            assert(t[i + 1] == y[i + 1 - n]);
        }
    }
    assert forall|i: int| 0 <= i && i + 1 < t.len() && #[trigger] t[i] is DayDivider implies t[i
        + 1] is Message && t[i + 1].spec_day() != t[i].spec_day() by {
        if i < n - 1 {
            assert(x[i] is DayDivider);
        } else if i == n - 1 {
            assert(x.last() is DayDivider);
        } else {
            assert(t[i] == y[i - n]);
            assert(y[i - n] is DayDivider);
            assert(t[i + 1] == y[i + 1 - n]);
        }
    }
}

/// Putting a batch of fresh messages at the older end keeps the dividers in place.
pub proof fn lemma_appended_days(s: Seq<ChatHistoryItem>, f: Seq<Message>)
    requires
        days_well_placed(s),
    ensures
        days_well_placed(appended(s, f)),
{
    let l = layout(f);
    lemma_layout_days(f);
    if f.len() > 0 {
        lemma_layout_step(f);
    }
    if s.len() > 0 {
        assert(!(s.last() is Message));
    }
    if joins(s, f) {
        let x = s.drop_last();
        assert(s[s.len() - 1] is DayDivider);
        assert(x.last() == s[s.len() - 2]);
        assert forall|i: int| 0 <= i < x.len() implies x[i] == s[i] by {}
        assert(placed_but_last(x));
        lemma_concat_days(x, l);
    } else {
        lemma_concat_days(s, l);
    }
}

/// Putting a batch of fresh messages at the older end keeps the identifiers
/// unique, and the table that gained the batch in step.
pub proof fn lemma_appended_ids(
    s: Seq<ChatHistoryItem>,
    f: Seq<Message>,
    map: Map<i64, Message>,
    map2: Map<i64, Message>,
)
    requires
        unique_ids(s),
        map_matches(s, map),
        distinct_ids(f),
        forall|k: int| 0 <= k < f.len() ==> !has_id(s, #[trigger] f[k].id),
        forall|x: i64|
            #[trigger] map2.contains_key(x) <==> map.contains_key(x) || exists|k: int|
                0 <= k < f.len() && f[k].id == x,
        forall|x: i64| #[trigger] map.contains_key(x) ==> map2[x] == map[x],
        forall|k: int| 0 <= k < f.len() ==> map2[#[trigger] f[k].id] == f[k],
    ensures
        unique_ids(appended(s, f)),
        map_matches(appended(s, f), map2),
{
    let l = layout(f);
    let x = if joins(s, f) {
        s.drop_last()
    } else {
        s
    };
    let t = appended(s, f);
    let n = x.len() as int;
    assert(t == x + l);
    lemma_layout_ids(f);
    lemma_layout_members(f);
    assert forall|i: int| 0 <= i < n implies x[i] == s[i] by {}
    assert forall|i: int| 0 <= i < t.len() implies t[i] == if i < n {
        x[i]
    } else {
        l[i - n]
    } by {}
    assert forall|i: int, j: int|
        0 <= i < t.len() && 0 <= j < t.len() && i != j && #[trigger] t[i] is Message
            && #[trigger] t[j] is Message implies t[i]->Message_0.id != t[j]->Message_0.id by {
        if i < n && j < n {
            assert(s[i] is Message && s[j] is Message);
        } else if i >= n && j >= n {
            assert(l[i - n] is Message && l[j - n] is Message);
        } else if i < n {
            assert(l[j - n] is Message);
            let k = choose|k: int| 0 <= k < f.len() && l[j - n]->Message_0 == #[trigger] f[k];
            assert(!has_id(s, f[k].id));
            assert(!is_message_with_id(s, i, f[k].id));
        } else {
            assert(l[i - n] is Message);
            let k = choose|k: int| 0 <= k < f.len() && l[i - n]->Message_0 == #[trigger] f[k];
            assert(!has_id(s, f[k].id));
            assert(!is_message_with_id(s, j, f[k].id));
        }
    }
    assert forall|i: int| 0 <= i < t.len() && #[trigger] t[i] is Message implies map2.contains_key(
        t[i]->Message_0.id,
    ) && map2[t[i]->Message_0.id] == t[i]->Message_0 by {
        if i < n {
            assert(s[i] is Message);
            assert(map.contains_key(s[i]->Message_0.id));
        } else {
            assert(l[i - n] is Message);
            let k = choose|k: int| 0 <= k < f.len() && l[i - n]->Message_0 == #[trigger] f[k];
            assert(map2.contains_key(f[k].id));
        }
    }
    assert forall|id: i64| #[trigger] map2.contains_key(id) implies has_id(t, id) by {
        if map.contains_key(id) {
            let j = choose|j: int| is_message_with_id(s, j, id);
            if j < n {
                assert(is_message_with_id(t, j, id));
            } else {
                assert(s[j] is DayDivider);
            }
        } else {
            let k = choose|k: int| 0 <= k < f.len() && f[k].id == id;
            let i = choose|i: int|
                0 <= i < l.len() && #[trigger] l[i] == ChatHistoryItem::Message(#[trigger] f[k]);
            assert(t[i + n] == l[i]);
            assert(is_message_with_id(t, i + n, id));
        }
    }
}

/// Two lists with messages and dividers at the same places and the same days
/// have their dividers equally well placed, and the same identifiers.
pub proof fn lemma_same_shape(s: Seq<ChatHistoryItem>, t: Seq<ChatHistoryItem>)
    requires
        days_well_placed(s),
        unique_ids(s),
        s.len() == t.len(),
        forall|i: int|
            0 <= i < s.len() ==> (#[trigger] t[i] is Message) == (s[i] is Message) && t[i].spec_day()
                == s[i].spec_day() && (t[i] is Message ==> t[i]->Message_0.id == s[i]->Message_0.id),
    ensures
        days_well_placed(t),
        unique_ids(t),
{
    assert forall|i: int| 0 <= i < t.len() && #[trigger] t[i] is DayDivider implies i > 0
        && t[i - 1] is Message && t[i - 1].spec_day() == t[i].spec_day() by {
        assert(s[i] is DayDivider);
        assert(t[i - 1] is Message == s[i - 1] is Message);
    }
    assert forall|i: int| 0 <= i < t.len() && #[trigger] t[i] is Message implies i + 1 < t.len()
        && (t[i + 1] is Message ==> t[i + 1].spec_day() == t[i].spec_day()) by {
        assert(s[i] is Message);
        if i + 1 < t.len() {
            assert(t[i + 1] is Message == s[i + 1] is Message);
        }
    }
    assert forall|i: int| 0 <= i && i + 1 < t.len() && #[trigger] t[i] is DayDivider implies t[i
        + 1] is Message && t[i + 1].spec_day() != t[i].spec_day() by {
        assert(s[i] is DayDivider);
        assert(t[i + 1] is Message == s[i + 1] is Message);
    }
    assert forall|i: int, j: int|
        0 <= i < t.len() && 0 <= j < t.len() && i != j && #[trigger] t[i] is Message
            && #[trigger] t[j] is Message implies t[i]->Message_0.id != t[j]->Message_0.id by {
        assert(s[i] is Message && s[j] is Message);
    }
}

} // verus!
