//! The Chrome native-messaging host: JSON-RPC dispatch, the store of
//! browser notifications, the broker's requests and the length-prefixed
//! message framing.

use vstd::prelude::*;
use std::collections::VecDeque;
use crate::json::{
    decimal, entries_view, items_view, jas_i64, jas_str, jas_str_opt, jas_u64, jget, jget_opt,
    lemma_entries_view, lemma_items_view, lookup_from, Json, JsonV,
};
use crate::text::{owned, str_eq};

verus! {

/// Most notifications the store keeps; older ones are dropped first.
pub const MAX_NATIVE_NOTIFICATIONS: usize = 512;

/// A member of a JSON object.
pub open spec fn member(key: Seq<char>, value: JsonV) -> (Seq<char>, JsonV) {
    (key, value)
}

fn entry(key: &str, value: Json) -> (r: (String, Json))
    ensures
        r.0@ == key@,
        r.1@ == value@,
{
    (owned(key), value)
}

fn text_value(s: &str) -> (r: Json)
    ensures
        r@ == JsonV::Str(s@),
{
    Json::Str(owned(s))
}

/// Whether a message is a reply (it has no `method`, and has a `result` or an `error`).
pub open spec fn is_reply(message: JsonV) -> bool {
    jget(message, "method"@) is None && (jget(message, "result"@) is Some || jget(
        message,
        "error"@,
    ) is Some)
}

/// The notification methods whose events are kept for the broker.
pub open spec fn is_recorded_method(method: Seq<char>) -> bool {
    method == "onCDPEvent"@ || method == "onDownloadChange"@
}

/// The reply to a `ping` request.
pub open spec fn pong_reply(id: JsonV) -> JsonV {
    JsonV::Object(
        seq![member("id"@, id), member("jsonrpc"@, JsonV::Str("2.0"@)), member("result"@, JsonV::Str("pong"@))],
    )
}

/// The JSON-RPC "method not found" error for a request.
pub open spec fn method_not_found_reply(id: JsonV, method: Seq<char>) -> JsonV {
    JsonV::Object(
        seq![
            member(
                "error"@,
                JsonV::Object(
                    seq![
                        member("code"@, JsonV::Number(-32601)),
                        member("message"@, JsonV::Str("No handler registered for method: "@ + method)),
                    ],
                ),
            ),
            member("id"@, id),
            member("jsonrpc"@, JsonV::Str("2.0"@)),
        ],
    )
}

/// The stored record of a notification.
pub open spec fn notification_record(method: Seq<char>, params: JsonV, received_at: int) -> JsonV {
    JsonV::Object(
        seq![
            member("method"@, JsonV::Str(method)),
            member("params"@, params),
            member("receivedAt"@, JsonV::Number(received_at)),
        ],
    )
}

/// The given parameters, or an empty object when there are none.
pub open spec fn params_or_empty(params: Option<JsonV>) -> JsonV {
    match params {
        Some(p) => p,
        None => JsonV::Object(Seq::empty()),
    }
}

pub open spec fn opt_view(j: Option<Json>) -> Option<JsonV> {
    match j {
        Some(x) => Some(x@),
        None => None,
    }
}

/// The store after one more notification: the newest at the end, and never
/// more than the cap.
pub open spec fn after_record(items: Seq<JsonV>, record: JsonV) -> Seq<JsonV> {
    let s = items.push(record);
    if s.len() > MAX_NATIVE_NOTIFICATIONS {
        s.skip(s.len() - MAX_NATIVE_NOTIFICATIONS)
    } else {
        s
    }
}

/// The notifications the native host keeps for the broker to poll.
pub struct NotificationStore {
    items: VecDeque<Json>,
}

impl View for NotificationStore {
    type V = Seq<JsonV>;

    closed spec fn view(&self) -> Seq<JsonV> {
        items_view(self.items@)
    }
}

impl NotificationStore {
    /// An empty store.
    pub fn new() -> (r: NotificationStore)
        ensures
            r@ == Seq::<JsonV>::empty(),
    {
        let r = NotificationStore { items: VecDeque::new() };
        proof {
            assert(items_view(r.items@) =~= Seq::<JsonV>::empty());
        }
        r
    }

    /// How many notifications are kept.
    pub fn len(&self) -> (n: usize)
        ensures
            n == self@.len(),
    {
        proof {
            lemma_items_view(self.items@);
        }
        self.items.len()
    }

    /// The notification at `i`, oldest first.
    pub fn get(&self, i: usize) -> (r: &Json)
        requires
            i < self@.len(),
        ensures
            r@ == self@[i as int],
    {
        proof {
            lemma_items_view(self.items@);
        }
        &self.items[i]
    }

    /// Stores a notification, dropping the oldest beyond the cap.
    pub fn record(&mut self, method: &str, params: Option<Json>, received_at: u64)
        ensures
            final(self)@ == after_record(
                old(self)@,
                notification_record(method@, params_or_empty(opt_view(params)), received_at as int),
            ),
    {
        let ghost optp: Option<JsonV> = match &params {
            Some(p) => Some(p@),
            None => None,
        };
        let ghost pv: JsonV = match &params {
            Some(p) => p@,
            None => JsonV::Object(Seq::empty()),
        };
        let params_value = match params {
            Some(p) => p,
            None => Json::Object(Vec::new()),
        };
        proof {
            if params is None {
                assert(items_view(Seq::<Json>::empty()) =~= Seq::<JsonV>::empty());
                assert(crate::json::entries_view(Seq::<(String, Json)>::empty()) =~= Seq::<(Seq<char>, JsonV)>::empty());
            }
            assert(params_value@ == pv);
        }
        let mut members: Vec<(String, Json)> = Vec::new();
        members.push(entry("method", text_value(method)));
        members.push(entry("params", params_value));
        members.push(entry("receivedAt", Json::Number(received_at as i128)));
        proof {
            crate::json::lemma_entries_view(members@);
            assert(crate::json::entries_view(members@) =~= seq![
                member("method"@, JsonV::Str(method@)),
                member("params"@, pv),
                member("receivedAt"@, JsonV::Number(received_at as int)),
            ]);
        }
        let rec = Json::Object(members);
        proof {
            let expect = JsonV::Object(seq![
                member("method"@, JsonV::Str(method@)),
                member("params"@, pv),
                member("receivedAt"@, JsonV::Number(received_at as int)),
            ]);
            assert(rec@ == expect);
            assert(pv == match optp {
                Some(p) => p,
                None => JsonV::Object(Seq::empty()),
            });
            assert(optp == opt_view(params));
            assert(notification_record(method@, params_or_empty(optp), received_at as int) == expect);
        }
        let ghost target = items_view(self.items@).push(rec@);
        proof {
            lemma_items_view(self.items@);
        }
        self.items.push_back(rec);
        proof {
            lemma_items_view(self.items@);
            assert forall|j: int| 0 <= j < self.items@.len() implies crate::json::json_view(
                #[trigger] self.items@[j],
            ) == target[target.len() - self.items@.len() + j] by {}
        }
        while self.items.len() > MAX_NATIVE_NOTIFICATIONS
            invariant
                target.len() >= self.items@.len(),
                self.items@.len() == target.len() || self.items@.len() >= MAX_NATIVE_NOTIFICATIONS,
                forall|j: int|
                    0 <= j < self.items@.len() ==> crate::json::json_view(#[trigger] self.items@[j])
                        == target[target.len() - self.items@.len() + j],
            decreases self.items.len(),
        {
            let ghost before = self.items@;
            self.items.pop_front();
            proof {
                assert forall|j: int| 0 <= j < self.items@.len() implies crate::json::json_view(
                    #[trigger] self.items@[j],
                ) == target[target.len() - self.items@.len() + j] by {
                    assert(self.items@[j] == before[j + 1]);
                }
            }
        }
        proof {
            lemma_items_view(self.items@);
            assert(items_view(self.items@) =~= target.skip(target.len() - self.items@.len()));
            if target.len() <= MAX_NATIVE_NOTIFICATIONS {
                assert(target.skip(0) =~= target);
            }
        }
    }
}

/// The reply the host sends to a message, if any: replies pass through;
/// requests (a `method` and an `id`) get `pong` for `ping` and a
/// "method not found" error otherwise; notifications (no `id`) get none.
pub open spec fn native_reply(message: JsonV) -> Option<JsonV> {
    if is_reply(message) {
        Some(message)
    } else {
        match jget(message, "method"@) {
            Some(m) => match jas_str(m) {
                Some(method) => match jget(message, "id"@) {
                    Some(id) => if method == "ping"@ {
                        Some(pong_reply(id))
                    } else {
                        Some(method_not_found_reply(id, method))
                    },
                    None => None,
                },
                None => None,
            },
            None => None,
        }
    }
}

/// The notification a message asks the host to keep, if any: a browser
/// event (`onCDPEvent` or `onDownloadChange`) sent without an `id`.
pub open spec fn recorded_notification(message: JsonV) -> Option<(Seq<char>, JsonV)> {
    if is_reply(message) {
        None
    } else {
        match jget(message, "method"@) {
            Some(m) => match jas_str(m) {
                Some(method) => if jget(message, "id"@) is None && is_recorded_method(method) {
                    Some((method, params_or_empty(jget(message, "params"@))))
                } else {
                    None
                },
                None => None,
            },
            None => None,
        }
    }
}

/// The contents of an optional store.
pub open spec fn store_view(store: Option<NotificationStore>) -> Option<Seq<JsonV>> {
    match store {
        Some(s) => Some(s@),
        None => None,
    }
}

/// The store after handling a message received at `received_at`.
pub open spec fn store_after(
    store: Option<Seq<JsonV>>,
    message: JsonV,
    received_at: int,
) -> Option<Seq<JsonV>> {
    match (store, recorded_notification(message)) {
        (Some(items), Some((method, params))) => Some(
            after_record(items, notification_record(method, params, received_at)),
        ),
        _ => store,
    }
}

/// Handles one message from Chrome received at `received_at` (milliseconds
/// since the Unix epoch): returns the reply to send, and keeps browser
/// events in `notifications` when there is a store.
pub fn handle_native_host_message(
    message: Json,
    notifications: &mut Option<NotificationStore>,
    received_at: u64,
) -> (r: Option<Json>)
    ensures
        opt_view(r) == native_reply(message@),
        store_view(*final(notifications)) == store_after(
            store_view(*old(notifications)),
            message@,
            received_at as int,
        ),
{
    let no_method = message.get("method").is_none();
    let has_result = message.get("result").is_some();
    let has_error = message.get("error").is_some();
    if no_method && (has_result || has_error) {
        return Some(message);
    }
    let method: String = match message.get("method") {
        Some(m) => match m.as_str() {
            Some(t) => t.clone(),
            None => {
                return None;
            },
        },
        None => {
            return None;
        },
    };
    match message.get("id") {
        None => {
            if str_eq(method.as_str(), "onCDPEvent") || str_eq(method.as_str(), "onDownloadChange") {
                let params = match message.get("params") {
                    Some(p) => Some(p.copy()),
                    None => None,
                };
                match notifications {
                    Some(store) => {
                        store.record(method.as_str(), params, received_at);
                    },
                    None => {},
                }
            }
            None
        },
        Some(id_ref) => {
            let id = id_ref.copy();
            if str_eq(method.as_str(), "ping") {
                let mut members: Vec<(String, Json)> = Vec::new();
                members.push(entry("id", id));
                members.push(entry("jsonrpc", text_value("2.0")));
                members.push(entry("result", text_value("pong")));
                proof {
                    crate::json::lemma_entries_view(members@);
                    assert(crate::json::entries_view(members@) =~= seq![
                        member("id"@, id@),
                        member("jsonrpc"@, JsonV::Str("2.0"@)),
                        member("result"@, JsonV::Str("pong"@)),
                    ]);
                }
                Some(Json::Object(members))
            } else {
                let mut text = owned("No handler registered for method: ");
                crate::text::append_str(&mut text, method.as_str());
                let mut err: Vec<(String, Json)> = Vec::new();
                err.push(entry("code", Json::Number(-32601)));
                err.push(entry("message", Json::Str(text)));
                proof {
                    crate::json::lemma_entries_view(err@);
                    assert(crate::json::entries_view(err@) =~= seq![
                        member("code"@, JsonV::Number(-32601)),
                        member("message"@, JsonV::Str("No handler registered for method: "@ + method@)),
                    ]);
                }
                let mut members: Vec<(String, Json)> = Vec::new();
                members.push(entry("error", Json::Object(err)));
                members.push(entry("id", id));
                members.push(entry("jsonrpc", text_value("2.0")));
                proof {
                    crate::json::lemma_entries_view(members@);
                    assert(crate::json::entries_view(members@) =~= seq![
                        member("error"@, JsonV::Object(seq![
                            member("code"@, JsonV::Number(-32601)),
                            member("message"@, JsonV::Str("No handler registered for method: "@ + method@)),
                        ])),
                        member("id"@, id@),
                        member("jsonrpc"@, JsonV::Str("2.0"@)),
                    ]);
                }
                Some(Json::Object(members))
            }
        },
    }
}

/// Whether a notification is one a poll asks for (any, or those of one method).
pub open spec fn matches_kind(item: JsonV, kind: Option<Seq<char>>) -> bool {
    match kind {
        None => true,
        Some(k) => match jget(item, "method"@) {
            Some(m) => jas_str(m) == Some(k),
            None => false,
        },
    }
}

/// A poll's split of the stored notifications, in order: the first `limit`
/// that match `kind` are handed out, the others stay.
pub open spec fn drain_split(items: Seq<JsonV>, kind: Option<Seq<char>>, limit: nat) -> (
    Seq<JsonV>,
    Seq<JsonV>,
)
    decreases items.len(),
{
    if items.len() == 0 {
        (Seq::empty(), Seq::empty())
    } else if matches_kind(items[0], kind) && limit > 0 {
        let r = drain_split(items.drop_first(), kind, (limit - 1) as nat);
        (seq![items[0]] + r.0, r.1)
    } else {
        let r = drain_split(items.drop_first(), kind, limit);
        (r.0, seq![items[0]] + r.1)
    }
}

/// How many notifications a poll asks for: its `limit`, 100 by default,
/// clamped to 1 ..= 512.
pub open spec fn poll_limit(params: JsonV) -> nat {
    let asked = match jget(params, "limit"@) {
        Some(l) => match jas_u64(l) {
            Some(n) => n,
            None => 100,
        },
        None => 100,
    };
    if asked < 1 {
        1
    } else if asked > MAX_NATIVE_NOTIFICATIONS {
        MAX_NATIVE_NOTIFICATIONS as nat
    } else {
        asked as nat
    }
}

/// The method a poll is restricted to, if any.
pub open spec fn poll_kind(params: JsonV) -> Option<Seq<char>> {
    match jget(params, "kind"@) {
        Some(k) => jas_str(k),
        None => None,
    }
}

/// The broker's answer to a poll.
pub open spec fn poll_response(drained: Seq<JsonV>) -> JsonV {
    JsonV::Object(
        seq![
            member("id"@, JsonV::Null),
            member("jsonrpc"@, JsonV::Str("2.0"@)),
            member("result"@, JsonV::Object(seq![member("notifications"@, JsonV::Array(drained))])),
        ],
    )
}

fn poll_limit_of(params: &Json) -> (r: usize)
    ensures
        r == poll_limit(params@),
        1 <= r <= MAX_NATIVE_NOTIFICATIONS,
{
    let asked: u64 = match params.get("limit") {
        Some(l) => match l.as_u64() {
            Some(n) => n,
            None => 100,
        },
        None => 100,
    };
    if asked < 1 {
        1
    } else if asked > MAX_NATIVE_NOTIFICATIONS as u64 {
        MAX_NATIVE_NOTIFICATIONS
    } else {
        asked as usize
    }
}

fn matches_kind_of(item: &Json, kind: &Option<String>) -> (r: bool)
    ensures
        r == matches_kind(item@, match kind {
            Some(k) => Some(k@),
            None => None,
        }),
{
    match kind {
        None => true,
        Some(k) => match item.get("method") {
            Some(m) => match m.as_str() {
                Some(t) => *t == *k,
                None => false,
            },
            None => false,
        },
    }
}

impl NotificationStore {
    /// Answers a broker client's poll: hands out the
    /// first `limit` stored notifications of the asked kind and keeps the rest.
    pub fn poll(&mut self, params: &Json) -> (r: Json)
        ensures
            final(self)@ == drain_split(old(self)@, poll_kind(params@), poll_limit(params@)).1,
            r@ == poll_response(drain_split(old(self)@, poll_kind(params@), poll_limit(params@)).0),
    {
        let limit = poll_limit_of(params);
        let kind: Option<String> = match params.get("kind") {
            Some(k) => match k.as_str() {
                Some(t) => Some(t.clone()),
                None => None,
            },
            None => None,
        };
        let ghost kv: Option<Seq<char>> = match &kind {
            Some(k) => Some(k@),
            None => None,
        };
        assert(kv == poll_kind(params@));
        let ghost items = self@;
        proof {
            lemma_items_view(self.items@);
        }
        let mut drained: Vec<Json> = Vec::new();
        let mut kept: VecDeque<Json> = VecDeque::new();
        let mut i: usize = 0;
        proof {
            assert(items.skip(0) =~= items);
            assert(items_view(drained@) =~= Seq::<JsonV>::empty());
            assert(items_view(kept@) =~= Seq::<JsonV>::empty());
        }
        while i < self.items.len()
            invariant
                i <= self.items.len(),
                items == items_view(self.items@),
                items.len() == self.items@.len(),
                forall|j: int| 0 <= j < items.len() ==> #[trigger] items[j] == crate::json::json_view(self.items@[j]),
                drained@.len() <= limit,
                kv == poll_kind(params@),
                kv == (match kind {
                    Some(k) => Some(k@),
                    None => None,
                }),
                limit == poll_limit(params@),
                drain_split(items, kv, limit as nat) == ({
                    let r = drain_split(items.skip(i as int), kv, (limit - drained@.len()) as nat);
                    (items_view(drained@) + r.0, items_view(kept@) + r.1)
                }),
            decreases self.items.len() - i,
        {
            let item = self.items[i].copy();
            let m = matches_kind_of(&item, &kind);
            let ghost rest = items.skip(i as int);
            proof {
                assert(rest[0] == items[i as int]);
                assert(rest.drop_first() =~= items.skip(i + 1));
                lemma_items_view(drained@);
                lemma_items_view(kept@);
            }
            let ghost budget = (limit - drained@.len()) as nat;
            let ghost x = items[i as int];
            assert(item@ == x);
            assert(rest.len() > 0);
            assert(m == matches_kind(rest[0], kv));
            if m && drained.len() < limit {
                let ghost before = drained@;
                drained.push(item);
                proof {
                    lemma_items_view(drained@);
                    lemma_items_view(before);
                    assert(items_view(drained@) =~= items_view(before) + seq![x]);
                    let r2 = drain_split(rest.drop_first(), kv, (budget - 1) as nat);
                    assert(drain_split(rest, kv, budget) == (seq![x] + r2.0, r2.1));
                    assert(items_view(before) + (seq![x] + r2.0) =~= items_view(drained@) + r2.0);
                }
            } else {
                let ghost before = kept@;
                kept.push_back(item);
                proof {
                    lemma_items_view(kept@);
                    lemma_items_view(before);
                    assert(items_view(kept@) =~= items_view(before) + seq![x]);
                    let r2 = drain_split(rest.drop_first(), kv, budget);
                    assert(drain_split(rest, kv, budget) == (r2.0, seq![x] + r2.1));
                    assert(items_view(before) + (seq![x] + r2.1) =~= items_view(kept@) + r2.1);
                }
            }
            i = i + 1;
        }
        proof {
            assert(items.skip(i as int) =~= Seq::<JsonV>::empty());
            assert(items_view(drained@) + Seq::<JsonV>::empty() =~= items_view(drained@));
            assert(items_view(kept@) + Seq::<JsonV>::empty() =~= items_view(kept@));
        }
        self.items = kept;
        let mut result: Vec<(String, Json)> = Vec::new();
        let ghost dv = items_view(drained@);
        result.push(entry("notifications", Json::Array(drained)));
        let mut members: Vec<(String, Json)> = Vec::new();
        members.push(entry("id", Json::Null));
        members.push(entry("jsonrpc", text_value("2.0")));
        proof {
            lemma_entries_view(result@);
            assert(entries_view(result@) =~= seq![member("notifications"@, JsonV::Array(dv))]);
        }
        members.push(entry("result", Json::Object(result)));
        proof {
            lemma_entries_view(members@);
            assert(entries_view(members@) =~= seq![
                member("id"@, JsonV::Null),
                member("jsonrpc"@, JsonV::Str("2.0"@)),
                member("result"@, JsonV::Object(seq![member("notifications"@, JsonV::Array(dv))])),
            ]);
        }
        Json::Object(members)
    }
}

/// Chrome's answers to the requests the broker forwarded go back unchanged:
/// a message without a method that carries a `result` or an `error` is
/// handed on as it is, and nothing is stored for it.
pub proof fn law_replies_pass_through(message: JsonV, store: Option<Seq<JsonV>>, received_at: int)
    requires
        jget(message, "method"@) is None,
        jget(message, "result"@) is Some || jget(message, "error"@) is Some,
    ensures
        native_reply(message) == Some(message),
        store_after(store, message, received_at) == store,
{
}

/// What a poll hands out, in order: the stored notifications of the asked
/// kind, oldest first as stored, cut to the limit.
pub open spec fn polled_in_order(items: Seq<JsonV>, kind: Option<Seq<char>>, limit: nat) -> Seq<JsonV> {
    let f = items.filter(|x: JsonV| matches_kind(x, kind));
    if f.len() <= limit {
        f
    } else {
        f.take(limit as int)
    }
}

proof fn lemma_filter_cons(x: JsonV, rest: Seq<JsonV>, pred: spec_fn(JsonV) -> bool)
    ensures
        (seq![x] + rest).filter(pred) == if pred(x) {
            seq![x] + rest.filter(pred)
        } else {
            rest.filter(pred)
        },
{
    Seq::filter_distributes_over_add(seq![x], rest, pred);
    reveal_with_fuel(Seq::filter, 2);
    assert(seq![x].drop_last() =~= Seq::<JsonV>::empty());
    if pred(x) {
        assert(seq![x].filter(pred) =~= seq![x]);
    } else {
        assert(seq![x].filter(pred) =~= Seq::<JsonV>::empty());
        assert(Seq::<JsonV>::empty() + rest.filter(pred) =~= rest.filter(pred));
    }
}

proof fn lemma_drain_is_filtered(items: Seq<JsonV>, kind: Option<Seq<char>>, limit: nat)
    ensures
        drain_split(items, kind, limit).0 == polled_in_order(items, kind, limit),
    decreases items.len(),
{
    let pred = |x: JsonV| matches_kind(x, kind);
    if items.len() == 0 {
        reveal(Seq::filter);
        assert(items.filter(pred) =~= Seq::<JsonV>::empty());
    } else {
        let x = items[0];
        let rest = items.drop_first();
        assert(items =~= seq![x] + rest);
        lemma_filter_cons(x, rest, pred);
        let fr = rest.filter(pred);
        if matches_kind(x, kind) && limit > 0 {
            lemma_drain_is_filtered(rest, kind, (limit - 1) as nat);
            assert(items.filter(pred) == seq![x] + fr);
            if fr.len() + 1 > limit {
                assert((seq![x] + fr).take(limit as int) =~= seq![x] + fr.take(limit - 1));
            }
        } else if matches_kind(x, kind) {
            lemma_drain_is_filtered(rest, kind, limit);
            assert(items.filter(pred) == seq![x] + fr);
            assert((seq![x] + fr).take(0) =~= Seq::<JsonV>::empty());
            assert(fr.take(0) =~= Seq::<JsonV>::empty());
        } else {
            lemma_drain_is_filtered(rest, kind, limit);
            assert(items.filter(pred) == fr);
        }
    }
}

/// A poll keeps the store's order: what it hands out is the stored
/// notifications of the asked kind, oldest first, the first `limit` of them;
/// with no kind and a limit that covers the store it is the whole store, in
/// order.
pub proof fn law_poll_keeps_order(items: Seq<JsonV>, kind: Option<Seq<char>>, limit: nat)
    ensures
        drain_split(items, kind, limit).0 == polled_in_order(items, kind, limit),
        kind is None && items.len() <= limit ==> drain_split(items, kind, limit).0 == items,
{
    lemma_drain_is_filtered(items, kind, limit);
    if kind is None && items.len() <= limit {
        let pred = |x: JsonV| matches_kind(x, kind);
        assert forall|i: int| 0 <= i < items.len() implies pred(#[trigger] items[i]) by {}
        lemma_filter_all(items, pred);
    }
}

/// Keeping the items a predicate holds of, when it holds of all of them,
/// keeps them all.
proof fn lemma_filter_all(s: Seq<JsonV>, pred: spec_fn(JsonV) -> bool)
    requires
        forall|i: int| 0 <= i < s.len() ==> pred(#[trigger] s[i]),
    ensures
        s.filter(pred) == s,
    decreases s.len(),
{
    reveal(Seq::filter);
    if s.len() > 0 {
        lemma_filter_all(s.drop_last(), pred);
        assert(s.drop_last().push(s.last()) =~= s);
    }
}

/// A poll hands out at most `limit` notifications, only ones of the asked
/// kind, and loses none: what it hands out and what stays are, together,
/// exactly the stored notifications.
pub proof fn law_poll_partitions_store(items: Seq<JsonV>, kind: Option<Seq<char>>, limit: nat)
    ensures
        drain_split(items, kind, limit).0.len() <= limit,
        forall|i: int|
            0 <= i < drain_split(items, kind, limit).0.len() ==> matches_kind(
                #[trigger] drain_split(items, kind, limit).0[i],
                kind,
            ),
        drain_split(items, kind, limit).0.to_multiset().add(
            drain_split(items, kind, limit).1.to_multiset(),
        ) =~= items.to_multiset(),
    decreases items.len(),
{
    broadcast use vstd::seq_lib::group_to_multiset_ensures;

    if items.len() > 0 {
        let x = items[0];
        let rest = items.drop_first();
        assert(items =~= seq![x] + rest);
        vstd::seq_lib::lemma_multiset_commutative(seq![x], rest);
        if matches_kind(x, kind) && limit > 0 {
            law_poll_partitions_store(rest, kind, (limit - 1) as nat);
            let r = drain_split(rest, kind, (limit - 1) as nat);
            vstd::seq_lib::lemma_multiset_commutative(seq![x], r.0);
            assert forall|i: int| 0 <= i < (seq![x] + r.0).len() implies matches_kind(
                #[trigger] (seq![x] + r.0)[i],
                kind,
            ) by {
                if i > 0 {
                    assert((seq![x] + r.0)[i] == r.0[i - 1]);
                }
            }
        } else {
            law_poll_partitions_store(rest, kind, limit);
            let r = drain_split(rest, kind, limit);
            vstd::seq_lib::lemma_multiset_commutative(seq![x], r.1);
        }
    }
}

/// The store never holds more than `MAX_NATIVE_NOTIFICATIONS` notifications,
/// and the one just recorded is the newest.
pub proof fn law_record_keeps_cap(items: Seq<JsonV>, record: JsonV)
    requires
        items.len() <= MAX_NATIVE_NOTIFICATIONS,
    ensures
        after_record(items, record).len() <= MAX_NATIVE_NOTIFICATIONS,
        after_record(items, record).last() == record,
        after_record(items, record).len() == if items.len() < MAX_NATIVE_NOTIFICATIONS {
            items.len() + 1
        } else {
            MAX_NATIVE_NOTIFICATIONS as nat
        },
{
}

/// Largest native message accepted from Chrome, in bytes.
pub const MAX_NATIVE_MESSAGE_BYTES: usize = 67108864;

/// The value of four bytes read as a little-endian `u32` (`u32::from_le_bytes`).
pub open spec fn le_u32(b: Seq<u8>) -> int {
    b[0] + 256 * b[1] + 65536 * b[2] + 16777216 * b[3]
}

/// The four little-endian bytes of `n`.
pub open spec fn le_bytes(n: int) -> Seq<u8> {
    seq![(n % 256) as u8, ((n / 256) % 256) as u8, ((n / 65536) % 256) as u8, ((n / 16777216) % 256) as u8]
}

/// A message as Chrome's native messaging frames it: its length as four
/// little-endian bytes, then its bytes.
pub open spec fn framed(payload: Seq<u8>) -> Seq<u8> {
    le_bytes(payload.len() as int) + payload
}

/// The text of the error for an oversized incoming message.
pub open spec fn too_large_error(length: int) -> Seq<char> {
    "Native message is too large: "@ + decimal(length) + " bytes exceeds "@ + decimal(
        MAX_NATIVE_MESSAGE_BYTES as int,
    )
}

/// The payload length announced by a message header, or the error for a
/// message over `MAX_NATIVE_MESSAGE_BYTES`.
pub fn native_message_length(header: &[u8; 4]) -> (r: Result<usize, String>)
    ensures
        r matches Ok(n) ==> n == le_u32(header@) && n <= MAX_NATIVE_MESSAGE_BYTES,
        r matches Err(e) ==> le_u32(header@) > MAX_NATIVE_MESSAGE_BYTES && e@ == too_large_error(
            le_u32(header@),
        ),
        r is Ok <==> le_u32(header@) <= MAX_NATIVE_MESSAGE_BYTES,
{
    let length: u64 = header[0] as u64 + 256 * (header[1] as u64) + 65536 * (header[2] as u64)
        + 16777216 * (header[3] as u64);
    if length > MAX_NATIVE_MESSAGE_BYTES as u64 {
        let mut e = owned("Native message is too large: ");
        crate::json::append_decimal(&mut e, length as i128);
        crate::text::append_str(&mut e, " bytes exceeds ");
        crate::json::append_decimal(&mut e, MAX_NATIVE_MESSAGE_BYTES as i128);
        Err(e)
    } else {
        Ok(length as usize)
    }
}

/// Frames a serialized message for Chrome, or the
/// error for a reply whose length does not fit in 32 bits.
pub fn frame_native_message(payload: &[u8]) -> (r: Result<Vec<u8>, String>)
    ensures
        r matches Ok(f) ==> f@ == framed(payload@),
        r matches Err(e) ==> e@ == "Native response is too large to send to Chrome."@,
        r is Ok <==> payload@.len() <= u32::MAX,
{
    let n = payload.len();
    if n > 4294967295usize {
        return Err(owned("Native response is too large to send to Chrome."));
    }
    let mut out: Vec<u8> = Vec::new();
    out.push((n % 256) as u8);
    out.push(((n / 256) % 256) as u8);
    out.push(((n / 65536) % 256) as u8);
    out.push(((n / 16777216) % 256) as u8);
    let mut i: usize = 0;
    while i < n
        invariant
            i <= n == payload@.len(),
            out@ == le_bytes(n as int) + payload@.take(i as int),
        decreases n - i,
    {
        out.push(payload[i]);
        i = i + 1;
        proof {
            assert(out@ =~= le_bytes(n as int) + payload@.take(i as int));
        }
    }
    proof {
        assert(payload@.take(n as int) =~= payload@);
    }
    Ok(out)
}

/// Reading back a framed message gives its length and bytes again.
pub proof fn law_frame_roundtrip(payload: Seq<u8>)
    requires
        payload.len() <= u32::MAX,
    ensures
        le_u32(framed(payload).take(4)) == payload.len(),
        framed(payload).skip(4) == payload,
{
    let n = payload.len() as int;
    let f = framed(payload);
    assert(f.take(4) =~= le_bytes(n));
    assert(f.skip(4) =~= payload);
    assert((n % 256) + 256 * ((n / 256) % 256) + 65536 * ((n / 65536) % 256) + 16777216 * ((n
        / 16777216) % 256) == n) by (nonlinear_arith)
        requires
            0 <= n <= u32::MAX,
    ;
}

/// The id under which a reply from Chrome answers a broker request: a reply
/// (no `method` and a `result`, or an `error`) with an integer `id`.
pub open spec fn pending_reply_id(response: JsonV) -> Option<int> {
    if (jget(response, "method"@) is None && jget(response, "result"@) is Some) || jget(
        response,
        "error"@,
    ) is Some {
        match jget(response, "id"@) {
            Some(id) => jas_i64(id),
            None => None,
        }
    } else {
        None
    }
}

/// The broker request id a message from Chrome answers, if any; such a
/// message goes to the waiting broker client instead of back to Chrome.
pub fn reply_id_for_pending(response: &Json) -> (r: Option<i64>)
    ensures
        match r {
            Some(id) => pending_reply_id(response@) == Some(id as int),
            None => pending_reply_id(response@) is None,
        },
{
    let no_method = response.get("method").is_none();
    let has_result = response.get("result").is_some();
    let has_error = response.get("error").is_some();
    if (no_method && has_result) || has_error {
        match response.get("id") {
            Some(id) => id.as_i64(),
            None => None,
        }
    } else {
        None
    }
}

/// The id of the first request the broker forwards to Chrome.
pub const BROKER_FIRST_REQUEST_ID: i64 = 10000;

/// The broker method that polls stored notifications instead of being forwarded.
pub open spec fn poll_method() -> Seq<char> {
    "__multiagent_poll_notifications"@
}

/// Whether a broker request is a notification poll.
pub fn is_notification_poll(method: &str) -> (r: bool)
    ensures
        r == (method@ == poll_method()),
{
    str_eq(method, "__multiagent_poll_notifications")
}

/// A broker client's request: its method, and its parameters (an empty
/// object when it has none); an error when it names no method.
pub open spec fn broker_request_parts(request: JsonV) -> Result<(Seq<char>, JsonV), Seq<char>> {
    match jget(request, "method"@) {
        Some(m) => match jas_str(m) {
            Some(method) => Ok((method, params_or_empty(jget(request, "params"@)))),
            None => Err("Broker request missing method."@),
        },
        None => Err("Broker request missing method."@),
    }
}

/// Reads the method and parameters of a broker client's request.
pub fn parse_broker_request(request: &Json) -> (r: Result<(String, Json), String>)
    ensures
        match r {
            Ok((m, p)) => broker_request_parts(request@) == Ok::<(Seq<char>, JsonV), Seq<char>>((m@, p@)),
            Err(e) => broker_request_parts(request@) == Err::<(Seq<char>, JsonV), Seq<char>>(e@),
        },
{
    let method = match request.get("method") {
        Some(m) => match m.as_str() {
            Some(t) => t.clone(),
            None => {
                return Err(owned("Broker request missing method."));
            },
        },
        None => {
            return Err(owned("Broker request missing method."));
        },
    };
    let params = match request.get("params") {
        Some(p) => p.copy(),
        None => {
            let e = Json::Object(Vec::new());
            proof {
                assert(entries_view(Seq::<(String, Json)>::empty()) =~= Seq::<(Seq<char>, JsonV)>::empty());
            }
            e
        },
    };
    Ok((method, params))
}

/// The request the broker forwards to Chrome.
pub open spec fn forwarded_request(id: int, method: Seq<char>, params: JsonV) -> JsonV {
    JsonV::Object(
        seq![
            member("id"@, JsonV::Number(id)),
            member("jsonrpc"@, JsonV::Str("2.0"@)),
            member("method"@, JsonV::Str(method)),
            member("params"@, params),
        ],
    )
}

/// Builds the request the broker forwards to Chrome under `id`.
pub fn broker_native_request(id: i64, method: &str, params: Json) -> (r: Json)
    ensures
        r@ == forwarded_request(id as int, method@, params@),
{
    let ghost pv = params@;
    let mut members: Vec<(String, Json)> = Vec::new();
    members.push(entry("id", Json::Number(id as i128)));
    members.push(entry("jsonrpc", text_value("2.0")));
    members.push(entry("method", text_value(method)));
    members.push(entry("params", params));
    proof {
        lemma_entries_view(members@);
        assert(entries_view(members@) =~= seq![
            member("id"@, JsonV::Number(id as int)),
            member("jsonrpc"@, JsonV::Str("2.0"@)),
            member("method"@, JsonV::Str(method@)),
            member("params"@, pv),
        ]);
    }
    Json::Object(members)
}

/// The answer a broker client gets when Chrome does not reply in time.
pub open spec fn timeout_reply(id: int) -> JsonV {
    JsonV::Object(
        seq![
            member(
                "error"@,
                JsonV::Object(
                    seq![
                        member("code"@, JsonV::Number(-32000)),
                        member("message"@, JsonV::Str("Timed out waiting for Chrome extension response"@)),
                    ],
                ),
            ),
            member("id"@, JsonV::Number(id)),
            member("jsonrpc"@, JsonV::Str("2.0"@)),
        ],
    )
}

/// Builds the timeout answer for the broker request `id`.
pub fn broker_timeout_response(id: i64) -> (r: Json)
    ensures
        r@ == timeout_reply(id as int),
{
    let mut err: Vec<(String, Json)> = Vec::new();
    err.push(entry("code", Json::Number(-32000)));
    err.push(entry("message", text_value("Timed out waiting for Chrome extension response")));
    proof {
        lemma_entries_view(err@);
        assert(entries_view(err@) =~= seq![
            member("code"@, JsonV::Number(-32000)),
            member("message"@, JsonV::Str("Timed out waiting for Chrome extension response"@)),
        ]);
    }
    let ghost ev = entries_view(err@);
    let mut members: Vec<(String, Json)> = Vec::new();
    members.push(entry("error", Json::Object(err)));
    members.push(entry("id", Json::Number(id as i128)));
    members.push(entry("jsonrpc", text_value("2.0")));
    proof {
        lemma_entries_view(members@);
        assert(entries_view(members@) =~= seq![
            member("error"@, JsonV::Object(ev)),
            member("id"@, JsonV::Number(id as int)),
            member("jsonrpc"@, JsonV::Str("2.0"@)),
        ]);
    }
    Json::Object(members)
}

/// Every request from Chrome (a message with a string `method` and an `id`,
/// not itself a reply) is answered under its own `id`: `pong` for `ping`,
/// the "method not found" error (code -32601) for anything else.
pub proof fn law_request_reply_carries_id(message: JsonV)
    requires
        !is_reply(message),
        jas_str_opt(jget(message, "method"@)) is Some,
        jget(message, "id"@) is Some,
    ensures
        native_reply(message) is Some,
        jget(native_reply(message)->0, "id"@) == jget(message, "id"@),
        jget(native_reply(message)->0, "jsonrpc"@) == Some(JsonV::Str("2.0"@)),
        jas_str_opt(jget(message, "method"@)) == Some("ping"@) ==> jget(
            native_reply(message)->0,
            "result"@,
        ) == Some(JsonV::Str("pong"@)),
        jas_str_opt(jget(message, "method"@)) != Some("ping"@) ==> jget_opt(
            jget(native_reply(message)->0, "error"@),
            "code"@,
        ) == Some(JsonV::Number(-32601)),
{
    reveal_strlit("id");
    reveal_strlit("jsonrpc");
    reveal_strlit("result");
    reveal_strlit("error");
    reveal_strlit("code");
    assert("id"@ != "jsonrpc"@ && "id"@ != "result"@ && "id"@ != "error"@) by {
        assert("id"@.len() == 2 && "jsonrpc"@.len() == 7 && "result"@.len() == 6 && "error"@.len() == 5);
    }
    assert("jsonrpc"@ != "result"@ && "jsonrpc"@ != "error"@ && "result"@ != "error"@) by {
        assert("jsonrpc"@.len() == 7 && "result"@.len() == 6 && "error"@.len() == 5);
    }
    let id = jget(message, "id"@)->0;
    let method = jas_str_opt(jget(message, "method"@))->0;
    if method == "ping"@ {
        let es = seq![member("id"@, id), member("jsonrpc"@, JsonV::Str("2.0"@)), member("result"@, JsonV::Str("pong"@))];
        assert(lookup_from(es, "id"@, 0) == Some(id));
        assert(lookup_from(es, "jsonrpc"@, 1) == Some(JsonV::Str("2.0"@)));
        assert(lookup_from(es, "jsonrpc"@, 0) == Some(JsonV::Str("2.0"@)));
        assert(lookup_from(es, "result"@, 2) == Some(JsonV::Str("pong"@)));
        assert(lookup_from(es, "result"@, 1) == Some(JsonV::Str("pong"@)));
        assert(lookup_from(es, "result"@, 0) == Some(JsonV::Str("pong"@)));
    } else {
        let err = JsonV::Object(
            seq![
                member("code"@, JsonV::Number(-32601)),
                member("message"@, JsonV::Str("No handler registered for method: "@ + method)),
            ],
        );
        let es = seq![member("error"@, err), member("id"@, id), member("jsonrpc"@, JsonV::Str("2.0"@))];
        assert(lookup_from(es, "id"@, 1) == Some(id));
        assert(lookup_from(es, "id"@, 0) == Some(id));
        assert(lookup_from(es, "jsonrpc"@, 2) == Some(JsonV::Str("2.0"@)));
        assert(lookup_from(es, "jsonrpc"@, 1) == Some(JsonV::Str("2.0"@)));
        assert(lookup_from(es, "jsonrpc"@, 0) == Some(JsonV::Str("2.0"@)));
        assert(lookup_from(es, "error"@, 0) == Some(err));
    }
}

} // verus!
