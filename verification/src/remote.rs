//! Remote mode over Discord DMs and Telegram bot chats: providers, API
//! addresses, message conversion, update processing and authentication codes.

use vstd::prelude::*;
use crate::chunk::{
    chunk_discord_message, chunk_telegram_plain_message, chunk_text, string_views,
    DISCORD_MESSAGE_LIMIT, TELEGRAM_MESSAGE_LIMIT,
};
use crate::json::{
    empty_array, jas_array, jas_bool, jas_i64, jas_str, jget, json_text, jstr, obj1, obj2, obj3,
    obj5, Json, JsonV,
};
use crate::text::{
    append_str, eq_ignore_ascii_case, eq_ignore_case, owned, parse_i64, parse_i64_str,
    replace_all, replace_str, strip_both, strip_leading, trim, trim_matches, trim_start_matches,
    trimmed,
};

verus! {

/// The chat service remote mode talks to.
#[derive(Clone, Copy, Debug, PartialEq, Eq, Structural)]
pub enum RemoteProvider {
    Discord,
    Telegram,
}

/// The provider a settings value names: Telegram for "telegram" in any
/// letter case and with surrounding whitespace, Discord otherwise.
pub open spec fn provider_named(name: Seq<char>) -> RemoteProvider {
    if eq_ignore_case(trim(name), "telegram"@) {
        RemoteProvider::Telegram
    } else {
        RemoteProvider::Discord
    }
}

/// The provider's display name.
pub open spec fn provider_label(p: RemoteProvider) -> Seq<char> {
    match p {
        RemoteProvider::Discord => "Discord"@,
        RemoteProvider::Telegram => "Telegram"@,
    }
}

impl RemoteProvider {
    /// The provider a settings value names.
    pub fn from_str(provider: &str) -> (r: RemoteProvider)
        ensures
            r == provider_named(provider@),
    {
        let t = trimmed(provider);
        if eq_ignore_ascii_case(t.as_str(), "telegram") {
            RemoteProvider::Telegram
        } else {
            RemoteProvider::Discord
        }
    }

    /// The provider's display name.
    pub fn label(self) -> (r: &'static str)
        ensures
            r@ == provider_label(self),
    {
        match self {
            RemoteProvider::Discord => "Discord",
            RemoteProvider::Telegram => "Telegram",
        }
    }
}

/// The Discord API address of a path.
pub open spec fn discord_url_of(path: Seq<char>) -> Seq<char> {
    "https://discord.com/api/v10/"@ + strip_leading(path, '/')
}

/// The Discord API address of `path` (leading slashes dropped).
pub fn discord_url(path: &str) -> (r: String)
    ensures
        r@ == discord_url_of(path@),
{
    let p = trim_start_matches(path, '/');
    let mut r = owned("https://discord.com/api/v10/");
    append_str(&mut r, p.as_str());
    r
}

/// The Telegram Bot API address of a method for a bot token.
pub open spec fn telegram_url_of(bot_token: Seq<char>, method: Seq<char>) -> Seq<char> {
    "https://api.telegram.org/bot"@ + trim(bot_token) + "/"@ + strip_leading(method, '/')
}

/// The Telegram Bot API address of `method` for `bot_token`.
pub fn telegram_url(bot_token: &str, method: &str) -> (r: String)
    ensures
        r@ == telegram_url_of(bot_token@, method@),
{
    let t = trimmed(bot_token);
    let m = trim_start_matches(method, '/');
    let mut r = owned("https://api.telegram.org/bot");
    append_str(&mut r, t.as_str());
    append_str(&mut r, "/");
    append_str(&mut r, m.as_str());
    r
}

/// Telegram's HTML message text as Discord markdown: bold and code tags
/// become markdown markers, the three entities are decoded and `<br>` breaks
/// the line, in that order.
pub open spec fn discord_text_of(input: Seq<char>) -> Seq<char> {
    let s1 = replace_all(input, "<b>"@, "**"@);
    let s2 = replace_all(s1, "</b>"@, "**"@);
    let s3 = replace_all(s2, "<code>"@, "`"@);
    let s4 = replace_all(s3, "</code>"@, "`"@);
    let s5 = replace_all(s4, "<pre>"@, "```"@);
    let s6 = replace_all(s5, "</pre>"@, "```"@);
    let s7 = replace_all(s6, "&lt;"@, "<"@);
    let s8 = replace_all(s7, "&gt;"@, ">"@);
    let s9 = replace_all(s8, "&amp;"@, "&"@);
    replace_all(s9, "<br>"@, "\n"@)
}

/// Converts Telegram-style HTML message text to Discord markdown.
pub fn discord_text_from_html(input: &str) -> (r: String)
    ensures
        r@ == discord_text_of(input@),
{
    proof {
        reveal_strlit("<b>");
        reveal_strlit("</b>");
        reveal_strlit("<code>");
        reveal_strlit("</code>");
        reveal_strlit("<pre>");
        reveal_strlit("</pre>");
        reveal_strlit("&lt;");
        reveal_strlit("&gt;");
        reveal_strlit("&amp;");
        reveal_strlit("<br>");
    }
    let s1 = replace_str(input, "<b>", "**");
    let s2 = replace_str(s1.as_str(), "</b>", "**");
    let s3 = replace_str(s2.as_str(), "<code>", "`");
    let s4 = replace_str(s3.as_str(), "</code>", "`");
    let s5 = replace_str(s4.as_str(), "<pre>", "```");
    let s6 = replace_str(s5.as_str(), "</pre>", "```");
    let s7 = replace_str(s6.as_str(), "&lt;", "<");
    let s8 = replace_str(s7.as_str(), "&gt;", ">");
    let s9 = replace_str(s8.as_str(), "&amp;", "&");
    replace_str(s9.as_str(), "<br>", "\n")
}

/// The id of a message the provider created, from its API response: the
/// Discord message's `id` string as an integer, or Telegram's
/// `result.message_id`.
pub open spec fn message_id_of(provider: RemoteProvider, value: JsonV) -> Option<int> {
    match provider {
        RemoteProvider::Discord => match jget(value, "id"@) {
            Some(id) => match jas_str(id) {
                Some(t) => parse_i64(t),
                None => None,
            },
            None => None,
        },
        RemoteProvider::Telegram => match jget(value, "result"@) {
            Some(result) => match jget(result, "message_id"@) {
                Some(m) => jas_i64(m),
                None => None,
            },
            None => None,
        },
    }
}

/// The id of the message a create-message response describes.
pub fn message_id_from_response(provider: RemoteProvider, value: &Json) -> (r: Option<i64>)
    ensures
        match r {
            Some(n) => message_id_of(provider, value@) == Some(n as int),
            None => message_id_of(provider, value@) is None,
        },
{
    match provider {
        RemoteProvider::Discord => match value.get("id") {
            Some(id) => match id.as_str() {
                Some(t) => parse_i64_str(t.as_str()),
                None => None,
            },
            None => None,
        },
        RemoteProvider::Telegram => match value.get("result") {
            Some(result) => match result.get("message_id") {
                Some(m) => m.as_i64(),
                None => None,
            },
            None => None,
        },
    }
}

/// The byte limit of one message for a provider.
pub open spec fn provider_limit(provider: RemoteProvider) -> nat {
    match provider {
        RemoteProvider::Discord => DISCORD_MESSAGE_LIMIT as nat,
        RemoteProvider::Telegram => TELEGRAM_MESSAGE_LIMIT as nat,
    }
}

/// The pieces a message is sent in for a provider.
pub fn chunk_message_for_provider(provider: RemoteProvider, text: &str) -> (r: Vec<String>)
    requires
        chunk_text(text@, provider_limit(provider)) is Some,
    ensures
        chunk_text(text@, provider_limit(provider)) == Some(string_views(r@)),
{
    match provider {
        RemoteProvider::Discord => chunk_discord_message(text),
        RemoteProvider::Telegram => chunk_telegram_plain_message(text),
    }
}

/// The error text for a failed Discord request: the default message, followed
/// by the response's trimmed `message` when there is a non-empty one.
pub open spec fn discord_error_of(value: JsonV, default_message: Seq<char>) -> Seq<char> {
    let message = match jget(value, "message"@) {
        Some(m) => match jas_str(m) {
            Some(t) => trim(t),
            None => Seq::empty(),
        },
        None => Seq::empty(),
    };
    if message.len() == 0 {
        default_message
    } else {
        default_message + ": "@ + message
    }
}

/// The error text for a failed Discord request.
pub fn discord_error_from_response(value: &Json, default_message: &str) -> (r: String)
    ensures
        r@ == discord_error_of(value@, default_message@),
{
    let message: String = match value.get("message") {
        Some(m) => match m.as_str() {
            Some(t) => trimmed(t.as_str()),
            None => String::new(),
        },
        None => String::new(),
    };
    if message.as_str().is_empty() {
        owned(default_message)
    } else {
        let mut r = owned(default_message);
        append_str(&mut r, ": ");
        append_str(&mut r, message.as_str());
        r
    }
}

/// The chat and user that sent a valid authentication code.
#[derive(Clone, Debug)]
pub struct TelegramAuthMatch {
    pub chat_id: String,
    pub user_id: String,
    pub username: Option<String>,
}

/// The plain values of an authentication match: chat id, user id, username.
pub open spec fn match_view(m: TelegramAuthMatch) -> (Seq<char>, Seq<char>, Option<Seq<char>>) {
    (m.chat_id@, m.user_id@, match m.username {
        Some(u) => Some(u@),
        None => None,
    })
}

/// An id as text: the JSON text of the value with surrounding double quotes
/// removed, so that the string "42" and the number 42 both read as `42`.
pub open spec fn id_text(v: JsonV) -> Seq<char> {
    strip_both(json_text(v), '"')
}

/// The sender of an update whose message text, trimmed, is the expected code.
pub open spec fn auth_match_of(update: JsonV, expected_code: Seq<char>) -> Option<
    (Seq<char>, Seq<char>, Option<Seq<char>>),
> {
    match jget(update, "message"@) {
        Some(message) => match jget(message, "text"@) {
            Some(tv) => match jas_str(tv) {
                Some(text) => if trim(text) != expected_code {
                    None
                } else {
                    match (jget(message, "chat"@), jget(message, "from"@)) {
                        (Some(chat), Some(from)) => match (jget(chat, "id"@), jget(from, "id"@)) {
                            (Some(cid), Some(uid)) => Some(
                                (id_text(cid), id_text(uid), match jget(from, "username"@) {
                                    Some(u) => jas_str(u),
                                    None => None,
                                }),
                            ),
                            _ => None,
                        },
                        _ => None,
                    }
                },
                None => None,
            },
            None => None,
        },
        None => None,
    }
}

fn id_text_of(v: &Json) -> (r: String)
    ensures
        r@ == id_text(v@),
{
    let t = v.to_compact();
    trim_matches(t.as_str(), '"')
}

/// The sender of `update` if its message is the expected code.
pub fn extract_auth_match(update: &Json, expected_code: &str) -> (r: Option<TelegramAuthMatch>)
    ensures
        match r {
            Some(m) => auth_match_of(update@, expected_code@) == Some(match_view(m)),
            None => auth_match_of(update@, expected_code@) is None,
        },
{
    let message = match update.get("message") {
        Some(m) => m,
        None => {
            return None;
        },
    };
    let text = match message.get("text") {
        Some(tv) => match tv.as_str() {
            Some(t) => trimmed(t.as_str()),
            None => {
                return None;
            },
        },
        None => {
            return None;
        },
    };
    let expected = owned(expected_code);
    if !(text == expected) {
        return None;
    }
    let chat = match message.get("chat") {
        Some(c) => c,
        None => {
            return None;
        },
    };
    let from = match message.get("from") {
        Some(f) => f,
        None => {
            return None;
        },
    };
    let chat_id = match chat.get("id") {
        Some(c) => id_text_of(c),
        None => {
            return None;
        },
    };
    let user_id = match from.get("id") {
        Some(u) => id_text_of(u),
        None => {
            return None;
        },
    };
    let username: Option<String> = match from.get("username") {
        Some(u) => match u.as_str() {
            Some(t) => Some(t.clone()),
            None => None,
        },
        None => None,
    };
    Some(TelegramAuthMatch { chat_id, user_id, username })
}

/// Whether a value's `author.bot` is `true`.
pub open spec fn authored_by_bot(message: JsonV) -> bool {
    match jget(message, "author"@) {
        Some(a) => match jget(a, "bot"@) {
            Some(b) => jas_bool(b) == Some(true),
            None => false,
        },
        None => false,
    }
}

/// A string member as text, or the empty text.
pub open spec fn str_or_empty(v: Option<JsonV>) -> Seq<char> {
    match v {
        Some(x) => match jas_str(x) {
            Some(t) => t,
            None => Seq::empty(),
        },
        None => Seq::empty(),
    }
}

/// A Discord message in the shape of a Telegram update, so that one poll
/// loop serves both providers.
pub open spec fn discord_update_of(channel_id: Seq<char>, message: JsonV, message_id: int) -> JsonV {
    let author = match jget(message, "author"@) {
        Some(a) => a,
        None => JsonV::Null,
    };
    let author_id = str_or_empty(jget(author, "id"@));
    let username = str_or_empty(
        match jget(author, "global_name"@) {
            Some(g) => Some(g),
            None => jget(author, "username"@),
        },
    );
    let content = str_or_empty(jget(message, "content"@));
    let reply = match jget(message, "referenced_message"@) {
        Some(r) => match jget(r, "id"@) {
            Some(i) => match jas_str(i) {
                Some(t) => match parse_i64(t) {
                    Some(n) => JsonV::Object(seq![("message_id"@, JsonV::Number(n))]),
                    None => JsonV::Null,
                },
                None => JsonV::Null,
            },
            None => JsonV::Null,
        },
        None => JsonV::Null,
    };
    JsonV::Object(
        seq![
            (
                "message"@,
                JsonV::Object(
                    seq![
                        ("chat"@, JsonV::Object(seq![("id"@, JsonV::Str(channel_id))])),
                        (
                            "from"@,
                            JsonV::Object(
                                seq![
                                    ("id"@, JsonV::Str(author_id)),
                                    ("is_bot"@, JsonV::Bool(false)),
                                    ("username"@, JsonV::Str(username)),
                                ],
                            ),
                        ),
                        ("message_id"@, JsonV::Number(message_id)),
                        ("reply_to_message"@, reply),
                        ("text"@, JsonV::Str(content)),
                    ],
                ),
            ),
            ("update_id"@, JsonV::Number(message_id)),
        ],
    )
}

/// A text a JSON string holds as it is: no quote, no backslash and no
/// control character.
pub open spec fn plain_text(s: Seq<char>) -> bool {
    forall|i: int| 0 <= i < s.len() ==> s[i] != '"' && s[i] != '\\' && (s[i] as u32) >= 0x20
}

proof fn lemma_plain_escapes_to_itself(s: Seq<char>)
    requires
        plain_text(s),
    ensures
        crate::json::json_escaped(s) == s,
    decreases s.len(),
{
    if s.len() > 0 {
        lemma_plain_escapes_to_itself(s.drop_last());
        assert(s.drop_last() + seq![s.last()] =~= s);
    }
}

/// The id a plain string value gives is the string itself.
proof fn lemma_plain_id_text(s: Seq<char>)
    requires
        plain_text(s),
    ensures
        id_text(JsonV::Str(s)) == s,
{
    lemma_plain_escapes_to_itself(s);
    reveal_with_fuel(crate::text::strip_leading, 3);
    let q = seq!['"'] + s + seq!['"'];
    assert(q[0] == '"');
    assert(json_text(JsonV::Str(s)) == q);
    assert(q.drop_first() =~= s + seq!['"']);
    if s.len() > 0 {
        assert((s + seq!['"'])[0] == s[0]);
        assert(s[0] != '"');
        assert(crate::text::strip_leading(s + seq!['"'], '"') == s + seq!['"']);
        assert(crate::text::strip_leading(q, '"') == s + seq!['"']);
        assert((s + seq!['"']).drop_last() =~= s);
        assert(crate::text::strip_trailing(s + seq!['"'], '"') == crate::text::strip_trailing(s, '"'));
        assert(s.last() == s[s.len() - 1]);
        assert(crate::text::strip_trailing(s, '"') == s);
    } else {
        assert(q =~= seq!['"', '"']);
        assert(q.drop_first().drop_first() =~= Seq::<char>::empty());
        assert(crate::text::strip_leading(q, '"') == Seq::<char>::empty());
        assert(crate::text::strip_trailing(Seq::<char>::empty(), '"') == Seq::<char>::empty());
        assert(s =~= Seq::<char>::empty());
    }
}

/// A Discord message, turned into an update, gives back its sender to the
/// authentication: with its content as the code the match is the channel,
/// the author's id and the author's username (for plain ids and an author
/// without a display name); with any other code there is no match.
pub proof fn law_discord_message_round_trips(
    channel_id: Seq<char>,
    message: JsonV,
    author: JsonV,
    author_id: Seq<char>,
    username: Seq<char>,
    content: Seq<char>,
    message_id: int,
    code: Seq<char>,
)
    requires
        plain_text(channel_id),
        plain_text(author_id),
        jget(message, "author"@) == Some(author),
        jget(author, "id"@) == Some(JsonV::Str(author_id)),
        jget(author, "global_name"@) is None,
        jget(author, "username"@) == Some(JsonV::Str(username)),
        jget(message, "content"@) == Some(JsonV::Str(content)),
    ensures
        auth_match_of(discord_update_of(channel_id, message, message_id), trim(content)) == Some(
            (channel_id, author_id, Some(username)),
        ),
        code != trim(content) ==> auth_match_of(discord_update_of(channel_id, message, message_id), code)
            is None,
{
    reveal_strlit("message");
    reveal_strlit("update_id");
    reveal_strlit("chat");
    reveal_strlit("from");
    reveal_strlit("message_id");
    reveal_strlit("reply_to_message");
    reveal_strlit("text");
    reveal_strlit("id");
    reveal_strlit("is_bot");
    reveal_strlit("username");
    reveal_with_fuel(crate::json::lookup_from, 6);
    lemma_plain_id_text(channel_id);
    lemma_plain_id_text(author_id);
    let u = discord_update_of(channel_id, message, message_id);
    let m = jget(u, "message"@)->0;
    assert("chat"@[0] != "text"@[0]);
    assert("from"@[0] != "text"@[0]);
    assert("message_id"@.len() != "text"@.len());
    assert("reply_to_message"@.len() != "text"@.len());
    assert(jget(m, "text"@) == Some(JsonV::Str(content)));
    assert(jget(m, "chat"@) == Some(JsonV::Object(seq![("id"@, JsonV::Str(channel_id))])));
    let from = jget(m, "from"@)->0;
    assert(jget(from, "id"@) == Some(JsonV::Str(author_id)));
    assert("id"@.len() != "username"@.len());
    assert("is_bot"@.len() != "username"@.len());
    assert(jget(from, "username"@) == Some(JsonV::Str(username)));
}

fn str_member_or_empty(v: Option<&Json>) -> (r: String)
    ensures
        r@ == str_or_empty(match v {
            Some(x) => Some(x@),
            None => None,
        }),
{
    match v {
        Some(x) => match x.as_str() {
            Some(t) => t.clone(),
            None => String::new(),
        },
        None => String::new(),
    }
}

/// Converts a Discord message to the update shape the poll loop reads.
pub fn discord_message_to_update(channel_id: &str, message: &Json, message_id: i64) -> (r: Json)
    ensures
        r@ == discord_update_of(channel_id@, message@, message_id as int),
{
    let null = Json::Null;
    let author: &Json = match message.get("author") {
        Some(a) => a,
        None => &null,
    };
    let author_id = str_member_or_empty(author.get("id"));
    let name_value: Option<&Json> = match author.get("global_name") {
        Some(g) => Some(g),
        None => author.get("username"),
    };
    let username = str_member_or_empty(name_value);
    let content = str_member_or_empty(message.get("content"));
    let reply: Json = match message.get("referenced_message") {
        Some(r) => match r.get("id") {
            Some(i) => match i.as_str() {
                Some(t) => match parse_i64_str(t.as_str()) {
                    Some(n) => obj1("message_id", Json::Number(n as i128)),
                    None => Json::Null,
                },
                None => Json::Null,
            },
            None => Json::Null,
        },
        None => Json::Null,
    };
    let chat = obj1("id", jstr(channel_id));
    let from = obj3("id", Json::Str(author_id), "is_bot", Json::Bool(false), "username", Json::Str(username));
    let inner = obj5(
        "chat",
        chat,
        "from",
        from,
        "message_id",
        Json::Number(message_id as i128),
        "reply_to_message",
        reply,
        "text",
        Json::Str(content),
    );
    obj2("message", inner, "update_id", Json::Number(message_id as i128))
}

/// The larger of two optional values (`None` when both are absent).
pub open spec fn opt_max(a: Option<int>, b: Option<int>) -> Option<int> {
    match (a, b) {
        (Some(x), Some(y)) => Some(if x >= y {
            x
        } else {
            y
        }),
        (Some(x), None) => Some(x),
        (None, y) => y,
    }
}

/// `i64::saturating_add(1)`.
pub open spec fn sat_inc(n: int) -> int {
    if n >= i64::MAX {
        i64::MAX as int
    } else {
        n + 1
    }
}

pub open spec fn opt_sat_inc(a: Option<int>) -> Option<int> {
    match a {
        Some(n) => Some(sat_inc(n)),
        None => None,
    }
}

/// A Discord message's id: its `id` string as an integer.
pub open spec fn discord_message_id(message: JsonV) -> Option<int> {
    match jget(message, "id"@) {
        Some(i) => match jas_str(i) {
            Some(t) => parse_i64(t),
            None => None,
        },
        None => None,
    }
}

/// The largest message id among `messages`.
pub open spec fn discord_ids_max(messages: Seq<JsonV>) -> Option<int>
    decreases messages.len(),
{
    if messages.len() == 0 {
        None
    } else {
        opt_max(discord_ids_max(messages.drop_first()), discord_message_id(messages[0]))
    }
}

/// The updates of a page of Discord messages (newest first, as the API lists
/// them), oldest first: messages without an id and messages by bots are left out.
pub open spec fn discord_updates_of(channel_id: Seq<char>, messages: Seq<JsonV>) -> Seq<JsonV>
    decreases messages.len(),
{
    if messages.len() == 0 {
        Seq::empty()
    } else {
        let m = messages[0];
        let here = match discord_message_id(m) {
            Some(id) => if authored_by_bot(m) {
                Seq::empty()
            } else {
                seq![discord_update_of(channel_id, m, id)]
            },
            None => Seq::empty(),
        };
        discord_updates_of(channel_id, messages.drop_first()) + here
    }
}

/// What a poll of the Discord DM channel yields: the offset for the next
/// poll (one past the largest message id seen) and the new updates; the
/// first poll, without an offset, only finds where to start.
pub open spec fn discord_poll_of(channel_id: Seq<char>, offset: Option<int>, value: JsonV) -> Result<
    (Option<int>, Seq<JsonV>),
    Seq<char>,
> {
    match jas_array(value) {
        None => Err("Discord messages response was not an array."@),
        Some(messages) => match offset {
            None => Ok((opt_sat_inc(discord_ids_max(messages)), Seq::empty())),
            Some(o) => Ok(
                (
                    opt_sat_inc(opt_max(Some(o), discord_ids_max(messages))),
                    discord_updates_of(channel_id, messages),
                ),
            ),
        },
    }
}

/// The `update_id` of an update, when it is a number.
pub open spec fn numeric_update_id(u: JsonV) -> Option<int> {
    match jget(u, "update_id"@) {
        Some(JsonV::Number(n)) => Some(n),
        _ => None,
    }
}

proof fn lemma_discord_update_id(channel_id: Seq<char>, message: JsonV, id: int)
    ensures
        numeric_update_id(discord_update_of(channel_id, message, id)) == Some(id),
{
    reveal_strlit("message");
    reveal_strlit("update_id");
    reveal_with_fuel(crate::json::lookup_from, 3);
    assert("message"@.len() != "update_id"@.len());
}

/// Each update of a page carries the id of one of the page's messages.
proof fn lemma_discord_updates_from_messages(channel_id: Seq<char>, messages: Seq<JsonV>)
    ensures
        forall|k: int|
            0 <= k < discord_updates_of(channel_id, messages).len() ==> exists|i: int|
                0 <= i < messages.len() && discord_message_id(#[trigger] messages[i]) is Some
                    && numeric_update_id(#[trigger] discord_updates_of(channel_id, messages)[k])
                    == discord_message_id(messages[i]),
    decreases messages.len(),
{
    if messages.len() > 0 {
        let rest = messages.drop_first();
        lemma_discord_updates_from_messages(channel_id, rest);
        let r = discord_updates_of(channel_id, rest);
        let all = discord_updates_of(channel_id, messages);
        let m = messages[0];
        assert forall|k: int| 0 <= k < all.len() implies exists|i: int|
            0 <= i < messages.len() && discord_message_id(#[trigger] messages[i]) is Some
                && numeric_update_id(#[trigger] all[k]) == discord_message_id(messages[i]) by {
            if k < r.len() {
                assert(all[k] == r[k]);
                let i = choose|i: int|
                    0 <= i < rest.len() && discord_message_id(#[trigger] rest[i]) is Some
                        && numeric_update_id(#[trigger] r[k]) == discord_message_id(rest[i]);
                assert(messages[i + 1] == rest[i]);
            } else {
                let id = discord_message_id(m)->0;
                lemma_discord_update_id(channel_id, m, id);
                assert(all[k] == discord_update_of(channel_id, m, id));
                assert(messages[0] == m);
            }
        }
    }
}

/// Updates come out oldest first: for a page listed newest first, as the
/// Discord API lists messages (ids decreasing), the updates a poll yields
/// carry strictly increasing `update_id`s.
pub proof fn law_discord_updates_oldest_first(channel_id: Seq<char>, offset: int, value: JsonV, messages: Seq<JsonV>)
    requires
        jas_array(value) == Some(messages),
        forall|i: int, j: int|
            0 <= i < j < messages.len() && discord_message_id(messages[i]) is Some && discord_message_id(
                messages[j],
            ) is Some ==> discord_message_id(#[trigger] messages[i])->0 > discord_message_id(
                #[trigger] messages[j],
            )->0,
    ensures
        discord_poll_of(channel_id, Some(offset), value) matches Ok((_, us)) && forall|a: int, b: int|
            0 <= a < b < us.len() ==> numeric_update_id(#[trigger] us[a]) is Some && numeric_update_id(#[trigger] us[b])
                is Some && numeric_update_id(us[a])->0 < numeric_update_id(us[b])->0,
{
    lemma_discord_updates_increase(channel_id, messages);
}

proof fn lemma_discord_updates_increase(channel_id: Seq<char>, messages: Seq<JsonV>)
    requires
        forall|i: int, j: int|
            0 <= i < j < messages.len() && discord_message_id(messages[i]) is Some && discord_message_id(
                messages[j],
            ) is Some ==> discord_message_id(#[trigger] messages[i])->0 > discord_message_id(
                #[trigger] messages[j],
            )->0,
    ensures
        forall|a: int, b: int|
            0 <= a < b < discord_updates_of(channel_id, messages).len() ==> numeric_update_id(
                #[trigger] discord_updates_of(channel_id, messages)[a],
            ) is Some && numeric_update_id(#[trigger] discord_updates_of(channel_id, messages)[b]) is Some
                && numeric_update_id(discord_updates_of(channel_id, messages)[a])->0 < numeric_update_id(
                discord_updates_of(channel_id, messages)[b],
            )->0,
    decreases messages.len(),
{
    if messages.len() > 0 {
        let rest = messages.drop_first();
        assert forall|i: int, j: int|
            0 <= i < j < rest.len() && discord_message_id(rest[i]) is Some && discord_message_id(rest[j]) is Some
            implies discord_message_id(#[trigger] rest[i])->0 > discord_message_id(#[trigger] rest[j])->0 by {
            assert(rest[i] == messages[i + 1] && rest[j] == messages[j + 1]);
        }
        lemma_discord_updates_increase(channel_id, rest);
        lemma_discord_updates_from_messages(channel_id, rest);
        let r = discord_updates_of(channel_id, rest);
        let all = discord_updates_of(channel_id, messages);
        let m = messages[0];
        assert forall|a: int, b: int| 0 <= a < b < all.len() implies numeric_update_id(#[trigger] all[a]) is Some
            && numeric_update_id(#[trigger] all[b]) is Some && numeric_update_id(all[a])->0 < numeric_update_id(all[b])->0 by {
            if b < r.len() {
                assert(all[a] == r[a] && all[b] == r[b]);
            } else {
                let id = discord_message_id(m)->0;
                lemma_discord_update_id(channel_id, m, id);
                assert(all[b] == discord_update_of(channel_id, m, id));
                assert(all[a] == r[a]);
                let i = choose|i: int|
                    0 <= i < rest.len() && discord_message_id(#[trigger] rest[i]) is Some
                        && numeric_update_id(#[trigger] r[a]) == discord_message_id(rest[i]);
                assert(messages[i + 1] == rest[i]);
                assert(messages[0] == m);
            }
        }
    }
}

/// The plain values of a poll result.
pub open spec fn poll_result_view(r: Result<(Option<i64>, Vec<Json>), String>) -> Result<
    (Option<int>, Seq<JsonV>),
    Seq<char>,
> {
    match r {
        Ok((o, v)) => Ok(
            (
                match o {
                    Some(n) => Some(n as int),
                    None => None,
                },
                crate::json::items_view(v@),
            ),
        ),
        Err(e) => Err(e@),
    }
}

fn max_i64(a: Option<i64>, b: Option<i64>) -> (r: Option<i64>)
    ensures
        match r {
            Some(n) => opt_max(
                match a {
                    Some(x) => Some(x as int),
                    None => None,
                },
                match b {
                    Some(x) => Some(x as int),
                    None => None,
                },
            ) == Some(n as int),
            None => opt_max(
                match a {
                    Some(x) => Some(x as int),
                    None => None,
                },
                match b {
                    Some(x) => Some(x as int),
                    None => None,
                },
            ) is None,
        },
{
    match (a, b) {
        (Some(x), Some(y)) => Some(if x >= y {
            x
        } else {
            y
        }),
        (Some(x), None) => Some(x),
        (None, y) => y,
    }
}

fn sat_inc_opt(a: Option<i64>) -> (r: Option<i64>)
    ensures
        match r {
            Some(n) => opt_sat_inc(
                match a {
                    Some(x) => Some(x as int),
                    None => None,
                },
            ) == Some(n as int),
            None => a is None,
        },
{
    match a {
        Some(n) => Some(if n == i64::MAX {
            n
        } else {
            n + 1
        }),
        None => None,
    }
}

fn discord_id_of(message: &Json) -> (r: Option<i64>)
    ensures
        match r {
            Some(n) => discord_message_id(message@) == Some(n as int),
            None => discord_message_id(message@) is None,
        },
{
    match message.get("id") {
        Some(i) => match i.as_str() {
            Some(t) => parse_i64_str(t.as_str()),
            None => None,
        },
        None => None,
    }
}

fn by_bot(message: &Json) -> (r: bool)
    ensures
        r == authored_by_bot(message@),
{
    match message.get("author") {
        Some(a) => match a.get("bot") {
            Some(b) => match b.as_bool() {
                Some(v) => v,
                None => false,
            },
            None => false,
        },
        None => false,
    }
}

/// Reads a page of Discord DM messages (the answer to a Discord poll).
#[verifier::loop_isolation(false)]
pub fn discord_updates_from_response(channel_id: &str, offset: Option<i64>, value: &Json) -> (r:
    Result<(Option<i64>, Vec<Json>), String>)
    ensures
        poll_result_view(r) == discord_poll_of(
            channel_id@,
            match offset {
                Some(o) => Some(o as int),
                None => None,
            },
            value@,
        ),
{
    let messages = match value.as_array() {
        Some(m) => m,
        None => {
            return Err(owned("Discord messages response was not an array."));
        },
    };
    let ghost ms = crate::json::items_view(messages@);
    proof {
        crate::json::lemma_items_view(messages@);
    }
    let n = messages.len();
    let mut max_id: Option<i64> = None;
    let mut updates: Vec<Json> = Vec::new();
    let mut i: usize = n;
    proof {
        assert(ms.subrange(n as int, n as int) =~= Seq::<JsonV>::empty());
        assert(crate::json::items_view(updates@) =~= Seq::<JsonV>::empty());
    }
    while i > 0
        invariant
            i <= n == messages@.len() == ms.len(),
            match max_id {
                Some(x) => discord_ids_max(ms.subrange(i as int, n as int)) == Some(x as int),
                None => discord_ids_max(ms.subrange(i as int, n as int)) is None,
            },
            crate::json::items_view(updates@) == discord_updates_of(
                channel_id@,
                ms.subrange(i as int, n as int),
            ),
        decreases i,
    {
        i = i - 1;
        let m = &messages[i];
        let ghost t = ms.subrange(i as int, n as int);
        proof {
            assert(t[0] == ms[i as int]);
            assert(t.drop_first() =~= ms.subrange(i + 1, n as int));
        }
        let id = discord_id_of(m);
        max_id = max_i64(max_id, id);
        match id {
            Some(idv) => {
                if !by_bot(m) {
                    let u = discord_message_to_update(channel_id, m, idv);
                    let ghost before = updates@;
                    updates.push(u);
                    proof {
                        crate::json::lemma_items_view(updates@);
                        crate::json::lemma_items_view(before);
                        assert(crate::json::items_view(updates@) =~= crate::json::items_view(before)
                            + seq![u@]);
                    }
                } else {
                    proof {
                        assert(crate::json::items_view(updates@) =~= crate::json::items_view(updates@)
                            + Seq::<JsonV>::empty());
                    }
                }
            },
            None => {
                proof {
                    assert(crate::json::items_view(updates@) =~= crate::json::items_view(updates@)
                        + Seq::<JsonV>::empty());
                }
            },
        }
    }
    proof {
        assert(ms.subrange(0, n as int) =~= ms);
    }
    match offset {
        None => Ok((sat_inc_opt(max_id), Vec::new())),
        Some(o) => {
            let combined = max_i64(Some(o), max_id);
            Ok((sat_inc_opt(combined), updates))
        },
    }
}

/// A Telegram update's `update_id`.
pub open spec fn update_id_of(update: JsonV) -> Option<int> {
    match jget(update, "update_id"@) {
        Some(u) => jas_i64(u),
        None => None,
    }
}

/// The largest `update_id` among `updates`.
pub open spec fn update_ids_max(updates: Seq<JsonV>) -> Option<int>
    decreases updates.len(),
{
    if updates.len() == 0 {
        None
    } else {
        opt_max(update_ids_max(updates.drop_first()), update_id_of(updates[0]))
    }
}

/// What a Telegram `getUpdates` response yields: the offset for the next
/// poll (one past the largest update id, else the current offset) and the
/// updates; the first poll, without an offset, only finds where to start.
pub open spec fn telegram_poll_of(offset: Option<int>, value: JsonV) -> Result<
    (Option<int>, Seq<JsonV>),
    Seq<char>,
> {
    match jget(value, "result"@) {
        Some(r) => match jas_array(r) {
            Some(updates) => {
                let next = opt_sat_inc(update_ids_max(updates));
                match offset {
                    None => Ok((next, Seq::empty())),
                    Some(o) => Ok((if next is Some {
                        next
                    } else {
                        Some(o)
                    }, updates)),
                }
            },
            None => Err("Telegram getUpdates response missing result array."@),
        },
        None => Err("Telegram getUpdates response missing result array."@),
    }
}

/// Reads a Telegram `getUpdates` response.
#[verifier::loop_isolation(false)]
pub fn telegram_updates_from_response(offset: Option<i64>, value: &Json) -> (r: Result<
    (Option<i64>, Vec<Json>),
    String,
>)
    ensures
        poll_result_view(r) == telegram_poll_of(
            match offset {
                Some(o) => Some(o as int),
                None => None,
            },
            value@,
        ),
{
    let updates = match value.get("result") {
        Some(r) => match r.as_array() {
            Some(a) => a,
            None => {
                return Err(owned("Telegram getUpdates response missing result array."));
            },
        },
        None => {
            return Err(owned("Telegram getUpdates response missing result array."));
        },
    };
    let ghost us = crate::json::items_view(updates@);
    proof {
        crate::json::lemma_items_view(updates@);
    }
    let n = updates.len();
    let mut max_id: Option<i64> = None;
    let mut i: usize = n;
    proof {
        assert(us.subrange(n as int, n as int) =~= Seq::<JsonV>::empty());
    }
    while i > 0
        invariant
            i <= n == updates@.len() == us.len(),
            match max_id {
                Some(x) => update_ids_max(us.subrange(i as int, n as int)) == Some(x as int),
                None => update_ids_max(us.subrange(i as int, n as int)) is None,
            },
        decreases i,
    {
        i = i - 1;
        let ghost t = us.subrange(i as int, n as int);
        proof {
            assert(t[0] == us[i as int]);
            assert(t.drop_first() =~= us.subrange(i + 1, n as int));
        }
        let id: Option<i64> = match updates[i].get("update_id") {
            Some(u) => u.as_i64(),
            None => None,
        };
        max_id = max_i64(max_id, id);
    }
    proof {
        assert(us.subrange(0, n as int) =~= us);
    }
    let next = sat_inc_opt(max_id);
    match offset {
        None => Ok((next, Vec::new())),
        Some(o) => {
            let mut copies: Vec<Json> = Vec::new();
            let mut k: usize = 0;
            while k < n
                invariant
                    k <= n == updates@.len(),
                    copies@.len() == k,
                    forall|j: int|
                        0 <= j < k ==> crate::json::json_view(#[trigger] copies@[j]) == crate::json::json_view(
                            updates@[j],
                        ),
                decreases n - k,
            {
                copies.push(updates[k].copy());
                k = k + 1;
            }
            proof {
                crate::json::lemma_items_view(copies@);
                assert(crate::json::items_view(copies@) =~= us);
            }
            let chosen = match next {
                Some(x) => Some(x),
                None => Some(o),
            };
            Ok((chosen, copies))
        },
    }
}

/// The body of a Telegram `getUpdates` request: up to 20 message and button
/// updates, long-polling for at most 30 seconds.
pub open spec fn get_updates_payload_of(offset: Option<int>, timeout_secs: int) -> JsonV {
    let timeout = if timeout_secs < 0 {
        0
    } else if timeout_secs > 30 {
        30
    } else {
        timeout_secs
    };
    let allowed = JsonV::Array(seq![JsonV::Str("message"@), JsonV::Str("callback_query"@)]);
    match offset {
        None => JsonV::Object(
            seq![("allowed_updates"@, allowed), ("limit"@, JsonV::Number(20)), ("timeout"@, JsonV::Number(timeout))],
        ),
        Some(o) => JsonV::Object(
            seq![
                ("allowed_updates"@, allowed),
                ("limit"@, JsonV::Number(20)),
                ("offset"@, JsonV::Number(o)),
                ("timeout"@, JsonV::Number(timeout)),
            ],
        ),
    }
}

/// Builds the body of a Telegram `getUpdates` request.
pub fn get_updates_payload(offset: Option<i64>, timeout_secs: i64) -> (r: Json)
    ensures
        r@ == get_updates_payload_of(
            match offset {
                Some(o) => Some(o as int),
                None => None,
            },
            timeout_secs as int,
        ),
{
    let timeout: i64 = if timeout_secs < 0 {
        0
    } else if timeout_secs > 30 {
        30
    } else {
        timeout_secs
    };
    let mut kinds: Vec<Json> = Vec::new();
    kinds.push(jstr("message"));
    kinds.push(jstr("callback_query"));
    proof {
        crate::json::lemma_items_view(kinds@);
        assert(crate::json::items_view(kinds@) =~= seq![JsonV::Str("message"@), JsonV::Str("callback_query"@)]);
    }
    let allowed = Json::Array(kinds);
    match offset {
        None => obj3(
            "allowed_updates",
            allowed,
            "limit",
            Json::Number(20),
            "timeout",
            Json::Number(timeout as i128),
        ),
        Some(o) => crate::json::obj4(
            "allowed_updates",
            allowed,
            "limit",
            Json::Number(20),
            "offset",
            Json::Number(o as i128),
            "timeout",
            Json::Number(timeout as i128),
        ),
    }
}

/// The path of a poll of a Discord DM channel.
pub open spec fn discord_messages_path_of(channel_id: Seq<char>, offset: Option<int>) -> Seq<char> {
    let base = "/channels/"@ + channel_id + "/messages?limit=20"@;
    match offset {
        Some(o) => base + "&after="@ + crate::json::decimal(o),
        None => base,
    }
}

/// Builds the path of a poll of a Discord DM channel.
pub fn discord_messages_path(channel_id: &str, offset: Option<i64>) -> (r: String)
    ensures
        r@ == discord_messages_path_of(
            channel_id@,
            match offset {
                Some(o) => Some(o as int),
                None => None,
            },
        ),
{
    let mut p = owned("/channels/");
    append_str(&mut p, channel_id);
    append_str(&mut p, "/messages?limit=20");
    match offset {
        Some(o) => {
            append_str(&mut p, "&after=");
            crate::json::append_decimal(&mut p, o as i128);
        },
        None => {},
    }
    p
}

/// Whether a token check succeeded: Discord names the bot user's `id`,
/// Telegram's `getMe` has a `result.id`; the error otherwise.
pub open spec fn token_check_of(provider: RemoteProvider, value: JsonV) -> Result<(), Seq<char>> {
    match provider {
        RemoteProvider::Discord => if (match jget(value, "id"@) {
            Some(i) => jas_str(i) is Some,
            None => false,
        }) {
            Ok(())
        } else {
            Err("Discord token verification failed: response missing bot user id."@)
        },
        RemoteProvider::Telegram => if (match jget(value, "result"@) {
            Some(r) => jget(r, "id"@) is Some,
            None => false,
        }) {
            Ok(())
        } else {
            Err("Telegram token verification failed: response missing bot id."@)
        },
    }
}

pub open spec fn unit_result_view(r: Result<(), String>) -> Result<(), Seq<char>> {
    match r {
        Ok(()) => Ok(()),
        Err(e) => Err(e@),
    }
}

/// Checks the answer to a token check.
pub fn token_check_from_response(provider: RemoteProvider, value: &Json) -> (r: Result<(), String>)
    ensures
        unit_result_view(r) == token_check_of(provider, value@),
{
    match provider {
        RemoteProvider::Discord => {
            let ok = match value.get("id") {
                Some(i) => i.as_str().is_some(),
                None => false,
            };
            if ok {
                Ok(())
            } else {
                Err(owned("Discord token verification failed: response missing bot user id."))
            }
        },
        RemoteProvider::Telegram => {
            let ok = match value.get("result") {
                Some(r) => r.get("id").is_some(),
                None => false,
            };
            if ok {
                Ok(())
            } else {
                Err(owned("Telegram token verification failed: response missing bot id."))
            }
        },
    }
}

/// A Telegram API answer accepted or refused: an HTTP success whose `ok` is
/// `true`, else the error naming the method, the HTTP status and the
/// description Telegram gave.
pub open spec fn telegram_answer_of(
    method: Seq<char>,
    success: bool,
    status: Seq<char>,
    parsed: JsonV,
) -> Result<JsonV, Seq<char>> {
    let ok = match jget(parsed, "ok"@) {
        Some(b) => jas_bool(b) == Some(true),
        None => false,
    };
    if !success || !ok {
        let description = match jget(parsed, "description"@) {
            Some(d) => match jas_str(d) {
                Some(t) => t,
                None => "Telegram request failed"@,
            },
            None => "Telegram request failed"@,
        };
        Err(
            "Telegram request `"@ + method + "` failed with HTTP "@ + status + ": "@ + description,
        )
    } else {
        Ok(parsed)
    }
}

pub open spec fn json_result_view(r: Result<Json, String>) -> Result<JsonV, Seq<char>> {
    match r {
        Ok(j) => Ok(j@),
        Err(e) => Err(e@),
    }
}

/// Accepts or refuses a parsed Telegram API answer; `status` is the HTTP
/// status as displayed.
pub fn telegram_answer(method: &str, success: bool, status: &str, parsed: Json) -> (r: Result<
    Json,
    String,
>)
    ensures
        json_result_view(r) == telegram_answer_of(method@, success, status@, parsed@),
{
    let ok = match parsed.get("ok") {
        Some(b) => match b.as_bool() {
            Some(v) => v,
            None => false,
        },
        None => false,
    };
    if !success || !ok {
        let mut e = owned("Telegram request `");
        append_str(&mut e, method);
        append_str(&mut e, "` failed with HTTP ");
        append_str(&mut e, status);
        append_str(&mut e, ": ");
        match parsed.get("description") {
            Some(d) => match d.as_str() {
                Some(t) => append_str(&mut e, t.as_str()),
                None => append_str(&mut e, "Telegram request failed"),
            },
            None => append_str(&mut e, "Telegram request failed"),
        }
        Err(e)
    } else {
        Ok(parsed)
    }
}

/// A Discord API answer accepted or refused: an HTTP success, else the error
/// naming the path and the HTTP status, with Discord's message.
pub open spec fn discord_answer_of(path: Seq<char>, success: bool, status: Seq<char>, parsed: JsonV) -> Result<
    JsonV,
    Seq<char>,
> {
    if !success {
        Err(
            discord_error_of(
                parsed,
                "Discord request `"@ + path + "` failed with HTTP "@ + status,
            ),
        )
    } else {
        Ok(parsed)
    }
}

/// Accepts or refuses a parsed Discord API answer; `status` is the HTTP
/// status as displayed.
pub fn discord_answer(path: &str, success: bool, status: &str, parsed: Json) -> (r: Result<
    Json,
    String,
>)
    ensures
        json_result_view(r) == discord_answer_of(path@, success, status@, parsed@),
{
    if !success {
        let mut d = owned("Discord request `");
        append_str(&mut d, path);
        append_str(&mut d, "` failed with HTTP ");
        append_str(&mut d, status);
        Err(discord_error_from_response(&parsed, d.as_str()))
    } else {
        Ok(parsed)
    }
}

/// A request to a provider's API, for the HTTP client to perform.
#[derive(Debug, PartialEq)]
pub enum RemoteRequest {
    /// A Discord `GET` of a path.
    DiscordGet { path: String },
    /// A Discord `POST` of a JSON body to a path.
    DiscordPost { path: String, body: Json },
    /// A Discord `PATCH` of a JSON body to a path.
    DiscordPatch { path: String, body: Json },
    /// A Telegram Bot API method called with a JSON body.
    TelegramCall { method: String, body: Json },
}

/// The plain values of a request.
pub enum RequestV {
    DiscordGet(Seq<char>),
    DiscordPost(Seq<char>, JsonV),
    DiscordPatch(Seq<char>, JsonV),
    TelegramCall(Seq<char>, JsonV),
}

pub open spec fn request_view(r: RemoteRequest) -> RequestV {
    match r {
        RemoteRequest::DiscordGet { path } => RequestV::DiscordGet(path@),
        RemoteRequest::DiscordPost { path, body } => RequestV::DiscordPost(path@, body@),
        RemoteRequest::DiscordPatch { path, body } => RequestV::DiscordPatch(path@, body@),
        RemoteRequest::TelegramCall { method, body } => RequestV::TelegramCall(method@, body@),
    }
}

pub open spec fn requests_view(rs: Seq<RemoteRequest>) -> Seq<RequestV> {
    rs.map_values(|r: RemoteRequest| request_view(r))
}

/// A client of one provider's bot API, with its token and, once known, the
/// chat or channel it sends to.
pub struct TelegramClient {
    provider: RemoteProvider,
    bot_token: String,
    channel_id: Option<String>,
}

impl View for TelegramClient {
    /// Provider, token, and the chat or channel when known.
    type V = (RemoteProvider, Seq<char>, Option<Seq<char>>);

    closed spec fn view(&self) -> (RemoteProvider, Seq<char>, Option<Seq<char>>) {
        (self.provider, self.bot_token@, match self.channel_id {
            Some(ch) => Some(ch@),
            None => None,
        })
    }
}

/// The plain values of a client: provider, token, channel.
pub open spec fn client_view(c: TelegramClient) -> (RemoteProvider, Seq<char>, Option<Seq<char>>) {
    c@
}

pub open spec fn client_result_view(r: Result<TelegramClient, String>) -> Result<
    (RemoteProvider, Seq<char>, Option<Seq<char>>),
    Seq<char>,
> {
    match r {
        Ok(c) => Ok(client_view(c)),
        Err(e) => Err(e@),
    }
}

/// A client for a provider: the token trimmed, refused when empty.
pub open spec fn client_of(provider: RemoteProvider, bot_token: Seq<char>, channel_id: Option<Seq<char>>) -> Result<
    (RemoteProvider, Seq<char>, Option<Seq<char>>),
    Seq<char>,
> {
    if trim(bot_token).len() == 0 {
        Err(provider_label(provider) + " bot token is required."@)
    } else {
        Ok((provider, trim(bot_token), channel_id))
    }
}

/// A client bound to a chat or channel: the id trimmed, refused when empty.
pub open spec fn channel_client_of(provider: RemoteProvider, bot_token: Seq<char>, channel_id: Seq<char>) -> Result<
    (RemoteProvider, Seq<char>, Option<Seq<char>>),
    Seq<char>,
> {
    if trim(channel_id).len() == 0 {
        Err(provider_label(provider) + " chat/channel ID is required."@)
    } else {
        client_of(provider, bot_token, Some(trim(channel_id)))
    }
}

/// The empty body `{}`.
pub open spec fn empty_body() -> JsonV {
    JsonV::Object(Seq::empty())
}

/// The body of a Discord message post.
pub open spec fn discord_message_body(content: Seq<char>) -> JsonV {
    JsonV::Object(
        seq![
            ("allowed_mentions"@, JsonV::Object(seq![("parse"@, JsonV::Array(Seq::empty()))])),
            ("content"@, JsonV::Str(content)),
        ],
    )
}

fn discord_body(content: &str) -> (r: Json)
    ensures
        r@ == discord_message_body(content@),
{
    let mentions = obj1("parse", empty_array());
    obj2("allowed_mentions", mentions, "content", jstr(content))
}

/// The request that sends one plain piece of text to a chat.
pub open spec fn plain_message_request(provider: RemoteProvider, channel: Seq<char>, chunk: Seq<char>) -> RequestV {
    match provider {
        RemoteProvider::Discord => RequestV::DiscordPost(
            "/channels/"@ + channel + "/messages"@,
            discord_message_body(chunk),
        ),
        RemoteProvider::Telegram => RequestV::TelegramCall(
            "sendMessage"@,
            JsonV::Object(
                seq![
                    ("chat_id"@, JsonV::Str(channel)),
                    ("disable_web_page_preview"@, JsonV::Bool(true)),
                    ("text"@, JsonV::Str(chunk)),
                ],
            ),
        ),
    }
}

/// The request that sends one piece of HTML text to a chat.
pub open spec fn html_message_request(
    provider: RemoteProvider,
    chat: Seq<char>,
    chunk: Seq<char>,
    markup: Option<JsonV>,
) -> RequestV {
    match provider {
        RemoteProvider::Discord => RequestV::DiscordPost(
            "/channels/"@ + chat + "/messages"@,
            discord_message_body(chunk),
        ),
        RemoteProvider::Telegram => RequestV::TelegramCall(
            "sendMessage"@,
            match markup {
                Some(m) => JsonV::Object(
                    seq![
                        ("chat_id"@, JsonV::Str(chat)),
                        ("disable_web_page_preview"@, JsonV::Bool(true)),
                        ("parse_mode"@, JsonV::Str("HTML"@)),
                        ("reply_markup"@, m),
                        ("text"@, JsonV::Str(chunk)),
                    ],
                ),
                None => JsonV::Object(
                    seq![
                        ("chat_id"@, JsonV::Str(chat)),
                        ("disable_web_page_preview"@, JsonV::Bool(true)),
                        ("parse_mode"@, JsonV::Str("HTML"@)),
                        ("text"@, JsonV::Str(chunk)),
                    ],
                ),
            },
        ),
    }
}

/// The text a provider is sent for HTML: Discord markdown, or the HTML itself.
pub open spec fn html_content_of(provider: RemoteProvider, html: Seq<char>) -> Seq<char> {
    match provider {
        RemoteProvider::Discord => discord_text_of(html),
        RemoteProvider::Telegram => html,
    }
}

/// The first message id among responses, or the error for a send whose
/// responses name none.
pub open spec fn first_message_id_of(provider: RemoteProvider, responses: Seq<JsonV>) -> Result<int, Seq<char>>
    decreases responses.len(),
{
    if responses.len() == 0 {
        Err(provider_label(provider) + " create message response missing id."@)
    } else {
        match message_id_of(provider, responses[0]) {
            Some(id) => Ok(id),
            None => first_message_id_of(provider, responses.drop_first()),
        }
    }
}

/// The request that edits a sent HTML message.
pub open spec fn edit_request_of(
    provider: RemoteProvider,
    chat: Seq<char>,
    message_id: int,
    html: Seq<char>,
    first_piece: Seq<char>,
    markup: Option<JsonV>,
) -> RequestV {
    match provider {
        RemoteProvider::Discord => RequestV::DiscordPatch(
            "/channels/"@ + chat + "/messages/"@ + crate::json::decimal(message_id),
            discord_message_body(first_piece),
        ),
        RemoteProvider::Telegram => RequestV::TelegramCall(
            "editMessageText"@,
            match markup {
                Some(m) => JsonV::Object(
                    seq![
                        ("chat_id"@, JsonV::Str(chat)),
                        ("disable_web_page_preview"@, JsonV::Bool(true)),
                        ("message_id"@, JsonV::Number(message_id)),
                        ("parse_mode"@, JsonV::Str("HTML"@)),
                        ("reply_markup"@, m),
                        ("text"@, JsonV::Str(html)),
                    ],
                ),
                None => JsonV::Object(
                    seq![
                        ("chat_id"@, JsonV::Str(chat)),
                        ("disable_web_page_preview"@, JsonV::Bool(true)),
                        ("message_id"@, JsonV::Number(message_id)),
                        ("parse_mode"@, JsonV::Str("HTML"@)),
                        ("text"@, JsonV::Str(html)),
                    ],
                ),
            },
        ),
    }
}

pub open spec fn opt_json_view(j: Option<Json>) -> Option<JsonV> {
    match j {
        Some(x) => Some(x@),
        None => None,
    }
}

pub open spec fn requests_result_view(r: Result<Vec<RemoteRequest>, String>) -> Result<Seq<RequestV>, Seq<char>> {
    match r {
        Ok(v) => Ok(requests_view(v@)),
        Err(e) => Err(e@),
    }
}

pub open spec fn request_result_view(r: Result<RemoteRequest, String>) -> Result<RequestV, Seq<char>> {
    match r {
        Ok(v) => Ok(request_view(v)),
        Err(e) => Err(e@),
    }
}

fn copy_opt(j: &Option<Json>) -> (r: Option<Json>)
    ensures
        opt_json_view(r) == opt_json_view(*j),
{
    match j {
        Some(x) => Some(x.copy()),
        None => None,
    }
}

impl TelegramClient {
    /// The client's provider.
    pub fn provider(&self) -> (r: RemoteProvider)
        ensures
            r == self@.0,
    {
        self.provider
    }

    /// The client's bot token.
    pub fn bot_token(&self) -> (r: &String)
        ensures
            r@ == self@.1,
    {
        &self.bot_token
    }

    /// The chat or channel the client sends to, once known.
    pub fn channel_id(&self) -> (r: Option<&String>)
        ensures
            match r {
                Some(c) => self@.2 == Some(c@),
                None => self@.2 is None,
            },
    {
        match &self.channel_id {
            Some(c) => Some(c),
            None => None,
        }
    }

    fn new_inner(provider: RemoteProvider, bot_token: String, channel_id: Option<String>) -> (r: Result<
        Self,
        String,
    >)
        ensures
            client_result_view(r) == client_of(
                provider,
                bot_token@,
                match channel_id {
                    Some(c) => Some(c@),
                    None => None,
                },
            ),
    {
        let token = trimmed(bot_token.as_str());
        if token.as_str().is_empty() {
            let mut e = owned(provider.label());
            append_str(&mut e, " bot token is required.");
            return Err(e);
        }
        Ok(TelegramClient { provider, bot_token: token, channel_id })
    }

    /// A Discord client without a channel.
    pub fn new(bot_token: String) -> (r: Result<Self, String>)
        ensures
            client_result_view(r) == client_of(RemoteProvider::Discord, bot_token@, None),
    {
        Self::new_inner(RemoteProvider::Discord, bot_token, None)
    }

    fn new_for_channel_provider(provider: RemoteProvider, bot_token: String, channel_id: String) -> (r:
        Result<Self, String>)
        ensures
            client_result_view(r) == channel_client_of(provider, bot_token@, channel_id@),
    {
        let channel = trimmed(channel_id.as_str());
        if channel.as_str().is_empty() {
            let mut e = owned(provider.label());
            append_str(&mut e, " chat/channel ID is required.");
            return Err(e);
        }
        Self::new_inner(provider, bot_token, Some(channel))
    }

    /// A Discord client bound to a channel.
    pub fn new_for_channel(bot_token: String, channel_id: String) -> (r: Result<Self, String>)
        ensures
            client_result_view(r) == channel_client_of(RemoteProvider::Discord, bot_token@, channel_id@),
    {
        Self::new_for_channel_provider(RemoteProvider::Discord, bot_token, channel_id)
    }

    /// A client of the named provider bound to a chat or channel.
    pub fn new_for_channel_named(provider: &str, bot_token: String, channel_id: String) -> (r: Result<
        Self,
        String,
    >)
        ensures
            client_result_view(r) == channel_client_of(provider_named(provider@), bot_token@, channel_id@),
    {
        Self::new_for_channel_provider(RemoteProvider::from_str(provider), bot_token, channel_id)
    }

    /// The first step of a client for a user: the user id
    /// trimmed, required for Discord, and a client without a channel; the
    /// caller then checks the token and, for Discord, opens the DM channel.
    pub fn prepare_for_user(provider: RemoteProvider, bot_token: String, user_id: String) -> (r: Result<
        (Self, String),
        String,
    >)
        ensures
            match r {
                Ok((c, u)) => u@ == trim(user_id@) && !(provider == RemoteProvider::Discord && trim(
                    user_id@,
                ).len() == 0) && client_of(provider, bot_token@, None) == Ok::<
                    (RemoteProvider, Seq<char>, Option<Seq<char>>),
                    Seq<char>,
                >(client_view(c)),
                Err(e) => if provider == RemoteProvider::Discord && trim(user_id@).len() == 0 {
                    e@ == "Discord user ID is required."@
                } else {
                    client_of(provider, bot_token@, None) == Err::<
                        (RemoteProvider, Seq<char>, Option<Seq<char>>),
                        Seq<char>,
                    >(e@)
                },
            },
    {
        let user = trimmed(user_id.as_str());
        if provider == RemoteProvider::Discord && user.as_str().is_empty() {
            return Err(owned("Discord user ID is required."));
        }
        match Self::new_inner(provider, bot_token, None) {
            Ok(c) => Ok((c, user)),
            Err(e) => Err(e),
        }
    }

    /// The client bound to a chat or channel found later (the Discord DM channel).
    pub fn with_channel(self, channel_id: String) -> (r: Self)
        ensures
            client_view(r) == (self@.0, self@.1, Some(channel_id@)),
    {
        TelegramClient { provider: self.provider, bot_token: self.bot_token, channel_id: Some(channel_id) }
    }

    /// The `Authorization` header value for Discord.
    pub fn authorization_value(&self) -> (r: String)
        ensures
            r@ == "Bot "@ + self@.1,
    {
        let mut r = owned("Bot ");
        append_str(&mut r, self.bot_token.as_str());
        r
    }

    /// The request that checks the token.
    pub fn verify_token_request(&self) -> (r: RemoteRequest)
        ensures
            request_view(r) == match self@.0 {
                RemoteProvider::Discord => RequestV::DiscordGet("/users/@me"@),
                RemoteProvider::Telegram => RequestV::TelegramCall("getMe"@, empty_body()),
            },
    {
        match self.provider {
            RemoteProvider::Discord => RemoteRequest::DiscordGet { path: owned("/users/@me") },
            RemoteProvider::Telegram => RemoteRequest::TelegramCall {
                method: owned("getMe"),
                body: crate::json::empty_object(),
            },
        }
    }

    /// The request that opens a DM channel with a Discord user.
    pub fn create_dm_request(&self, user_id: &str) -> (r: RemoteRequest)
        ensures
            request_view(r) == RequestV::DiscordPost(
                "/users/@me/channels"@,
                JsonV::Object(seq![("recipient_id"@, JsonV::Str(trim(user_id@)))]),
            ),
    {
        let u = trimmed(user_id);
        RemoteRequest::DiscordPost {
            path: owned("/users/@me/channels"),
            body: obj1("recipient_id", Json::Str(u)),
        }
    }

    /// The requests that send plain text to the client's chat, one per
    /// piece; the error when there is no chat.
    pub fn plain_message_requests(&self, text: &str) -> (r: Result<Vec<RemoteRequest>, String>)
        requires
            chunk_text(text@, provider_limit(self@.0)) is Some,
        ensures
            match self@.2 {
                None => requests_result_view(r) == Err::<Seq<RequestV>, Seq<char>>(
                    provider_label(self@.0) + " chat/channel is required for sending."@,
                ),
                Some(ch) => requests_result_view(r) == Ok::<Seq<RequestV>, Seq<char>>(
                    chunk_text(text@, provider_limit(self@.0)).unwrap().map_values(
                        |c: Seq<char>| plain_message_request(self@.0, ch, c),
                    ),
                ),
            },
    {
        let channel: &String = match &self.channel_id {
            Some(c) => c,
            None => {
                let mut e = owned(self.provider.label());
                append_str(&mut e, " chat/channel is required for sending.");
                return Err(e);
            },
        };
        let chunks = chunk_message_for_provider(self.provider, text);
        let ghost cs = string_views(chunks@);
        let mut out: Vec<RemoteRequest> = Vec::new();
        let mut i: usize = 0;
        while i < chunks.len()
            invariant
                i <= chunks.len(),
                cs == string_views(chunks@),
                requests_view(out@) == cs.take(i as int).map_values(
                    |c: Seq<char>| plain_message_request(self.provider, channel@, c),
                ),
            decreases chunks.len() - i,
        {
            let chunk = chunks[i].as_str();
            let req = match self.provider {
                RemoteProvider::Discord => {
                    let mut path = owned("/channels/");
                    append_str(&mut path, channel.as_str());
                    append_str(&mut path, "/messages");
                    RemoteRequest::DiscordPost { path, body: discord_body(chunk) }
                },
                RemoteProvider::Telegram => RemoteRequest::TelegramCall {
                    method: owned("sendMessage"),
                    body: obj3(
                        "chat_id",
                        jstr(channel.as_str()),
                        "disable_web_page_preview",
                        Json::Bool(true),
                        "text",
                        jstr(chunk),
                    ),
                },
            };
            let ghost before = out@;
            out.push(req);
            i = i + 1;
            proof {
                assert(requests_view(out@) =~= requests_view(before).push(request_view(req)));
                assert(cs.take(i as int) =~= cs.take(i - 1).push(cs[i - 1]));
                assert(cs.take(i as int).map_values(
                    |c: Seq<char>| plain_message_request(self.provider, channel@, c),
                ) =~= cs.take(i - 1).map_values(
                    |c: Seq<char>| plain_message_request(self.provider, channel@, c),
                ).push(plain_message_request(self.provider, channel@, cs[i - 1])));
            }
        }
        proof {
            assert(cs.take(chunks.len() as int) =~= cs);
        }
        Ok(out)
    }

    /// The requests that send HTML text to a chat, one per piece; for
    /// Discord the text is first turned into markdown.
    pub fn html_message_requests(&self, chat_id: &str, html_text: &str, reply_markup: Option<Json>) -> (r:
        Vec<RemoteRequest>)
        requires
            chunk_text(html_content_of(self@.0, html_text@), provider_limit(self@.0)) is Some,
        ensures
            requests_view(r@) == chunk_text(
                html_content_of(self@.0, html_text@),
                provider_limit(self@.0),
            ).unwrap().map_values(
                |c: Seq<char>| html_message_request(self@.0, trim(chat_id@), c, opt_json_view(reply_markup)),
            ),
    {
        let content: String = match self.provider {
            RemoteProvider::Discord => discord_text_from_html(html_text),
            RemoteProvider::Telegram => owned(html_text),
        };
        let chat = trimmed(chat_id);
        let chunks = chunk_message_for_provider(self.provider, content.as_str());
        let ghost cs = string_views(chunks@);
        let ghost mk = opt_json_view(reply_markup);
        let mut out: Vec<RemoteRequest> = Vec::new();
        let mut i: usize = 0;
        while i < chunks.len()
            invariant
                i <= chunks.len(),
                cs == string_views(chunks@),
                chat@ == trim(chat_id@),
                mk == opt_json_view(reply_markup),
                requests_view(out@) == cs.take(i as int).map_values(
                    |c: Seq<char>| html_message_request(self.provider, chat@, c, mk),
                ),
            decreases chunks.len() - i,
        {
            let chunk = chunks[i].as_str();
            let req = match self.provider {
                RemoteProvider::Discord => {
                    let mut path = owned("/channels/");
                    append_str(&mut path, chat.as_str());
                    append_str(&mut path, "/messages");
                    RemoteRequest::DiscordPost { path, body: discord_body(chunk) }
                },
                RemoteProvider::Telegram => {
                    let body = match copy_opt(&reply_markup) {
                        Some(m) => obj5(
                            "chat_id",
                            jstr(chat.as_str()),
                            "disable_web_page_preview",
                            Json::Bool(true),
                            "parse_mode",
                            jstr("HTML"),
                            "reply_markup",
                            m,
                            "text",
                            jstr(chunk),
                        ),
                        None => crate::json::obj4(
                            "chat_id",
                            jstr(chat.as_str()),
                            "disable_web_page_preview",
                            Json::Bool(true),
                            "parse_mode",
                            jstr("HTML"),
                            "text",
                            jstr(chunk),
                        ),
                    };
                    RemoteRequest::TelegramCall { method: owned("sendMessage"), body }
                },
            };
            let ghost before = out@;
            out.push(req);
            i = i + 1;
            proof {
                assert(requests_view(out@) =~= requests_view(before).push(request_view(req)));
                assert(cs.take(i as int) =~= cs.take(i - 1).push(cs[i - 1]));
                assert(cs.take(i as int).map_values(
                    |c: Seq<char>| html_message_request(self.provider, chat@, c, mk),
                ) =~= cs.take(i - 1).map_values(
                    |c: Seq<char>| html_message_request(self.provider, chat@, c, mk),
                ).push(html_message_request(self.provider, chat@, cs[i - 1], mk)));
            }
        }
        proof {
            assert(cs.take(chunks.len() as int) =~= cs);
        }
        out
    }

    /// The id of the first message a send created, from the responses to its
    /// requests in order, or the error when none names one.
    pub fn first_message_id(&self, responses: &Vec<Json>) -> (r: Result<i64, String>)
        ensures
            match r {
                Ok(id) => first_message_id_of(self@.0, crate::json::items_view(responses@)) == Ok::<
                    int,
                    Seq<char>,
                >(id as int),
                Err(e) => first_message_id_of(self@.0, crate::json::items_view(responses@))
                    == Err::<int, Seq<char>>(e@),
            },
    {
        let ghost rs = crate::json::items_view(responses@);
        proof {
            crate::json::lemma_items_view(responses@);
            assert(rs.skip(0) =~= rs);
        }
        let mut i: usize = 0;
        while i < responses.len()
            invariant
                i <= responses.len() == rs.len(),
                rs == crate::json::items_view(responses@),
                forall|j: int| 0 <= j < rs.len() ==> #[trigger] rs[j] == crate::json::json_view(responses@[j]),
                first_message_id_of(self.provider, rs) == first_message_id_of(self.provider, rs.skip(i as int)),
            decreases responses.len() - i,
        {
            proof {
                assert(rs.skip(i as int)[0] == rs[i as int]);
                assert(rs.skip(i as int).drop_first() =~= rs.skip(i + 1));
            }
            match message_id_from_response(self.provider, &responses[i]) {
                Some(id) => {
                    return Ok(id);
                },
                None => {},
            }
            i = i + 1;
        }
        let mut e = owned(self.provider.label());
        append_str(&mut e, " create message response missing id.");
        proof {
            assert(rs.skip(i as int).len() == 0);
        }
        Err(e)
    }

    /// The request that edits a sent HTML message;
    /// Discord gets the first piece of the markdown.
    pub fn edit_html_request(&self, chat_id: &str, message_id: i64, html_text: &str, reply_markup: Option<
        Json,
    >) -> (r: RemoteRequest)
        requires
            self@.0 == RemoteProvider::Discord ==> chunk_text(
                discord_text_of(html_text@),
                DISCORD_MESSAGE_LIMIT as nat,
            ) is Some,
        ensures
            request_view(r) == edit_request_of(
                self@.0,
                trim(chat_id@),
                message_id as int,
                html_text@,
                match chunk_text(discord_text_of(html_text@), DISCORD_MESSAGE_LIMIT as nat) {
                    Some(cs) => if cs.len() > 0 {
                        cs[0]
                    } else {
                        Seq::empty()
                    },
                    None => Seq::empty(),
                },
                opt_json_view(reply_markup),
            ),
    {
        let chat = trimmed(chat_id);
        match self.provider {
            RemoteProvider::Discord => {
                let content = discord_text_from_html(html_text);
                let pieces = chunk_discord_message(content.as_str());
                let first: String = if pieces.len() > 0 {
                    pieces[0].clone()
                } else {
                    String::new()
                };
                let mut path = owned("/channels/");
                append_str(&mut path, chat.as_str());
                append_str(&mut path, "/messages/");
                crate::json::append_decimal(&mut path, message_id as i128);
                RemoteRequest::DiscordPatch { path, body: discord_body(first.as_str()) }
            },
            RemoteProvider::Telegram => {
                let body = match reply_markup {
                    Some(m) => crate::json::obj6(
                        "chat_id",
                        jstr(chat.as_str()),
                        "disable_web_page_preview",
                        Json::Bool(true),
                        "message_id",
                        Json::Number(message_id as i128),
                        "parse_mode",
                        jstr("HTML"),
                        "reply_markup",
                        m,
                        "text",
                        jstr(html_text),
                    ),
                    None => obj5(
                        "chat_id",
                        jstr(chat.as_str()),
                        "disable_web_page_preview",
                        Json::Bool(true),
                        "message_id",
                        Json::Number(message_id as i128),
                        "parse_mode",
                        jstr("HTML"),
                        "text",
                        jstr(html_text),
                    ),
                };
                RemoteRequest::TelegramCall { method: owned("editMessageText"), body }
            },
        }
    }

    /// The request that answers a Telegram button press; Discord has none.
    pub fn answer_callback_request(&self, callback_query_id: &str, text: Option<&str>) -> (r: Option<
        RemoteRequest,
    >)
        ensures
            match self@.0 {
                RemoteProvider::Discord => r is None,
                RemoteProvider::Telegram => r matches Some(q) && request_view(q) == RequestV::TelegramCall(
                    "answerCallbackQuery"@,
                    match text {
                        Some(t) => JsonV::Object(
                            seq![("callback_query_id"@, JsonV::Str(callback_query_id@)), ("text"@, JsonV::Str(t@))],
                        ),
                        None => JsonV::Object(seq![("callback_query_id"@, JsonV::Str(callback_query_id@))]),
                    },
                ),
            },
    {
        match self.provider {
            RemoteProvider::Discord => None,
            RemoteProvider::Telegram => {
                let body = match text {
                    Some(t) => obj2("callback_query_id", jstr(callback_query_id), "text", jstr(t)),
                    None => obj1("callback_query_id", jstr(callback_query_id)),
                };
                Some(RemoteRequest::TelegramCall { method: owned("answerCallbackQuery"), body })
            },
        }
    }

    /// The request that polls for updates; the error when a
    /// Discord client has no DM channel.
    pub fn updates_request(&self, offset: Option<i64>, timeout_secs: i64) -> (r: Result<RemoteRequest, String>)
        ensures
            request_result_view(r) == match self@.0 {
                RemoteProvider::Telegram => Ok::<RequestV, Seq<char>>(
                    RequestV::TelegramCall(
                        "getUpdates"@,
                        get_updates_payload_of(
                            match offset {
                                Some(o) => Some(o as int),
                                None => None,
                            },
                            timeout_secs as int,
                        ),
                    ),
                ),
                RemoteProvider::Discord => match self@.2 {
                    Some(ch) => Ok::<RequestV, Seq<char>>(
                        RequestV::DiscordGet(
                            discord_messages_path_of(
                                ch,
                                match offset {
                                    Some(o) => Some(o as int),
                                    None => None,
                                },
                            ),
                        ),
                    ),
                    None => Err::<RequestV, Seq<char>>("Discord DM channel is required for polling."@),
                },
            },
    {
        match self.provider {
            RemoteProvider::Telegram => Ok(
                RemoteRequest::TelegramCall {
                    method: owned("getUpdates"),
                    body: get_updates_payload(offset, timeout_secs),
                },
            ),
            RemoteProvider::Discord => match &self.channel_id {
                Some(ch) => Ok(RemoteRequest::DiscordGet { path: discord_messages_path(ch.as_str(), offset) }),
                None => Err(owned("Discord DM channel is required for polling.")),
            },
        }
    }

    /// The offset and updates a poll response yields.
    pub fn updates_from_response(&self, offset: Option<i64>, value: &Json) -> (r: Result<
        (Option<i64>, Vec<Json>),
        String,
    >)
        requires
            self@.0 == RemoteProvider::Discord ==> self@.2 is Some,
        ensures
            poll_result_view(r) == match self@.0 {
                RemoteProvider::Telegram => telegram_poll_of(
                    match offset {
                        Some(o) => Some(o as int),
                        None => None,
                    },
                    value@,
                ),
                RemoteProvider::Discord => discord_poll_of(
                    self@.2.unwrap(),
                    match offset {
                        Some(o) => Some(o as int),
                        None => None,
                    },
                    value@,
                ),
            },
    {
        match self.provider {
            RemoteProvider::Telegram => telegram_updates_from_response(offset, value),
            RemoteProvider::Discord => match &self.channel_id {
                Some(ch) => discord_updates_from_response(ch.as_str(), offset, value),
                None => Err(String::new()),
            },
        }
    }
}

/// The DM channel id a Discord "create DM" response names.
pub open spec fn dm_channel_of(value: JsonV) -> Result<Seq<char>, Seq<char>> {
    match jget(value, "id"@) {
        Some(i) => match jas_str(i) {
            Some(t) => Ok(t),
            None => Err("Discord DM channel response missing id."@),
        },
        None => Err("Discord DM channel response missing id."@),
    }
}

/// Reads the DM channel id from a "create DM" response.
pub fn dm_channel_from_response(value: &Json) -> (r: Result<String, String>)
    ensures
        match r {
            Ok(c) => dm_channel_of(value@) == Ok::<Seq<char>, Seq<char>>(c@),
            Err(e) => dm_channel_of(value@) == Err::<Seq<char>, Seq<char>>(e@),
        },
{
    match value.get("id") {
        Some(i) => match i.as_str() {
            Some(t) => Ok(t.clone()),
            None => Err(owned("Discord DM channel response missing id.")),
        },
        None => Err(owned("Discord DM channel response missing id.")),
    }
}

} // verus!
