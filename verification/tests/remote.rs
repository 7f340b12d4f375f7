use multiagent::auth_poll::{
    confirmation_text, start_remote_auth_poll, start_telegram_auth_poll, AuthPollEvent, AuthPollOutcome,
};
use multiagent::chunk::{chunk_discord_message, chunk_telegram_plain_message, try_chunk_message};
use multiagent::json::Json;
use multiagent::remote::{
    chunk_message_for_provider, discord_error_from_response, discord_messages_path,
    discord_message_to_update, discord_text_from_html, discord_updates_from_response, discord_url,
    dm_channel_from_response,
    extract_auth_match, get_updates_payload, message_id_from_response,
    telegram_updates_from_response, telegram_url, token_check_from_response, RemoteProvider,
    RemoteRequest, TelegramClient,
};

fn text(s: &str) -> Json {
    Json::Str(s.to_string())
}

fn object(members: Vec<(&str, Json)>) -> Json {
    Json::Object(members.into_iter().map(|(k, v)| (k.to_string(), v)).collect())
}

#[test]
fn providers_by_name() {
    assert_eq!(RemoteProvider::from_str("  TeleGram "), RemoteProvider::Telegram);
    assert_eq!(RemoteProvider::from_str("discord"), RemoteProvider::Discord);
    assert_eq!(RemoteProvider::from_str("anything"), RemoteProvider::Discord);
    assert_eq!(RemoteProvider::Telegram.label(), "Telegram");
    assert_eq!(RemoteProvider::Discord.label(), "Discord");
}

#[test]
fn api_addresses() {
    assert_eq!(discord_url("/users/@me"), "https://discord.com/api/v10/users/@me");
    assert_eq!(discord_url("//channels/1"), "https://discord.com/api/v10/channels/1");
    assert_eq!(telegram_url(" tok ", "/getMe"), "https://api.telegram.org/bottok/getMe");
    assert_eq!(discord_messages_path("c1", None), "/channels/c1/messages?limit=20");
    assert_eq!(discord_messages_path("c1", Some(-5)), "/channels/c1/messages?limit=20&after=-5");
}

#[test]
fn html_to_discord_markdown() {
    assert_eq!(
        discord_text_from_html("<b>Hi</b> &lt;x&gt; &amp;amp;<br><code>c</code><pre>p</pre>"),
        "**Hi** <x> &amp;\n`c````p```"
    );
}

#[test]
fn message_ids_and_errors_from_responses() {
    assert_eq!(
        message_id_from_response(RemoteProvider::Discord, &object(vec![("id", text("123"))])),
        Some(123)
    );
    assert_eq!(
        message_id_from_response(RemoteProvider::Discord, &object(vec![("id", Json::Number(123))])),
        None
    );
    assert_eq!(
        message_id_from_response(
            RemoteProvider::Telegram,
            &object(vec![("result", object(vec![("message_id", Json::Number(9))]))])
        ),
        Some(9)
    );
    assert_eq!(
        discord_error_from_response(&object(vec![("message", text(" bad token "))]), "Discord request failed"),
        "Discord request failed: bad token"
    );
    assert_eq!(
        discord_error_from_response(&object(vec![("message", text("  "))]), "Discord request failed"),
        "Discord request failed"
    );
    assert_eq!(dm_channel_from_response(&object(vec![("id", text("55"))])), Ok("55".to_string()));
    assert_eq!(
        dm_channel_from_response(&object(vec![])),
        Err("Discord DM channel response missing id.".to_string())
    );
}

#[test]
fn token_checks() {
    assert_eq!(
        token_check_from_response(RemoteProvider::Discord, &object(vec![("id", text("1"))])),
        Ok(())
    );
    assert_eq!(
        token_check_from_response(RemoteProvider::Discord, &object(vec![])),
        Err("Discord token verification failed: response missing bot user id.".to_string())
    );
    assert_eq!(
        token_check_from_response(
            RemoteProvider::Telegram,
            &object(vec![("result", object(vec![("id", Json::Number(1))]))])
        ),
        Ok(())
    );
    assert_eq!(
        token_check_from_response(RemoteProvider::Telegram, &object(vec![("result", object(vec![]))])),
        Err("Telegram token verification failed: response missing bot id.".to_string())
    );
}

#[test]
fn auth_code_matches() {
    let update = object(vec![(
        "message",
        object(vec![
            ("text", text(" 123456 ")),
            ("chat", object(vec![("id", Json::Number(42))])),
            ("from", object(vec![("id", text("7")), ("username", text("bob"))])),
        ]),
    )]);
    let found = extract_auth_match(&update, "123456").expect("code matches");
    assert_eq!(found.chat_id, "42");
    assert_eq!(found.user_id, "7");
    assert_eq!(found.username, Some("bob".to_string()));
    assert!(extract_auth_match(&update, "654321").is_none());
    let quoted = object(vec![(
        "message",
        object(vec![
            ("text", text("1")),
            ("chat", object(vec![("id", text("a\"b"))])),
            ("from", object(vec![("id", Json::Number(-3))])),
        ]),
    )]);
    let m = extract_auth_match(&quoted, "1").expect("match");
    assert_eq!(m.chat_id, "a\\\"b");
    assert_eq!(m.user_id, "-3");
    assert_eq!(m.username, None);
}

#[test]
fn telegram_update_pages() {
    let page = object(vec![
        ("ok", Json::Bool(true)),
        (
            "result",
            Json::Array(vec![
                object(vec![("update_id", Json::Number(5))]),
                object(vec![("update_id", Json::Number(9))]),
            ]),
        ),
    ]);
    let (next, updates) = telegram_updates_from_response(None, &page).unwrap();
    assert_eq!(next, Some(10));
    assert!(updates.is_empty());
    let (next, updates) = telegram_updates_from_response(Some(3), &page).unwrap();
    assert_eq!(next, Some(10));
    assert_eq!(updates.len(), 2);
    let empty = object(vec![("result", Json::Array(vec![]))]);
    assert_eq!(telegram_updates_from_response(Some(3), &empty).unwrap().0, Some(3));
    assert_eq!(
        telegram_updates_from_response(None, &object(vec![])).err(),
        Some("Telegram getUpdates response missing result array.".to_string())
    );
    assert_eq!(
        get_updates_payload(Some(7), 45).to_compact(),
        "{\"allowed_updates\":[\"message\",\"callback_query\"],\"limit\":20,\"offset\":7,\"timeout\":30}"
    );
    assert_eq!(
        get_updates_payload(None, -1).to_compact(),
        "{\"allowed_updates\":[\"message\",\"callback_query\"],\"limit\":20,\"timeout\":0}"
    );
}

#[test]
fn discord_update_pages() {
    let messages = Json::Array(vec![
        object(vec![
            ("id", text("105")),
            ("content", text("123456")),
            ("author", object(vec![("id", text("u1")), ("username", text("ann"))])),
        ]),
        object(vec![
            ("id", text("104")),
            ("content", text("bot says")),
            ("author", object(vec![("id", text("b1")), ("bot", Json::Bool(true))])),
        ]),
        object(vec![("id", text("x"))]),
    ]);
    let (next, updates) = discord_updates_from_response("c1", None, &messages).unwrap();
    assert_eq!(next, Some(106));
    assert!(updates.is_empty());
    let (next, updates) = discord_updates_from_response("c1", Some(100), &messages).unwrap();
    assert_eq!(next, Some(106));
    assert_eq!(updates.len(), 1);
    assert_eq!(
        updates[0].to_compact(),
        "{\"message\":{\"chat\":{\"id\":\"c1\"},\"from\":{\"id\":\"u1\",\"is_bot\":false,\"username\":\"ann\"},\"message_id\":105,\"reply_to_message\":null,\"text\":\"123456\"},\"update_id\":105}"
    );
    assert_eq!(
        discord_updates_from_response("c1", Some(1), &object(vec![])).err(),
        Some("Discord messages response was not an array.".to_string())
    );
}

#[test]
fn message_chunks() {
    assert_eq!(chunk_discord_message("short"), vec!["short".to_string()]);
    let a = "a".repeat(1000);
    let b = "b".repeat(1000);
    let long = format!("{a} {b}");
    assert_eq!(chunk_discord_message(&long), vec![a.clone(), b.clone()]);
    assert_eq!(chunk_telegram_plain_message(&long), vec![long.clone()]);
    assert_eq!(
        chunk_message_for_provider(RemoteProvider::Discord, &long),
        vec![a.clone(), b.clone()]
    );
    assert_eq!(
        try_chunk_message("abcdef", 4),
        Some(vec!["abcd".to_string(), "ef".to_string()])
    );
    assert_eq!(
        try_chunk_message(" ab\ncd ef ", 6),
        Some(vec!["ab".to_string(), "cd ef".to_string()])
    );
    assert_eq!(try_chunk_message("ééé", 3), None);
    let words = "word ".repeat(1000);
    let chunks = chunk_discord_message(&words);
    assert!(chunks.len() > 1);
    assert!(chunks.iter().all(|c| c.len() <= 1900 && !c.is_empty() && c.trim() == c));
}

#[test]
fn client_construction_errors() {
    assert_eq!(TelegramClient::new("  ".to_string()).err(), Some("Discord bot token is required.".to_string()));
    assert_eq!(
        TelegramClient::new_for_channel("tok".to_string(), " ".to_string()).err(),
        Some("Discord chat/channel ID is required.".to_string())
    );
    assert_eq!(
        TelegramClient::new_for_channel_named("telegram", " ".to_string(), "42".to_string()).err(),
        Some("Telegram bot token is required.".to_string())
    );
    assert_eq!(
        TelegramClient::prepare_for_user(RemoteProvider::Discord, "tok".to_string(), " ".to_string()).err(),
        Some("Discord user ID is required.".to_string())
    );
}

#[test]
fn client_requests() {
    let client = TelegramClient::new_for_channel_named("telegram", " tok ".to_string(), " 42 ".to_string())
        .ok()
        .expect("client");
    assert_eq!(client.bot_token(), "tok");
    assert_eq!(client.channel_id().map(|c| c.as_str()), Some("42"));
    assert_eq!(
        client.verify_token_request(),
        RemoteRequest::TelegramCall { method: "getMe".to_string(), body: object(vec![]) }
    );
    let requests = client.plain_message_requests("hi").expect("chat is set");
    assert_eq!(requests.len(), 1);
    match &requests[0] {
        RemoteRequest::TelegramCall { method, body } => {
            assert_eq!(method, "sendMessage");
            assert_eq!(
                body.to_compact(),
                "{\"chat_id\":\"42\",\"disable_web_page_preview\":true,\"text\":\"hi\"}"
            );
        }
        other => panic!("unexpected request {other:?}"),
    }
    let discord = TelegramClient::new("tok".to_string()).ok().expect("client");
    assert_eq!(discord.authorization_value(), "Bot tok");
    assert_eq!(discord.verify_token_request(), RemoteRequest::DiscordGet { path: "/users/@me".to_string() });
    assert_eq!(
        discord.plain_message_requests("hi").err(),
        Some("Discord chat/channel is required for sending.".to_string())
    );
    assert_eq!(
        discord.updates_request(None, 20).err(),
        Some("Discord DM channel is required for polling.".to_string())
    );
    let with_dm = discord.with_channel("99".to_string());
    assert_eq!(
        with_dm.updates_request(Some(5), 20),
        Ok(RemoteRequest::DiscordGet { path: "/channels/99/messages?limit=20&after=5".to_string() })
    );
    assert_eq!(
        with_dm.first_message_id(&vec![object(vec![]), object(vec![("id", text("8"))])]),
        Ok(8)
    );
    assert_eq!(
        with_dm.first_message_id(&vec![]),
        Err("Discord create message response missing id.".to_string())
    );
}

#[test]
fn auth_poll_steps() {
    let mut poll = start_telegram_auth_poll("tok".to_string(), " 7 ".to_string(), " 123456 ".to_string()).unwrap();
    assert_eq!(poll.provider(), RemoteProvider::Discord);
    assert_eq!(poll.expected_code(), "123456");
    assert_eq!(
        poll.auth_prompt(),
        Some("MultiAGENT remote auth\n\nReply in this DM with this 6-digit code:\n123456".to_string())
    );
    poll.set_start_offset(Some(Some(10)));
    assert_eq!(poll.offset(), Some(10));
    let from = |user: &str| {
        object(vec![(
            "message",
            object(vec![
                ("text", text("123456")),
                ("chat", object(vec![("id", text("c"))])),
                ("from", object(vec![("id", text(user))])),
            ]),
        )])
    };
    assert!(matches!(poll.on_updates(Some(12), &vec![from("8")]), AuthPollOutcome::Continue));
    assert_eq!(poll.offset(), Some(12));
    match poll.on_updates(None, &vec![from("8"), from("7")]) {
        AuthPollOutcome::Matched(m) => assert_eq!(m.user_id, "7"),
        other => panic!("unexpected outcome {other:?}"),
    }
    assert_eq!(poll.offset(), Some(12));
    assert_eq!(poll.cancelled_error(), "Discord authentication was cancelled.");
    assert_eq!(poll.timeout_error(), "Timed out waiting for the 6-digit code in Discord (3 minutes).");
}

#[test]
fn auth_poll_gives_up_after_three_errors_in_a_row() {
    let mut poll = start_remote_auth_poll("telegram", "tok".to_string(), String::new(), "1".to_string()).unwrap();
    assert_eq!(poll.auth_prompt(), None);
    assert!(matches!(poll.on_poll_error("e1".to_string()), AuthPollOutcome::Continue));
    assert!(matches!(poll.on_poll_error("e2".to_string()), AuthPollOutcome::Continue));
    assert!(matches!(poll.on_updates(None, &vec![]), AuthPollOutcome::Continue));
    assert!(matches!(poll.on_poll_error("e3".to_string()), AuthPollOutcome::Continue));
    assert!(matches!(poll.on_poll_error("e4".to_string()), AuthPollOutcome::Continue));
    match poll.on_poll_error("e5".to_string()) {
        AuthPollOutcome::Failed(e) => assert_eq!(e, "e5"),
        other => panic!("unexpected outcome {other:?}"),
    }
    assert_eq!(confirmation_text(), "MultiAGENT remote auth complete.");
}

#[test]
fn chunks_drop_only_whitespace() {
    let text = format!("{}\n{}  tail", "alpha beta ".repeat(120), "gamma\tdelta ".repeat(150));
    let chunks = chunk_discord_message(&text);
    assert!(chunks.len() > 1);
    let visible = |s: &str| s.chars().filter(|c| !c.is_whitespace()).collect::<String>();
    assert_eq!(visible(&chunks.concat()), visible(&text));
}

#[test]
fn auth_poll_start_checks_user_then_token() {
    assert_eq!(
        start_remote_auth_poll(" TELEGRAM ", "   ".to_string(), String::new(), "123456".to_string()).err(),
        Some("Telegram bot token is required.".to_string())
    );
    assert_eq!(
        start_remote_auth_poll("Discord", "tok".to_string(), "  ".to_string(), "123456".to_string()).err(),
        Some("Discord user ID is required.".to_string())
    );
    assert_eq!(
        start_remote_auth_poll("Discord", " ".to_string(), " ".to_string(), "123456".to_string()).err(),
        Some("Discord user ID is required.".to_string())
    );
    assert_eq!(
        start_telegram_auth_poll("tok".to_string(), String::new(), "123456".to_string()).err(),
        Some("Discord user ID is required.".to_string())
    );
    assert_eq!(
        start_telegram_auth_poll(" ".to_string(), "7".to_string(), "123456".to_string()).err(),
        Some("Discord bot token is required.".to_string())
    );
}

#[test]
fn auth_poll_run_ends_at_cancel_or_deadline() {
    let mut poll = start_remote_auth_poll("telegram", "tok".to_string(), String::new(), "1".to_string()).unwrap();
    assert!(matches!(poll.step(AuthPollEvent::PollFailed("e".to_string())), AuthPollOutcome::Continue));
    assert!(matches!(poll.step(AuthPollEvent::Polled(Some(4), vec![])), AuthPollOutcome::Continue));
    assert_eq!(poll.offset(), Some(4));
    match poll.step(AuthPollEvent::Cancelled) {
        AuthPollOutcome::Failed(e) => assert_eq!(e, "Telegram authentication was cancelled."),
        other => panic!("unexpected outcome {other:?}"),
    }
    match poll.step(AuthPollEvent::DeadlinePassed) {
        AuthPollOutcome::Failed(e) => assert_eq!(e, "Timed out waiting for the 6-digit code in Telegram (3 minutes)."),
        other => panic!("unexpected outcome {other:?}"),
    }
}

#[test]
fn discord_message_round_trips_through_the_auth_match() {
    let message = object(vec![
        ("id", text("99")),
        ("author", object(vec![("id", text("4242")), ("username", text("ana"))])),
        ("content", text("  123456 ")),
    ]);
    let update = discord_message_to_update("chan-1", &message, 99);
    let found = extract_auth_match(&update, "123456").expect("code matches");
    assert_eq!(found.chat_id, "chan-1");
    assert_eq!(found.user_id, "4242");
    assert_eq!(found.username, Some("ana".to_string()));
    assert!(extract_auth_match(&update, "123457").is_none());
}
