//! The remote authentication poll: the user sends the shown 6-digit code to
//! the bot, and the poll watches incoming updates for it.  The caller runs
//! the loop (requests, sleeping, the deadline, cancellation); the decisions
//! are made here.

use vstd::prelude::*;
use crate::json::{items_view, Json, JsonV};
use crate::remote::{
    auth_match_of, extract_auth_match, match_view, provider_label, provider_named,
    RemoteProvider, TelegramAuthMatch, TelegramClient,
};
use crate::text::{append_str, owned, trim, trimmed};

verus! {

/// How many poll errors in a row end the authentication.
pub const MAX_CONSECUTIVE_POLL_ERRORS: usize = 3;

/// The state of one remote authentication.
pub struct RemoteAuthPoll {
    provider: RemoteProvider,
    bot_token: String,
    user_id: String,
    expected_code: String,
    offset: Option<i64>,
    consecutive_errors: usize,
}

/// The plain values of a poll's state.
pub struct AuthPollV {
    pub provider: RemoteProvider,
    pub bot_token: Seq<char>,
    pub user_id: Seq<char>,
    pub expected_code: Seq<char>,
    pub offset: Option<int>,
    pub consecutive_errors: nat,
}

impl View for RemoteAuthPoll {
    type V = AuthPollV;

    closed spec fn view(&self) -> AuthPollV {
        AuthPollV {
            provider: self.provider,
            bot_token: self.bot_token@,
            user_id: self.user_id@,
            expected_code: self.expected_code@,
            offset: match self.offset {
                Some(o) => Some(o as int),
                None => None,
            },
            consecutive_errors: self.consecutive_errors as nat,
        }
    }
}

/// What a poll step decides.
#[derive(Clone, Debug)]
pub enum AuthPollOutcome {
    /// Keep polling.
    Continue,
    /// The code arrived from this sender.
    Matched(TelegramAuthMatch),
    /// Authentication failed with this error.
    Failed(String),
}

/// The first update in `updates` that carries the expected code from the
/// expected user (any user when the expected user id is blank).
pub open spec fn accepted_match(updates: Seq<JsonV>, expected_code: Seq<char>, user_id: Seq<char>) -> Option<
    (Seq<char>, Seq<char>, Option<Seq<char>>),
>
    decreases updates.len(),
{
    if updates.len() == 0 {
        None
    } else {
        match auth_match_of(updates[0], expected_code) {
            Some(m) => if trim(user_id).len() != 0 && m.1 != trim(user_id) {
                accepted_match(updates.drop_first(), expected_code, user_id)
            } else {
                Some(m)
            },
            None => accepted_match(updates.drop_first(), expected_code, user_id),
        }
    }
}

/// Starts an authentication for the named provider; the code is compared
/// trimmed.
pub open spec fn started(provider: Seq<char>, bot_token: Seq<char>, user_id: Seq<char>, expected_code: Seq<char>) -> AuthPollV {
    AuthPollV {
        provider: provider_named(provider),
        bot_token,
        user_id,
        expected_code: trim(expected_code),
        offset: None,
        consecutive_errors: 0,
    }
}

/// What starting an authentication gives: the user id is checked first
/// (required for Discord), then the bot token; otherwise the poll starts.
pub open spec fn start_of(provider: Seq<char>, bot_token: Seq<char>, user_id: Seq<char>, expected_code: Seq<char>) -> Result<
    AuthPollV,
    Seq<char>,
> {
    let p = provider_named(provider);
    if p == RemoteProvider::Discord && trim(user_id).len() == 0 {
        Err("Discord user ID is required."@)
    } else if trim(bot_token).len() == 0 {
        Err(provider_label(p) + " bot token is required."@)
    } else {
        Ok(started(provider, bot_token, user_id, expected_code))
    }
}

pub open spec fn poll_result_view(r: Result<RemoteAuthPoll, String>) -> Result<AuthPollV, Seq<char>> {
    match r {
        Ok(p) => Ok(p@),
        Err(e) => Err(e@),
    }
}

/// Starts an authentication for the named provider (`start_remote_auth_poll`):
/// the user id and the bot token are checked as a client for the user
/// checks them, and the error of the first that fails is the result.
pub fn start_remote_auth_poll(provider: &str, bot_token: String, user_id: String, expected_code: String) -> (r:
    Result<RemoteAuthPoll, String>)
    ensures
        poll_result_view(r) == start_of(provider@, bot_token@, user_id@, expected_code@),
{
    let kind = RemoteProvider::from_str(provider);
    match TelegramClient::prepare_for_user(kind, bot_token.clone(), user_id.clone()) {
        Err(e) => Err(e),
        Ok(_) => Ok(
            RemoteAuthPoll {
                provider: kind,
                bot_token,
                user_id,
                expected_code: trimmed(expected_code.as_str()),
                offset: None,
                consecutive_errors: 0,
            },
        ),
    }
}

/// Starts the bot authentication of remote mode (`start_telegram_auth_poll`),
/// which runs over Discord.
pub fn start_telegram_auth_poll(bot_token: String, user_id: String, expected_code: String) -> (r: Result<
    RemoteAuthPoll,
    String,
>)
    ensures
        poll_result_view(r) == start_of("discord"@, bot_token@, user_id@, expected_code@),
        provider_named("discord"@) == RemoteProvider::Discord,
{
    proof {
        reveal_strlit("discord");
        reveal_strlit("telegram");
        assert(crate::text::lower("discord"@) != crate::text::lower("telegram"@)) by {
            assert(crate::text::lower("discord"@)[0] == 'd');
            assert(crate::text::lower("telegram"@)[0] == 't');
        }
        assert(trim("discord"@) == "discord"@) by {
            assert(!crate::text::is_ws("discord"@[0]));
            assert(!crate::text::is_ws("discord"@.last()));
            assert(crate::text::trim_start("discord"@) == "discord"@);
        }
    }
    start_remote_auth_poll("discord", bot_token, user_id, expected_code)
}

/// What happens to a running authentication between two decisions.
pub enum AuthPollEvent {
    /// The user cancelled.
    Cancelled,
    /// The deadline passed.
    DeadlinePassed,
    /// A poll answered with the next offset and these updates.
    Polled(Option<i64>, Vec<Json>),
    /// A poll failed with this error.
    PollFailed(String),
}

/// The plain values of an event.
pub enum AuthEventV {
    Cancelled,
    DeadlinePassed,
    Polled(Option<int>, Seq<JsonV>),
    PollFailed(Seq<char>),
}

/// The plain values of an outcome.
pub enum OutcomeV {
    Continue,
    Matched((Seq<char>, Seq<char>, Option<Seq<char>>)),
    Failed(Seq<char>),
}

pub open spec fn event_view(e: AuthPollEvent) -> AuthEventV {
    match e {
        AuthPollEvent::Cancelled => AuthEventV::Cancelled,
        AuthPollEvent::DeadlinePassed => AuthEventV::DeadlinePassed,
        AuthPollEvent::Polled(o, us) => AuthEventV::Polled(
            match o {
                Some(x) => Some(x as int),
                None => None,
            },
            items_view(us@),
        ),
        AuthPollEvent::PollFailed(e) => AuthEventV::PollFailed(e@),
    }
}

pub open spec fn outcome_view(o: AuthPollOutcome) -> OutcomeV {
    match o {
        AuthPollOutcome::Continue => OutcomeV::Continue,
        AuthPollOutcome::Matched(m) => OutcomeV::Matched(match_view(m)),
        AuthPollOutcome::Failed(e) => OutcomeV::Failed(e@),
    }
}

/// One decision of a running authentication: cancelling and the deadline
/// end it with their errors; a poll is handled as `on_updates` and
/// `on_poll_error` say.
pub open spec fn step_of(s: AuthPollV, e: AuthEventV) -> (AuthPollV, OutcomeV) {
    match e {
        AuthEventV::Cancelled => (s, OutcomeV::Failed(provider_label(s.provider) + " authentication was cancelled."@)),
        AuthEventV::DeadlinePassed => (
            s,
            OutcomeV::Failed(
                "Timed out waiting for the 6-digit code in "@ + provider_label(s.provider) + " (3 minutes)."@,
            ),
        ),
        AuthEventV::Polled(next, us) => {
            let s2 = AuthPollV {
                offset: match next {
                    Some(o) => Some(o),
                    None => s.offset,
                },
                consecutive_errors: 0,
                ..s
            };
            match accepted_match(us, s.expected_code, s.user_id) {
                Some(m) => (s2, OutcomeV::Matched(m)),
                None => (s2, OutcomeV::Continue),
            }
        },
        AuthEventV::PollFailed(err) => {
            let n: nat = if s.consecutive_errors >= usize::MAX {
                s.consecutive_errors
            } else {
                (s.consecutive_errors + 1) as nat
            };
            let s2 = AuthPollV { consecutive_errors: n, ..s };
            if n >= MAX_CONSECUTIVE_POLL_ERRORS {
                (s2, OutcomeV::Failed(err))
            } else {
                (s2, OutcomeV::Continue)
            }
        },
    }
}

/// The outcome of an authentication fed these events in turn: that of the
/// first step that does not continue, or none while every step continues.
pub open spec fn run_of(s: AuthPollV, events: Seq<AuthEventV>) -> Option<OutcomeV>
    decreases events.len(),
{
    if events.len() == 0 {
        None
    } else {
        let (s2, o) = step_of(s, events[0]);
        match o {
            OutcomeV::Continue => run_of(s2, events.drop_first()),
            _ => Some(o),
        }
    }
}

/// One authentication run ends in exactly one outcome: a run that reaches a
/// cancellation or the deadline has ended, what it ended with is a match or
/// an error, and events after the end change nothing.
pub proof fn law_auth_run_ends_once(s: AuthPollV, events: Seq<AuthEventV>, rest: Seq<AuthEventV>)
    ensures
        events.len() > 0 && (events.last() is Cancelled || events.last() is DeadlinePassed) ==> run_of(
            s,
            events,
        ) is Some,
        run_of(s, events) matches Some(o) ==> !(o is Continue) && run_of(s, events + rest) == run_of(
            s,
            events,
        ),
    decreases events.len(),
{
    if events.len() > 0 {
        let (s2, o) = step_of(s, events[0]);
        assert((events + rest)[0] == events[0]);
        assert((events + rest).drop_first() =~= events.drop_first() + rest);
        if o is Continue {
            law_auth_run_ends_once(s2, events.drop_first(), rest);
            if events.len() == 1 {
                assert(!(events.last() is Cancelled || events.last() is DeadlinePassed));
            } else {
                assert(events.drop_first().last() == events.last());
            }
        }
    }
}

impl RemoteAuthPoll {
    /// The provider.
    pub fn provider(&self) -> (r: RemoteProvider)
        ensures
            r == self@.provider,
    {
        self.provider
    }

    /// The bot token.
    pub fn bot_token(&self) -> (r: &String)
        ensures
            r@ == self@.bot_token,
    {
        &self.bot_token
    }

    /// The user id the code must come from, as given.
    pub fn user_id(&self) -> (r: &String)
        ensures
            r@ == self@.user_id,
    {
        &self.user_id
    }

    /// The trimmed code.
    pub fn expected_code(&self) -> (r: &String)
        ensures
            r@ == self@.expected_code,
    {
        &self.expected_code
    }

    /// The offset of the next poll.
    pub fn offset(&self) -> (r: Option<i64>)
        ensures
            match r {
                Some(o) => self@.offset == Some(o as int),
                None => self@.offset is None,
            },
    {
        self.offset
    }

    /// The prompt to send in the Discord DM before polling; Telegram users
    /// write to the bot first, so there is none.
    pub fn auth_prompt(&self) -> (r: Option<String>)
        ensures
            match self@.provider {
                RemoteProvider::Discord => r matches Some(t) && t@ == "MultiAGENT remote auth\n\nReply in this DM with this 6-digit code:\n"@ + self@.expected_code,
                RemoteProvider::Telegram => r is None,
            },
    {
        match self.provider {
            RemoteProvider::Discord => {
                let mut t = owned("MultiAGENT remote auth\n\nReply in this DM with this 6-digit code:\n");
                append_str(&mut t, self.expected_code.as_str());
                Some(t)
            },
            RemoteProvider::Telegram => None,
        }
    }

    /// Takes the offset from the first poll, made only to skip older
    /// updates; a failed first poll leaves no offset.
    pub fn set_start_offset(&mut self, first_poll: Option<Option<i64>>)
        ensures
            final(self)@ == (AuthPollV {
                offset: match first_poll {
                    Some(Some(o)) => Some(o as int),
                    _ => None,
                },
                ..old(self)@
            }),
    {
        self.offset = match first_poll {
            Some(o) => o,
            None => None,
        };
    }

    /// Handles a successful poll: errors reset, the offset advances (kept
    /// when the poll gives none), and the first update with the code from
    /// the expected user ends the authentication.
    #[verifier::loop_isolation(false)]
    pub fn on_updates(&mut self, next_offset: Option<i64>, updates: &Vec<Json>) -> (r: AuthPollOutcome)
        ensures
            final(self)@ == (AuthPollV {
                offset: match next_offset {
                    Some(o) => Some(o as int),
                    None => old(self)@.offset,
                },
                consecutive_errors: 0,
                ..old(self)@
            }),
            match r {
                AuthPollOutcome::Matched(m) => accepted_match(
                    items_view(updates@),
                    old(self)@.expected_code,
                    old(self)@.user_id,
                ) == Some(match_view(m)),
                AuthPollOutcome::Continue => accepted_match(
                    items_view(updates@),
                    old(self)@.expected_code,
                    old(self)@.user_id,
                ) is None,
                AuthPollOutcome::Failed(_) => false,
            },
    {
        self.consecutive_errors = 0;
        self.offset = match next_offset {
            Some(o) => Some(o),
            None => self.offset,
        };
        let user = trimmed(self.user_id.as_str());
        let ghost us = items_view(updates@);
        proof {
            crate::json::lemma_items_view(updates@);
            assert(us.skip(0) =~= us);
        }
        let mut i: usize = 0;
        while i < updates.len()
            invariant
                i <= updates.len() == us.len(),
                us == items_view(updates@),
                forall|j: int| 0 <= j < us.len() ==> #[trigger] us[j] == crate::json::json_view(updates@[j]),
                user@ == trim(self.user_id@),
                accepted_match(us, self.expected_code@, self.user_id@) == accepted_match(
                    us.skip(i as int),
                    self.expected_code@,
                    self.user_id@,
                ),
            decreases updates.len() - i,
        {
            proof {
                assert(us.skip(i as int)[0] == us[i as int]);
                assert(us.skip(i as int).drop_first() =~= us.skip(i + 1));
            }
            match extract_auth_match(&updates[i], self.expected_code.as_str()) {
                Some(found) => {
                    if user.as_str().is_empty() || found.user_id == user {
                        return AuthPollOutcome::Matched(found);
                    }
                },
                None => {},
            }
            i = i + 1;
        }
        AuthPollOutcome::Continue
    }

    /// Handles a failed poll: the third failure in a row ends the
    /// authentication with that error.
    pub fn on_poll_error(&mut self, err: String) -> (r: AuthPollOutcome)
        ensures
            final(self)@ == (AuthPollV {
                consecutive_errors: if old(self)@.consecutive_errors >= usize::MAX {
                    old(self)@.consecutive_errors
                } else {
                    (old(self)@.consecutive_errors + 1) as nat
                },
                ..old(self)@
            }),
            match r {
                AuthPollOutcome::Failed(e) => e@ == err@ && final(self)@.consecutive_errors
                    >= MAX_CONSECUTIVE_POLL_ERRORS,
                AuthPollOutcome::Continue => final(self)@.consecutive_errors < MAX_CONSECUTIVE_POLL_ERRORS,
                AuthPollOutcome::Matched(_) => false,
            },
    {
        if self.consecutive_errors < usize::MAX {
            self.consecutive_errors = self.consecutive_errors + 1;
        }
        if self.consecutive_errors >= MAX_CONSECUTIVE_POLL_ERRORS {
            AuthPollOutcome::Failed(err)
        } else {
            AuthPollOutcome::Continue
        }
    }

    /// One decision of the running authentication (`step_of`).
    pub fn step(&mut self, event: AuthPollEvent) -> (r: AuthPollOutcome)
        ensures
            (final(self)@, outcome_view(r)) == step_of(old(self)@, event_view(event)),
    {
        match event {
            AuthPollEvent::Cancelled => AuthPollOutcome::Failed(self.cancelled_error()),
            AuthPollEvent::DeadlinePassed => AuthPollOutcome::Failed(self.timeout_error()),
            AuthPollEvent::Polled(next, updates) => self.on_updates(next, &updates),
            AuthPollEvent::PollFailed(err) => self.on_poll_error(err),
        }
    }

    /// The error when the user cancels.
    pub fn cancelled_error(&self) -> (r: String)
        ensures
            r@ == provider_label(self@.provider) + " authentication was cancelled."@,
    {
        let mut e = owned(self.provider.label());
        append_str(&mut e, " authentication was cancelled.");
        e
    }

    /// The error when the deadline passes without the code.
    pub fn timeout_error(&self) -> (r: String)
        ensures
            r@ == "Timed out waiting for the 6-digit code in "@ + provider_label(self@.provider)
                + " (3 minutes)."@,
    {
        let mut e = owned("Timed out waiting for the 6-digit code in ");
        append_str(&mut e, self.provider.label());
        append_str(&mut e, " (3 minutes).");
        e
    }

    /// The chat a confirmation is sent to once the code arrived: Telegram
    /// confirms in the sender's chat; Discord does not.
    pub fn confirmation_chat(&self, found: &TelegramAuthMatch) -> (r: Option<String>)
        ensures
            match self@.provider {
                RemoteProvider::Telegram => r matches Some(c) && c@ == found.chat_id@,
                RemoteProvider::Discord => r is None,
            },
    {
        match self.provider {
            RemoteProvider::Telegram => Some(found.chat_id.clone()),
            RemoteProvider::Discord => None,
        }
    }
}

/// The text of the confirmation sent once the code arrived.
pub fn confirmation_text() -> (r: String)
    ensures
        r@ == "MultiAGENT remote auth complete."@,
{
    owned("MultiAGENT remote auth complete.")
}

} // verus!
