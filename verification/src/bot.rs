//! The decisions the bot takes on an incoming message.
use vstd::prelude::*;
use crate::config::{text_of, Config};
use crate::formatter::{error_message, format_error, format_response, response_message};
use crate::store::TopicSession;
use crate::text::{owned, str_equal};

verus! {

/// What to do with an incoming message.
pub enum Route {
    /// Answer nothing.
    Ignore,
    /// Reply with the list of active sessions.
    Status,
    /// Forget the session stored for the topic `thread_id` of chat `chat_id`, so that
    /// the next message there starts a fresh one, and reply with `reply`.
    NewSession { chat_id: i64, thread_id: i32, reply: String },
    /// Forward the given text to the topic's assistant session.
    Prompt(String),
}

/// The user may use the bot (everyone may when the list is empty).
pub open spec fn user_allowed(config: Config, user_id: u64) -> bool {
    config.allowed_users@.is_empty() || config.allowed_users@.contains(user_id)
}

/// The bot answers in the topic (in every topic when the list is empty).
pub open spec fn topic_allowed(config: Config, thread_id: i32) -> bool {
    config.allowed_topics@.is_empty() || config.allowed_topics@.contains(thread_id)
}

/// The id of the sender, 0 when the message has none.
pub open spec fn sender_id(user_id: Option<u64>) -> u64 {
    match user_id {
        Some(id) => id,
        None => 0,
    }
}

/// The forum topic of the message, 0 (the general area) when it has none.
pub open spec fn topic_id(thread_id: Option<i32>) -> i32 {
    match thread_id {
        Some(id) => id,
        None => 0,
    }
}

/// `r` is what to do with a message from `user_id` in topic `thread_id` of chat
/// `chat_id` holding `text` (see `route_message`).
pub open spec fn routes_to(
    config: Config,
    chat_id: i64,
    user_id: Option<u64>,
    thread_id: Option<i32>,
    text: Option<Seq<char>>,
    r: Route,
) -> bool {
    &&& (!user_allowed(config, sender_id(user_id)) ==> r is Ignore)
    &&& (!topic_allowed(config, topic_id(thread_id)) ==> r is Ignore)
    &&& (user_allowed(config, sender_id(user_id)) && topic_allowed(config, topic_id(thread_id))
        ==> match text {
        None => r is Ignore,
        Some(t) => if t == "/status"@ {
            r is Status
        } else if t == "/new"@ {
            r matches Route::NewSession { chat_id: c, thread_id: t, reply } && c == chat_id && t
                == topic_id(thread_id) && reply@ == "Starting a new session for this topic."@
        } else {
            r matches Route::Prompt(p) && p@ == t
        },
    })
}

/// Decides what to do with a message from `user_id` in topic `thread_id` of chat
/// `chat_id` holding `text` (`None` for a message without text): messages of users or in
/// topics that are not allowed, and messages without text, are ignored; `/status` lists
/// the sessions; `/new` forgets the topic's session and announces a fresh one; any other
/// text goes to the assistant.
pub fn route_message(
    config: &Config,
    chat_id: i64,
    user_id: Option<u64>,
    thread_id: Option<i32>,
    text: Option<&str>,
) -> (r: Route)
    ensures
        routes_to(*config, chat_id, user_id, thread_id, match text {
            Some(t) => Some(t@),
            None => None,
        }, r),
{
    let uid: u64 = match user_id {
        Some(id) => id,
        None => 0,
    };
    let tid: i32 = match thread_id {
        Some(id) => id,
        None => 0,
    };
    if !config.is_allowed_user(uid) || !config.is_allowed_topic(tid) {
        return Route::Ignore;
    }
    match text {
        None => Route::Ignore,
        Some(t) => {
            if str_equal(t, "/status") {
                Route::Status
            } else if str_equal(t, "/new") {
                Route::NewSession {
                    chat_id,
                    thread_id: tid,
                    reply: owned("Starting a new session for this topic."),
                }
            } else {
                Route::Prompt(owned(t))
            }
        },
    }
}

/// How to run the assistant for a topic: the session to resume and the working directory.
pub struct RunPlan {
    pub resume: Option<String>,
    pub cwd: String,
}

/// The session a run resumes: the topic's stored session, if any.
pub open spec fn resume_for(existing: Option<TopicSession>) -> Option<Seq<char>> {
    match existing {
        Some(s) => Some(s.session_id@),
        None => None,
    }
}

/// Plans a run: a topic with a stored session resumes it in that session's directory;
/// a topic without one starts a new session in the approved directory.
pub fn plan_run(existing: Option<&TopicSession>, approved_directory: &str) -> (plan: RunPlan)
    ensures
        text_of(plan.resume) == resume_for(match existing {
            Some(s) => Some(*s),
            None => None,
        }),
        match existing {
            Some(s) => plan.cwd@ == s.cwd@,
            None => plan.cwd@ == approved_directory@,
        },
{
    match existing {
        Some(s) => RunPlan { resume: Some(owned(s.session_id.as_str())), cwd: owned(s.cwd.as_str()) },
        None => RunPlan { resume: None, cwd: owned(approved_directory) },
    }
}

/// What follows a run: the session to store, if any, and the reply to send.
pub struct RunOutcome {
    pub save: Option<TopicSession>,
    pub reply: String,
}

/// `out` is what follows the run with `result` in topic `thread_id` of chat `chat_id`,
/// started in `cwd` (see `complete_run`).
pub open spec fn completes(
    result: Result<(String, String), String>,
    chat_id: i64,
    thread_id: i32,
    cwd: Seq<char>,
    existing_created_at: Option<i64>,
    now: i64,
    out: RunOutcome,
) -> bool {
    match result {
        Ok((text, session_id)) => {
            &&& out.save matches Some(s) && {
                &&& s.chat_id == chat_id
                &&& s.thread_id == thread_id
                &&& s.session_id@ == session_id@
                &&& s.cwd@ == cwd
                &&& s.created_at == match existing_created_at {
                    Some(t) => t,
                    None => now,
                }
            }
            &&& out.reply@ == response_message(text@)
        },
        Err(e) => out.save is None && out.reply@ == error_message(e@),
    }
}

/// Completes a run in topic `thread_id` of chat `chat_id`, started in `cwd`: a successful
/// run stores the session it reports for the topic (keeping the creation time of the
/// topic's earlier session, else `now`) and replies with the formatted response; a failed
/// run stores nothing and replies with the error.
pub fn complete_run(
    result: Result<(String, String), String>,
    chat_id: i64,
    thread_id: i32,
    cwd: String,
    existing_created_at: Option<i64>,
    now: i64,
) -> (out: RunOutcome)
    ensures
        completes(result, chat_id, thread_id, cwd@, existing_created_at, now, out),
{
    match result {
        Ok((text, session_id)) => {
            let created_at = match existing_created_at {
                Some(t) => t,
                None => now,
            };
            let reply = format_response(text.as_str());
            RunOutcome {
                save: Some(TopicSession { chat_id, thread_id, session_id, cwd, created_at }),
                reply,
            }
        },
        Err(e) => RunOutcome { save: None, reply: format_error(e.as_str()) },
    }
}

/// The session stored for topic `thread_id` of chat `chat_id` in a table of sessions
/// keyed by chat and topic.
pub open spec fn stored(table: Map<(i64, i32), TopicSession>, chat_id: i64, thread_id: i32) -> Option<TopicSession> {
    if table.contains_key((chat_id, thread_id)) {
        Some(table[(chat_id, thread_id)])
    } else {
        None
    }
}

/// The table after acting on a route: `/new` forgets the topic's session.
pub open spec fn after_route(table: Map<(i64, i32), TopicSession>, r: Route) -> Map<(i64, i32), TopicSession> {
    match r {
        Route::NewSession { chat_id, thread_id, .. } => table.remove((chat_id, thread_id)),
        _ => table,
    }
}

/// The table after a run, as the store saves: the session the run reports is stored
/// under its topic; a topic that already has a record keeps its directory and creation
/// time and takes the new session id.
pub open spec fn after_run(table: Map<(i64, i32), TopicSession>, out: RunOutcome) -> Map<(i64, i32), TopicSession> {
    match out.save {
        Some(s) => if table.contains_key((s.chat_id, s.thread_id)) {
            table.insert((s.chat_id, s.thread_id), TopicSession { session_id: s.session_id, ..table[(s.chat_id, s.thread_id)] })
        } else {
            table.insert((s.chat_id, s.thread_id), s)
        },
        None => table,
    }
}

/// After `/new`, the topic has no stored session, so its next message starts a fresh
/// session (`plan_run` resumes nothing); other topics keep theirs.
pub proof fn lemma_new_starts_fresh(
    config: Config,
    table: Map<(i64, i32), TopicSession>,
    chat_id: i64,
    user_id: Option<u64>,
    thread_id: Option<i32>,
    r: Route,
)
    requires
        routes_to(config, chat_id, user_id, thread_id, Some("/new"@), r),
        user_allowed(config, sender_id(user_id)),
        topic_allowed(config, topic_id(thread_id)),
    ensures
        stored(after_route(table, r), chat_id, topic_id(thread_id)) is None,
        resume_for(stored(after_route(table, r), chat_id, topic_id(thread_id))) is None,
        forall|c: i64, t: i32|
            (c, t) != (chat_id, topic_id(thread_id)) ==> #[trigger] stored(after_route(table, r), c, t)
                == stored(table, c, t),
{
    reveal_strlit("/new");
    reveal_strlit("/status");
    assert("/new"@ != "/status"@) by {
        assert("/new"@[1] != "/status"@[1]);
    }
}

/// A message in one topic changes no other topic's stored session: neither the route
/// it takes nor the run it leads to.
pub proof fn lemma_message_stays_in_its_topic(
    config: Config,
    table: Map<(i64, i32), TopicSession>,
    chat_id: i64,
    user_id: Option<u64>,
    thread_id: Option<i32>,
    text: Option<Seq<char>>,
    r: Route,
    result: Result<(String, String), String>,
    cwd: Seq<char>,
    existing_created_at: Option<i64>,
    now: i64,
    out: RunOutcome,
    c: i64,
    t: i32,
)
    requires
        routes_to(config, chat_id, user_id, thread_id, text, r),
        completes(result, chat_id, topic_id(thread_id), cwd, existing_created_at, now, out),
        (c, t) != (chat_id, topic_id(thread_id)),
    ensures
        stored(after_route(table, r), c, t) == stored(table, c, t),
        stored(after_run(after_route(table, r), out), c, t) == stored(table, c, t),
{
    if r is NewSession {
        reveal_strlit("/new");
        reveal_strlit("/status");
    }
}

/// A successful run in a topic stores, for that topic, the session the run reports,
/// in the directory and with the creation time of the topic's earlier record, or, for a
/// topic without one, in `cwd` and created `now`.
pub proof fn lemma_run_stores_its_session(
    table: Map<(i64, i32), TopicSession>,
    text: String,
    session_id: String,
    chat_id: i64,
    thread_id: i32,
    cwd: Seq<char>,
    now: i64,
    out: RunOutcome,
)
    requires
        completes(
            Ok((text, session_id)),
            chat_id,
            thread_id,
            cwd,
            match stored(table, chat_id, thread_id) {
                Some(s) => Some(s.created_at),
                None => None,
            },
            now,
            out,
        ),
    ensures
        stored(after_run(table, out), chat_id, thread_id) matches Some(s) && s.session_id@ == session_id@
            && match stored(table, chat_id, thread_id) {
            Some(e) => s.cwd == e.cwd && s.created_at == e.created_at,
            None => s.cwd@ == cwd && s.created_at == now,
        },
{
}

} // verus!
