//! The record that ties a forum topic to an assistant session.
use vstd::prelude::*;

verus! {

/// The assistant session kept for one forum topic of one chat.
#[derive(Clone, Debug)]
pub struct TopicSession {
    pub chat_id: i64,
    pub thread_id: i32,
    pub session_id: String,
    pub cwd: String,
    pub created_at: i64,
}

} // verus!
