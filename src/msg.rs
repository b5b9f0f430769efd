use vstd::prelude::*;

use crate::state::{Comment, Thread};

verus! {

/// Setting up a store takes no parameters.
#[derive(Clone, Debug, PartialEq, Eq)]
pub struct InstantiateMsg {}

/// The operations that change the store.
#[derive(Clone, Debug, PartialEq, Eq)]
pub enum ExecuteMsg {
    CreateThread { title: String, content: String, category: String },
    UpdateThreadContent { id: u64, content: String },
    AddComment { thread_id: u64, comment: String },
    UpdateComment { comment_id: u64, comment: String },
}

/// The read-only lookups.
#[derive(Clone, Debug, PartialEq, Eq)]
pub enum QueryMsg {
    GetThreadById { id: u64 },
    GetThreadsByCategory { category: String, offset: Option<u64>, limit: Option<u32> },
    GetThreadsByAuthor { author: String, offset: Option<u64>, limit: Option<u32> },
    GetCommentById { id: u64 },
    GetCommentsByThread { thread_id: u64, offset: Option<u64>, limit: Option<u32> },
}

/// One thread, as a lookup by id returns it.
#[derive(Clone, Debug, PartialEq, Eq)]
pub struct GetThreadByIdResponse {
    pub id: u64,
    pub title: String,
    pub content: String,
    pub category: String,
    pub author: String,
}

/// One page of threads.
#[derive(Clone, Debug, PartialEq, Eq)]
pub struct ThreadsResponse {
    pub entries: Vec<Thread>,
}

/// One page of comments.
#[derive(Clone, Debug, PartialEq, Eq)]
pub struct CommentsResponse {
    pub entries: Vec<Comment>,
}

/// The answer to a lookup.
#[derive(Clone, Debug, PartialEq, Eq)]
pub enum QueryResponse {
    Thread(GetThreadByIdResponse),
    Threads(ThreadsResponse),
    Comment(Comment),
    Comments(CommentsResponse),
}

} // verus!
