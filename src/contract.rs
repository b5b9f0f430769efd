use vstd::prelude::*;

use crate::error::ContractError;
use crate::index::MultiIndex;
use crate::msg::{
    CommentsResponse, ExecuteMsg, GetThreadByIdResponse, InstantiateMsg, QueryMsg, QueryResponse,
    ThreadsResponse,
};
use crate::page::{clamp_limit, effective_limit, lemma_page_within, page, page_ids};
use crate::state::{
    comment_ids_by_thread, comments_at, lemma_comment_ids_absent, lemma_comment_ids_push,
    lemma_comment_ids_sound, lemma_comment_ids_update, lemma_thread_ids_push,
    lemma_thread_ids_sound, lemma_thread_ids_update, thread_ids_by, threads_at, Comment, Store,
    Thread, ThreadField, ThreadIndexes,
};

verus! {

/// `post` is `pre` with a new thread by `author` appended under id `id`, the next id.
pub open spec fn thread_created(
    pre: Store,
    post: Store,
    author: String,
    title: String,
    content: String,
    category: String,
    id: u64,
) -> bool {
    &&& id == pre.thread_counter + 1
    &&& post.thread_counter == id
    &&& post.threads@ == pre.threads@.push(
        Thread { id, title, content, author, category },
    )
    &&& post.comments@ == pre.comments@
    &&& post.comment_counter == pre.comment_counter
    &&& post.admin == pre.admin
}

/// Outcome of `caller` setting the content of thread `id`: refused and unchanged when the
/// thread is missing or `caller` is not its author, else the content alone replaced.
pub open spec fn thread_content_updated(
    pre: Store,
    post: Store,
    caller: String,
    id: u64,
    content: String,
    r: Result<(), ContractError>,
) -> bool {
    if !pre.has_thread(id) {
        r == Err::<(), ContractError>(ContractError::NotFound) && post == pre
    } else if pre.thread(id).author@ != caller@ {
        r == Err::<(), ContractError>(ContractError::Unauthorized) && post == pre
    } else {
        &&& r == Ok::<(), ContractError>(())
        &&& post.threads@ == pre.threads@.update(id - 1, Thread { content, ..pre.thread(id) })
        &&& post.thread_counter == pre.thread_counter
        &&& post.comments@ == pre.comments@
        &&& post.comment_counter == pre.comment_counter
        &&& post.admin == pre.admin
    }
}

/// Outcome of `caller` commenting on thread `thread_id`: refused and unchanged when the thread
/// is missing, else a new comment appended under the next comment id.
pub open spec fn comment_added(
    pre: Store,
    post: Store,
    caller: String,
    thread_id: u64,
    text: String,
    r: Result<u64, ContractError>,
) -> bool {
    if !pre.has_thread(thread_id) {
        r == Err::<u64, ContractError>(ContractError::ThreadNotExists) && post == pre
    } else {
        &&& r is Ok
        &&& r->Ok_0 == pre.comment_counter + 1
        &&& post.comment_counter == r->Ok_0
        &&& post.comments@ == pre.comments@.push(
            Comment { comment_id: r->Ok_0, thread_id, comment: text, author: caller },
        )
        &&& post.threads@ == pre.threads@
        &&& post.thread_counter == pre.thread_counter
        &&& post.admin == pre.admin
    }
}

/// Outcome of `caller` setting the text of comment `id`: refused and unchanged when the
/// comment is missing or `caller` is not its author, else the text alone replaced.
pub open spec fn comment_updated(
    pre: Store,
    post: Store,
    caller: String,
    id: u64,
    text: String,
    r: Result<(), ContractError>,
) -> bool {
    if !pre.has_comment(id) {
        r == Err::<(), ContractError>(ContractError::NotFound) && post == pre
    } else if pre.comment(id).author@ != caller@ {
        r == Err::<(), ContractError>(ContractError::Unauthorized) && post == pre
    } else {
        &&& r == Ok::<(), ContractError>(())
        &&& post.comments@ == pre.comments@.update(id - 1, Comment { comment: text, ..pre.comment(id) })
        &&& post.comment_counter == pre.comment_counter
        &&& post.threads@ == pre.threads@
        &&& post.thread_counter == pre.thread_counter
        &&& post.admin == pre.admin
    }
}

/// The answer to a lookup of thread `id`.
pub open spec fn thread_by_id(s: Store, id: u64) -> Result<GetThreadByIdResponse, ContractError> {
    if s.has_thread(id) {
        let t = s.thread(id);
        Ok(
            GetThreadByIdResponse {
                id: t.id,
                title: t.title,
                content: t.content,
                category: t.category,
                author: t.author,
            },
        )
    } else {
        Err(ContractError::NotFound)
    }
}

/// The answer to a lookup of comment `id`.
pub open spec fn comment_by_id(s: Store, id: u64) -> Result<Comment, ContractError> {
    if s.has_comment(id) {
        Ok(s.comment(id))
    } else {
        Err(ContractError::NotFound)
    }
}

/// One page of the threads filed under `key` in the index on `field`, oldest first, resuming
/// after `offset`.
pub open spec fn threads_page(
    s: Store,
    field: ThreadField,
    key: Seq<char>,
    offset: Option<u64>,
    limit: Option<u32>,
) -> Seq<Thread> {
    threads_at(
        s.threads@,
        page(thread_ids_by(s.threads@, field, key), offset, effective_limit(limit), true),
    )
}

/// One page of the comments on thread `thread_id`, newest first, resuming before `offset`.
pub open spec fn comments_page(
    s: Store,
    thread_id: u64,
    offset: Option<u64>,
    limit: Option<u32>,
) -> Seq<Comment> {
    comments_at(
        s.comments@,
        page(comment_ids_by_thread(s.comments@, thread_id), offset, effective_limit(limit), false),
    )
}

/// An update's result with the id it acted on dropped.
pub open spec fn without_id(r: Result<u64, ContractError>) -> Result<(), ContractError> {
    match r {
        Ok(_) => Ok(()),
        Err(e) => Err(e),
    }
}

/// An empty store whose recorded admin is `sender`.
pub fn instantiate(sender: String, _msg: InstantiateMsg) -> (s: Store)
    ensures
        s.wf(),
        s.admin == sender,
        s.thread_counter == 0,
        s.comment_counter == 0,
        s.threads@.len() == 0,
        s.comments@.len() == 0,
{
    let author = MultiIndex::new();
    let category = MultiIndex::new();
    let s = Store {
        admin: sender,
        thread_counter: 0,
        comment_counter: 0,
        threads: Vec::new(),
        comments: Vec::new(),
        thread_idx: ThreadIndexes { author, category },
        comments_by_thread: Vec::new(),
    };
    assert forall|k: Seq<char>|
        #[trigger] s.thread_idx.author.ids_of(k) == thread_ids_by(
            s.threads@,
            ThreadField::Author,
            k,
        ) by {
        assert(s.thread_idx.author.ids_of(k) == Seq::<u64>::empty());
    }
    assert forall|k: Seq<char>|
        #[trigger] s.thread_idx.category.ids_of(k) == thread_ids_by(
            s.threads@,
            ThreadField::Category,
            k,
        ) by {
        assert(s.thread_idx.category.ids_of(k) == Seq::<u64>::empty());
    }
    s
}

/// Advances the thread counter and returns the new value, the next thread id.
pub fn next_thread_counter(store: &mut Store) -> (id: u64)
    requires
        old(store).thread_counter < u64::MAX,
    ensures
        id == old(store).thread_counter + 1,
        *final(store) == (Store { thread_counter: id, ..*old(store) }),
{
    let id = store.thread_counter + 1;
    store.thread_counter = id;
    id
}

/// Advances the comment counter and returns the new value, the next comment id.
pub fn next_comment_counter(store: &mut Store) -> (id: u64)
    requires
        old(store).comment_counter < u64::MAX,
    ensures
        id == old(store).comment_counter + 1,
        *final(store) == (Store { comment_counter: id, ..*old(store) }),
{
    let id = store.comment_counter + 1;
    store.comment_counter = id;
    id
}

/// Stores a new thread by `sender` and files it in both thread indexes; returns its id.
pub fn create_thread(
    store: &mut Store,
    sender: &String,
    title: String,
    content: String,
    category: String,
) -> (id: u64)
    requires
        old(store).wf(),
        old(store).thread_counter < u64::MAX,
    ensures
        final(store).wf(),
        thread_created(*old(store), *final(store), *sender, title, content, category, id),
{
    let id = next_thread_counter(store);
    let thread = Thread { id, title, content, author: sender.clone(), category };
    store.thread_idx.author.insert(&thread.author, id);
    store.thread_idx.category.insert(&thread.category, id);
    let ghost t = thread;
    let ghost pre = old(store).threads@;
    store.threads.push(thread);
    store.comments_by_thread.push(Vec::new());
    proof {
        assert forall|k: Seq<char>|
            #[trigger] store.thread_idx.author.ids_of(k) == thread_ids_by(
                store.threads@,
                ThreadField::Author,
                k,
            ) by {
            lemma_thread_ids_push(pre, t, ThreadField::Author, k);
        }
        assert forall|k: Seq<char>|
            #[trigger] store.thread_idx.category.ids_of(k) == thread_ids_by(
                store.threads@,
                ThreadField::Category,
                k,
            ) by {
            lemma_thread_ids_push(pre, t, ThreadField::Category, k);
        }
        let cs = store.comments@;
        assert(forall|i: int| 0 <= i < pre.len() ==> store.threads@[i] == pre[i]);
        assert(forall|i: int| 0 <= i < pre.len() ==> store.comments_by_thread@[i] == old(store).comments_by_thread@[i]);
        lemma_comment_ids_absent(cs, id);
        assert(store.comments_by_thread@[pre.len() as int]@ =~= Seq::<u64>::empty());
    }
    id
}

/// Lets the author of thread `id` replace its content. Title, author and category stay, so
/// neither thread index changes.
pub fn update_thread_content(store: &mut Store, sender: &String, id: u64, content: String) -> (r:
    Result<(), ContractError>)
    requires
        old(store).wf(),
    ensures
        final(store).wf(),
        thread_content_updated(*old(store), *final(store), *sender, id, content, r),
{
    if id == 0 || id > store.threads.len() as u64 {
        return Err(ContractError::NotFound);
    }
    let i = (id - 1) as usize;
    if !(store.threads[i].author == *sender) {
        return Err(ContractError::Unauthorized);
    }
    let ghost pre = store.threads@;
    let updated = Thread {
        id: store.threads[i].id,
        title: store.threads[i].title.clone(),
        content,
        author: store.threads[i].author.clone(),
        category: store.threads[i].category.clone(),
    };
    let ghost t = updated;
    store.threads[i] = updated;
    proof {
        assert(store.threads@ == pre.update(i as int, t));
        assert forall|k: Seq<char>|
            #[trigger] store.thread_idx.author.ids_of(k) == thread_ids_by(
                store.threads@,
                ThreadField::Author,
                k,
            ) by {
            lemma_thread_ids_update(pre, i as int, t, ThreadField::Author, k);
        }
        assert forall|k: Seq<char>|
            #[trigger] store.thread_idx.category.ids_of(k) == thread_ids_by(
                store.threads@,
                ThreadField::Category,
                k,
            ) by {
            lemma_thread_ids_update(pre, i as int, t, ThreadField::Category, k);
        }
        assert(forall|j: int| 0 <= j < pre.len() && j != i ==> store.threads@[j] == pre[j]);
    }
    Ok(())
}

/// Adds a comment by `sender` to thread `thread_id`, once that thread is known to exist, and
/// files it under the thread; returns the comment's id. A missing thread consumes no id.
pub fn add_comment(store: &mut Store, sender: &String, thread_id: u64, comment: String) -> (r:
    Result<u64, ContractError>)
    requires
        old(store).wf(),
        old(store).comment_counter < u64::MAX,
    ensures
        final(store).wf(),
        comment_added(*old(store), *final(store), *sender, thread_id, comment, r),
{
    if thread_id == 0 || thread_id > store.threads.len() as u64 {
        return Err(ContractError::ThreadNotExists);
    }
    let comment_id = next_comment_counter(store);
    let new_comment = Comment { comment_id, thread_id, comment, author: sender.clone() };
    let ghost c = new_comment;
    let ghost pre = old(store).comments@;
    let t = (thread_id - 1) as usize;
    store.comments_by_thread[t].push(comment_id);
    store.comments.push(new_comment);
    proof {
        assert(store.comments@ == pre.push(c));
        assert forall|u: int| 0 <= u < store.threads@.len() implies (
        #[trigger] store.comments_by_thread@[u])@ == comment_ids_by_thread(
            store.comments@,
            (u + 1) as u64,
        ) by {
            lemma_comment_ids_push(pre, c, (u + 1) as u64);
            if u != t {
                assert(store.comments_by_thread@[u] == old(store).comments_by_thread@[u]);
            }
        }
        assert(forall|i: int| 0 <= i < pre.len() ==> store.comments@[i] == pre[i]);
    }
    Ok(comment_id)
}

/// Lets the author of comment `comment_id` replace its text. Its thread stays, so the
/// comment index does not change.
pub fn update_comment(store: &mut Store, sender: &String, comment_id: u64, comment: String) -> (r:
    Result<(), ContractError>)
    requires
        old(store).wf(),
    ensures
        final(store).wf(),
        comment_updated(*old(store), *final(store), *sender, comment_id, comment, r),
{
    if comment_id == 0 || comment_id > store.comments.len() as u64 {
        return Err(ContractError::NotFound);
    }
    let i = (comment_id - 1) as usize;
    if !(store.comments[i].author == *sender) {
        return Err(ContractError::Unauthorized);
    }
    let ghost pre = store.comments@;
    let updated = Comment {
        comment_id: store.comments[i].comment_id,
        thread_id: store.comments[i].thread_id,
        comment,
        author: store.comments[i].author.clone(),
    };
    let ghost c = updated;
    store.comments[i] = updated;
    proof {
        assert(store.comments@ == pre.update(i as int, c));
        assert forall|u: int| 0 <= u < store.threads@.len() implies (
        #[trigger] store.comments_by_thread@[u])@ == comment_ids_by_thread(
            store.comments@,
            (u + 1) as u64,
        ) by {
            lemma_comment_ids_update(pre, i as int, c, (u + 1) as u64);
        }
        assert(forall|j: int| 0 <= j < pre.len() && j != i ==> store.comments@[j] == pre[j]);
    }
    Ok(())
}

/// The stored threads that `ids` name, in the order of `ids`.
fn fetch_threads(store: &Store, ids: &Vec<u64>) -> (r: Vec<Thread>)
    requires
        forall|j: int| 0 <= j < ids@.len() ==> store.has_thread(#[trigger] ids@[j]),
    ensures
        r@ == threads_at(store.threads@, ids@),
{
    let mut r: Vec<Thread> = Vec::new();
    let mut j: usize = 0;
    while j < ids.len()
        invariant
            j <= ids@.len(),
            forall|m: int| 0 <= m < ids@.len() ==> store.has_thread(#[trigger] ids@[m]),
            r@ == threads_at(store.threads@, ids@.take(j as int)),
        decreases ids@.len() - j,
    {
        let id = ids[j];
        assert(store.has_thread(ids@[j as int]));
        let len = store.threads.len();
        assert(id <= len);
        let at = (id - 1) as usize;
        assert(at as int == id - 1);
        r.push(store.threads[at].copy());
        assert(threads_at(store.threads@, ids@.take(j as int + 1)) =~= threads_at(
            store.threads@,
            ids@.take(j as int),
        ).push(store.threads@[id - 1]));
        j = j + 1;
    }
    assert(ids@.take(ids@.len() as int) =~= ids@);
    r
}

/// The stored comments that `ids` name, in the order of `ids`.
fn fetch_comments(store: &Store, ids: &Vec<u64>) -> (r: Vec<Comment>)
    requires
        forall|j: int| 0 <= j < ids@.len() ==> store.has_comment(#[trigger] ids@[j]),
    ensures
        r@ == comments_at(store.comments@, ids@),
{
    let mut r: Vec<Comment> = Vec::new();
    let mut j: usize = 0;
    while j < ids.len()
        invariant
            j <= ids@.len(),
            forall|m: int| 0 <= m < ids@.len() ==> store.has_comment(#[trigger] ids@[m]),
            r@ == comments_at(store.comments@, ids@.take(j as int)),
        decreases ids@.len() - j,
    {
        let id = ids[j];
        assert(store.has_comment(ids@[j as int]));
        let len = store.comments.len();
        assert(id <= len);
        let at = (id - 1) as usize;
        assert(at as int == id - 1);
        r.push(store.comments[at].copy());
        assert(comments_at(store.comments@, ids@.take(j as int + 1)) =~= comments_at(
            store.comments@,
            ids@.take(j as int),
        ).push(store.comments@[id - 1]));
        j = j + 1;
    }
    assert(ids@.take(ids@.len() as int) =~= ids@);
    r
}

/// The thread with id `id`.
pub fn query_thread_by_id(store: &Store, id: u64) -> (r: Result<GetThreadByIdResponse, ContractError>)
    ensures
        r == thread_by_id(*store, id),
{
    if id == 0 || id > store.threads.len() as u64 {
        return Err(ContractError::NotFound);
    }
    let t = store.threads[(id - 1) as usize].copy();
    Ok(
        GetThreadByIdResponse {
            id: t.id,
            title: t.title,
            content: t.content,
            category: t.category,
            author: t.author,
        },
    )
}

/// The comment with id `comment_id`.
pub fn query_comment_by_id(store: &Store, comment_id: u64) -> (r: Result<Comment, ContractError>)
    ensures
        r == comment_by_id(*store, comment_id),
{
    if comment_id == 0 || comment_id > store.comments.len() as u64 {
        return Err(ContractError::NotFound);
    }
    Ok(store.comments[(comment_id - 1) as usize].copy())
}

/// One page of the threads in `category`, read through the category index, oldest first.
pub fn query_threads_by_category(
    store: &Store,
    category: String,
    offset: Option<u64>,
    limit: Option<u32>,
) -> (r: ThreadsResponse)
    requires
        store.wf(),
    ensures
        r.entries@ == threads_page(*store, ThreadField::Category, category@, offset, limit),
{
    let n = clamp_limit(limit);
    let ids = store.thread_idx.category.lookup(&category);
    let p = page_ids(&ids, offset, n, true);
    proof {
        lemma_page_within(ids@, offset, n as nat, true);
        lemma_thread_ids_sound(store.threads@, ThreadField::Category, category@);
        assert forall|j: int| 0 <= j < p@.len() implies store.has_thread(#[trigger] p@[j]) by {
            assert(p@.contains(p@[j]));
            let m = choose|m: int| 0 <= m < ids@.len() && ids@[m] == p@[j];
            assert(ids@[m] == thread_ids_by(store.threads@, ThreadField::Category, category@)[m]);
        }
    }
    ThreadsResponse { entries: fetch_threads(store, &p) }
}

/// One page of the threads by `author`, read through the author index, oldest first.
pub fn query_threads_by_author(
    store: &Store,
    author: String,
    offset: Option<u64>,
    limit: Option<u32>,
) -> (r: ThreadsResponse)
    requires
        store.wf(),
    ensures
        r.entries@ == threads_page(*store, ThreadField::Author, author@, offset, limit),
{
    let n = clamp_limit(limit);
    let ids = store.thread_idx.author.lookup(&author);
    let p = page_ids(&ids, offset, n, true);
    proof {
        lemma_page_within(ids@, offset, n as nat, true);
        lemma_thread_ids_sound(store.threads@, ThreadField::Author, author@);
        assert forall|j: int| 0 <= j < p@.len() implies store.has_thread(#[trigger] p@[j]) by {
            assert(p@.contains(p@[j]));
            let m = choose|m: int| 0 <= m < ids@.len() && ids@[m] == p@[j];
            assert(ids@[m] == thread_ids_by(store.threads@, ThreadField::Author, author@)[m]);
        }
    }
    ThreadsResponse { entries: fetch_threads(store, &p) }
}

/// One page of the comments on thread `thread_id`, read through the thread's comment index,
/// newest first. A thread that does not exist has no comments.
pub fn query_comments_by_thread(
    store: &Store,
    thread_id: u64,
    offset: Option<u64>,
    limit: Option<u32>,
) -> (r: CommentsResponse)
    requires
        store.wf(),
    ensures
        r.entries@ == comments_page(*store, thread_id, offset, limit),
{
    let n = clamp_limit(limit);
    let none: Vec<u64> = Vec::new();
    let ids: &Vec<u64> = if thread_id == 0 || thread_id > store.comments_by_thread.len() as u64 {
        proof {
            lemma_comment_ids_absent(store.comments@, thread_id);
        }
        &none
    } else {
        &store.comments_by_thread[(thread_id - 1) as usize]
    };
    assert(ids@ == comment_ids_by_thread(store.comments@, thread_id));
    let p = page_ids(ids, offset, n, false);
    proof {
        lemma_page_within(ids@, offset, n as nat, false);
        lemma_comment_ids_sound(store.comments@, thread_id);
        assert forall|j: int| 0 <= j < p@.len() implies store.has_comment(#[trigger] p@[j]) by {
            assert(p@.contains(p@[j]));
            let m = choose|m: int| 0 <= m < ids@.len() && ids@[m] == p@[j];
            assert(ids@[m] == comment_ids_by_thread(store.comments@, thread_id)[m]);
        }
    }
    CommentsResponse { entries: fetch_comments(store, &p) }
}

/// Runs one change on the store for `sender`. Returns the id of the thread or comment that was
/// created or changed.
pub fn execute(store: &mut Store, sender: &String, msg: ExecuteMsg) -> (r: Result<u64, ContractError>)
    requires
        old(store).wf(),
        msg is CreateThread ==> old(store).thread_counter < u64::MAX,
        msg is AddComment ==> old(store).comment_counter < u64::MAX,
    ensures
        final(store).wf(),
        match msg {
            ExecuteMsg::CreateThread { title, content, category } => {
                let id = (old(store).thread_counter + 1) as u64;
                &&& r == Ok::<u64, ContractError>(id)
                &&& thread_created(*old(store), *final(store), *sender, title, content, category, id)
            },
            ExecuteMsg::UpdateThreadContent { id, content } => {
                &&& thread_content_updated(*old(store), *final(store), *sender, id, content, without_id(r))
                &&& r is Ok ==> r == Ok::<u64, ContractError>(id)
            },
            ExecuteMsg::AddComment { thread_id, comment } => {
                comment_added(*old(store), *final(store), *sender, thread_id, comment, r)
            },
            ExecuteMsg::UpdateComment { comment_id, comment } => {
                &&& comment_updated(*old(store), *final(store), *sender, comment_id, comment, without_id(r))
                &&& r is Ok ==> r == Ok::<u64, ContractError>(comment_id)
            },
        },
{
    match msg {
        ExecuteMsg::CreateThread { title, content, category } => {
            Ok(create_thread(store, sender, title, content, category))
        },
        ExecuteMsg::UpdateThreadContent { id, content } => {
            match update_thread_content(store, sender, id, content) {
                Ok(()) => Ok(id),
                Err(e) => Err(e),
            }
        },
        ExecuteMsg::AddComment { thread_id, comment } => {
            add_comment(store, sender, thread_id, comment)
        },
        ExecuteMsg::UpdateComment { comment_id, comment } => {
            match update_comment(store, sender, comment_id, comment) {
                Ok(()) => Ok(comment_id),
                Err(e) => Err(e),
            }
        },
    }
}

/// Answers one lookup.
pub fn query(store: &Store, msg: QueryMsg) -> (r: Result<QueryResponse, ContractError>)
    requires
        store.wf(),
    ensures
        match msg {
            QueryMsg::GetThreadById { id } => match thread_by_id(*store, id) {
                Ok(t) => r == Ok::<QueryResponse, ContractError>(QueryResponse::Thread(t)),
                Err(e) => r == Err::<QueryResponse, ContractError>(e),
            },
            QueryMsg::GetThreadsByCategory { category, offset, limit } => r matches Ok(
                QueryResponse::Threads(t),
            ) && t.entries@ == threads_page(
                *store,
                ThreadField::Category,
                category@,
                offset,
                limit,
            ),
            QueryMsg::GetThreadsByAuthor { author, offset, limit } => r matches Ok(
                QueryResponse::Threads(t),
            ) && t.entries@ == threads_page(*store, ThreadField::Author, author@, offset, limit),
            QueryMsg::GetCommentById { id } => match comment_by_id(*store, id) {
                Ok(c) => r == Ok::<QueryResponse, ContractError>(QueryResponse::Comment(c)),
                Err(e) => r == Err::<QueryResponse, ContractError>(e),
            },
            QueryMsg::GetCommentsByThread { thread_id, offset, limit } => r matches Ok(
                QueryResponse::Comments(c),
            ) && c.entries@ == comments_page(*store, thread_id, offset, limit),
        },
{
    match msg {
        QueryMsg::GetThreadById { id } => match query_thread_by_id(store, id) {
            Ok(t) => Ok(QueryResponse::Thread(t)),
            Err(e) => Err(e),
        },
        QueryMsg::GetThreadsByCategory { category, offset, limit } => {
            Ok(QueryResponse::Threads(query_threads_by_category(store, category, offset, limit)))
        },
        QueryMsg::GetThreadsByAuthor { author, offset, limit } => {
            Ok(QueryResponse::Threads(query_threads_by_author(store, author, offset, limit)))
        },
        QueryMsg::GetCommentById { id } => match query_comment_by_id(store, id) {
            Ok(c) => Ok(QueryResponse::Comment(c)),
            Err(e) => Err(e),
        },
        QueryMsg::GetCommentsByThread { thread_id, offset, limit } => {
            Ok(QueryResponse::Comments(query_comments_by_thread(store, thread_id, offset, limit)))
        },
    }
}

} // verus!
