use vstd::prelude::*;

use crate::contract::{
    comment_added, comment_updated, comments_page, thread_content_updated, thread_created,
    threads_page,
};
use crate::error::ContractError;
use crate::page::{
    effective_limit, lemma_page_chain, lemma_page_sorted, lemma_page_within, page, remaining,
    strictly_ascending, strictly_descending, DEFAULT_LIMIT, MAX_LIMIT,
};
use crate::state::{
    comment_ids_by_thread, comments_at, lemma_comment_ids_sound, lemma_thread_ids_sound,
    thread_ids_by, thread_key, threads_at, Comment, Store, Thread, ThreadField,
};

verus! {

/// Everything a scan of the index on `field` under `key` reaches from `offset`, unpaginated.
pub open spec fn threads_scan(
    s: Store,
    field: ThreadField,
    key: Seq<char>,
    offset: Option<u64>,
) -> Seq<Thread> {
    threads_at(s.threads@, remaining(thread_ids_by(s.threads@, field, key), offset, true))
}

/// Everything a scan of the comments on `thread_id` reaches from `offset`, unpaginated.
pub open spec fn comments_scan(s: Store, thread_id: u64, offset: Option<u64>) -> Seq<Comment> {
    comments_at(s.comments@, remaining(comment_ids_by_thread(s.comments@, thread_id), offset, false))
}

/// Two successive thread creations return consecutive ids.
pub proof fn law_thread_ids_consecutive(
    a: Store,
    b: Store,
    c: Store,
    author1: String,
    title1: String,
    content1: String,
    category1: String,
    id1: u64,
    author2: String,
    title2: String,
    content2: String,
    category2: String,
    id2: u64,
)
    requires
        thread_created(a, b, author1, title1, content1, category1, id1),
        thread_created(b, c, author2, title2, content2, category2, id2),
    ensures
        id2 == id1 + 1,
{
}

/// Two successful comment additions in a row return consecutive ids.
pub proof fn law_comment_ids_consecutive(
    a: Store,
    b: Store,
    c: Store,
    caller1: String,
    thread1: u64,
    text1: String,
    id1: u64,
    caller2: String,
    thread2: u64,
    text2: String,
    id2: u64,
)
    requires
        comment_added(a, b, caller1, thread1, text1, Ok(id1)),
        comment_added(b, c, caller2, thread2, text2, Ok(id2)),
    ensures
        id2 == id1 + 1,
{
}

/// A comment refused for a missing thread changes nothing, so it uses up no comment id.
pub proof fn law_failed_comment_keeps_counter(
    a: Store,
    b: Store,
    caller: String,
    thread_id: u64,
    text: String,
    r: Result<u64, ContractError>,
)
    requires
        comment_added(a, b, caller, thread_id, text, r),
        r is Err,
    ensures
        b == a,
        b.comment_counter == a.comment_counter,
{
}

/// Only a thread's author may change its content: anyone else is refused and the stored
/// content stays as it was.
pub proof fn law_thread_update_needs_author(
    pre: Store,
    post: Store,
    caller: String,
    id: u64,
    content: String,
    r: Result<(), ContractError>,
)
    requires
        thread_content_updated(pre, post, caller, id, content, r),
        pre.has_thread(id),
        caller@ != pre.thread(id).author@,
    ensures
        r == Err::<(), ContractError>(ContractError::Unauthorized),
        post == pre,
        post.thread(id).content == pre.thread(id).content,
{
}

/// Only a comment's author may change its text: anyone else is refused and the stored text
/// stays as it was.
pub proof fn law_comment_update_needs_author(
    pre: Store,
    post: Store,
    caller: String,
    id: u64,
    text: String,
    r: Result<(), ContractError>,
)
    requires
        comment_updated(pre, post, caller, id, text, r),
        pre.has_comment(id),
        caller@ != pre.comment(id).author@,
    ensures
        r == Err::<(), ContractError>(ContractError::Unauthorized),
        post == pre,
        post.comment(id).comment == pre.comment(id).comment,
{
}

/// Commenting on a thread id that no creation has produced always fails with
/// `ThreadNotExists`.
pub proof fn law_comment_needs_thread(
    pre: Store,
    post: Store,
    caller: String,
    thread_id: u64,
    text: String,
    r: Result<u64, ContractError>,
)
    requires
        comment_added(pre, post, caller, thread_id, text, r),
        !pre.has_thread(thread_id),
    ensures
        r == Err::<u64, ContractError>(ContractError::ThreadNotExists),
{
}

/// A page of threads read through an index holds only threads filed under the requested key,
/// in strictly ascending id order.
pub proof fn law_threads_page_filtered_and_ordered(
    s: Store,
    field: ThreadField,
    key: Seq<char>,
    offset: Option<u64>,
    limit: Option<u32>,
)
    requires
        s.wf(),
    ensures
        forall|j: int|
            0 <= j < threads_page(s, field, key, offset, limit).len() ==> thread_key(
                #[trigger] threads_page(s, field, key, offset, limit)[j],
                field,
            ) == key,
        strictly_ascending(threads_page(s, field, key, offset, limit).map_values(|t: Thread| t.id)),
{
    let ts = s.threads@;
    let ids = thread_ids_by(ts, field, key);
    let l = effective_limit(limit);
    let p = page(ids, offset, l, true);
    lemma_thread_ids_sound(ts, field, key);
    lemma_page_within(ids, offset, l, true);
    lemma_page_sorted(ids, offset, l, true);
    assert forall|j: int| 0 <= j < p.len() implies {
        let id = #[trigger] p[j];
        1 <= id <= ts.len() && thread_key(ts[id - 1], field) == key && ts[id - 1].id == id
    } by {
        assert(p.contains(p[j]));
        let m = choose|m: int| 0 <= m < ids.len() && ids[m] == p[j];
        assert(ids[m] == p[j]);
        assert(ts[p[j] - 1].id == p[j] - 1 + 1);
    }
    let pr = threads_page(s, field, key, offset, limit);
    assert(pr.map_values(|t: Thread| t.id) =~= p);
}

/// A page of comments holds only comments on the requested thread, in strictly descending id
/// order.
pub proof fn law_comments_page_filtered_and_ordered(
    s: Store,
    thread_id: u64,
    offset: Option<u64>,
    limit: Option<u32>,
)
    requires
        s.wf(),
    ensures
        forall|j: int|
            0 <= j < comments_page(s, thread_id, offset, limit).len() ==> (#[trigger] comments_page(
                s,
                thread_id,
                offset,
                limit,
            )[j]).thread_id == thread_id,
        strictly_descending(comments_page(s, thread_id, offset, limit).map_values(|c: Comment| c.comment_id)),
{
    let cs = s.comments@;
    let ids = comment_ids_by_thread(cs, thread_id);
    let l = effective_limit(limit);
    let p = page(ids, offset, l, false);
    lemma_comment_ids_sound(cs, thread_id);
    lemma_page_within(ids, offset, l, false);
    lemma_page_sorted(ids, offset, l, false);
    assert forall|j: int| 0 <= j < p.len() implies {
        let id = #[trigger] p[j];
        1 <= id <= cs.len() && cs[id - 1].thread_id == thread_id && cs[id - 1].comment_id == id
    } by {
        assert(p.contains(p[j]));
        let m = choose|m: int| 0 <= m < ids.len() && ids[m] == p[j];
        assert(ids[m] == p[j]);
        assert(cs[p[j] - 1].comment_id == p[j] - 1 + 1);
    }
    let pr = comments_page(s, thread_id, offset, limit);
    assert(pr.map_values(|c: Comment| c.comment_id) =~= p);
}

/// Paging threads through an index loses and repeats nothing: a page shorter than the limit is
/// the whole rest of the scan, and after a full page the rest of the scan is that page followed
/// by the scan resumed after the page's last thread id.
pub proof fn law_threads_paging_complete(
    s: Store,
    field: ThreadField,
    key: Seq<char>,
    offset: Option<u64>,
    limit: Option<u32>,
)
    requires
        s.wf(),
        effective_limit(limit) > 0,
    ensures
        ({
            let p = threads_page(s, field, key, offset, limit);
            &&& p.len() < effective_limit(limit) ==> p == threads_scan(s, field, key, offset)
            &&& p.len() == effective_limit(limit) ==> threads_scan(s, field, key, offset) == p
                + threads_scan(s, field, key, Some(p.last().id))
        }),
{
    let ts = s.threads@;
    let ids = thread_ids_by(ts, field, key);
    let l = effective_limit(limit);
    let p = page(ids, offset, l, true);
    lemma_thread_ids_sound(ts, field, key);
    lemma_page_chain(ids, offset, l, true);
    lemma_page_within(ids, offset, l, true);
    let pr = threads_page(s, field, key, offset, limit);
    if p.len() == l {
        let last = p.last();
        assert(p.contains(last));
        let m = choose|m: int| 0 <= m < ids.len() && ids[m] == last;
        assert(ids[m] == last);
        assert(ts[last - 1].id == last - 1 + 1);
        assert(pr.last() == ts[last - 1]);
        let rest = remaining(ids, Some(last), true);
        assert(threads_at(ts, p + rest) =~= threads_at(ts, p) + threads_at(ts, rest));
    }
}

/// Paging the comments on a thread loses and repeats nothing: a page shorter than the limit is
/// the whole rest of the scan, and after a full page the rest of the scan is that page followed
/// by the scan resumed before the page's last comment id.
pub proof fn law_comments_paging_complete(
    s: Store,
    thread_id: u64,
    offset: Option<u64>,
    limit: Option<u32>,
)
    requires
        s.wf(),
        effective_limit(limit) > 0,
    ensures
        ({
            let p = comments_page(s, thread_id, offset, limit);
            &&& p.len() < effective_limit(limit) ==> p == comments_scan(s, thread_id, offset)
            &&& p.len() == effective_limit(limit) ==> comments_scan(s, thread_id, offset) == p
                + comments_scan(s, thread_id, Some(p.last().comment_id))
        }),
{
    let cs = s.comments@;
    let ids = comment_ids_by_thread(cs, thread_id);
    let l = effective_limit(limit);
    let p = page(ids, offset, l, false);
    lemma_comment_ids_sound(cs, thread_id);
    lemma_page_chain(ids, offset, l, false);
    lemma_page_within(ids, offset, l, false);
    let pr = comments_page(s, thread_id, offset, limit);
    if p.len() == l {
        let last = p.last();
        assert(p.contains(last));
        let m = choose|m: int| 0 <= m < ids.len() && ids[m] == last;
        assert(ids[m] == last);
        assert(cs[last - 1].comment_id == last - 1 + 1);
        assert(pr.last() == cs[last - 1]);
        let rest = remaining(ids, Some(last), false);
        assert(comments_at(cs, p + rest) =~= comments_at(cs, p) + comments_at(cs, rest));
    }
}

/// No page is longer than the page size served: at most the maximum whatever was asked, and at
/// most the default when no size was asked.
pub proof fn law_page_size(
    s: Store,
    field: ThreadField,
    key: Seq<char>,
    thread_id: u64,
    offset: Option<u64>,
    limit: Option<u32>,
)
    ensures
        threads_page(s, field, key, offset, limit).len() <= effective_limit(limit),
        comments_page(s, thread_id, offset, limit).len() <= effective_limit(limit),
        effective_limit(limit) <= MAX_LIMIT,
        limit is None ==> effective_limit(limit) == DEFAULT_LIMIT,
{
}

} // verus!
