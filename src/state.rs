use vstd::prelude::*;

use crate::index::MultiIndex;

verus! {

/// A discussion thread. Only `content` changes after creation.
#[derive(Clone, Debug, PartialEq, Eq)]
pub struct Thread {
    pub id: u64,
    pub title: String,
    pub content: String,
    pub author: String,
    pub category: String,
}

/// A comment on a thread. Only `comment` changes after creation.
#[derive(Clone, Debug, PartialEq, Eq)]
pub struct Comment {
    pub comment_id: u64,
    pub thread_id: u64,
    pub comment: String,
    pub author: String,
}

/// A bare reply: its text and its author.
#[derive(Clone, Debug, PartialEq, Eq)]
pub struct Reply {
    pub msg: String,
    pub author: String,
}

impl Thread {
    /// A field-by-field copy.
    pub fn copy(&self) -> (r: Thread)
        ensures
            r == *self,
    {
        Thread {
            id: self.id,
            title: self.title.clone(),
            content: self.content.clone(),
            author: self.author.clone(),
            category: self.category.clone(),
        }
    }
}

impl Comment {
    /// A field-by-field copy.
    pub fn copy(&self) -> (r: Comment)
        ensures
            r == *self,
    {
        Comment {
            comment_id: self.comment_id,
            thread_id: self.thread_id,
            comment: self.comment.clone(),
            author: self.author.clone(),
        }
    }
}

/// The thread fields that carry a secondary index.
pub enum ThreadField {
    Author,
    Category,
}

/// The key under which a thread is filed in the index on `field`.
pub open spec fn thread_key(t: Thread, field: ThreadField) -> Seq<char> {
    match field {
        ThreadField::Author => t.author@,
        ThreadField::Category => t.category@,
    }
}

/// The ids of the threads of `ts` filed under key `k` of the index on `field`, in table order.
pub open spec fn thread_ids_by(ts: Seq<Thread>, field: ThreadField, k: Seq<char>) -> Seq<u64>
    decreases ts.len(),
{
    if ts.len() == 0 {
        Seq::empty()
    } else {
        let rest = thread_ids_by(ts.drop_last(), field, k);
        if thread_key(ts.last(), field) == k {
            rest.push(ts.last().id)
        } else {
            rest
        }
    }
}

/// The ids of the comments of `cs` on thread `tid`, in table order.
pub open spec fn comment_ids_by_thread(cs: Seq<Comment>, tid: u64) -> Seq<u64>
    decreases cs.len(),
{
    if cs.len() == 0 {
        Seq::empty()
    } else {
        let rest = comment_ids_by_thread(cs.drop_last(), tid);
        if cs.last().thread_id == tid {
            rest.push(cs.last().comment_id)
        } else {
            rest
        }
    }
}

/// Thread ids are 1, 2, 3, ... in table order.
pub open spec fn threads_numbered(ts: Seq<Thread>) -> bool {
    forall|i: int| 0 <= i < ts.len() ==> (#[trigger] ts[i]).id == i + 1
}

/// Comment ids are 1, 2, 3, ... in table order.
pub open spec fn comments_numbered(cs: Seq<Comment>) -> bool {
    forall|i: int| 0 <= i < cs.len() ==> (#[trigger] cs[i]).comment_id == i + 1
}

/// The records that each id of `ids` names in a numbered thread table.
pub open spec fn threads_at(ts: Seq<Thread>, ids: Seq<u64>) -> Seq<Thread> {
    ids.map_values(|id: u64| ts[id - 1])
}

/// The records that each id of `ids` names in a numbered comment table.
pub open spec fn comments_at(cs: Seq<Comment>, ids: Seq<u64>) -> Seq<Comment> {
    ids.map_values(|id: u64| cs[id - 1])
}

/// The two secondary indexes over threads.
pub struct ThreadIndexes {
    pub author: MultiIndex,
    pub category: MultiIndex,
}

/// The forum's whole state: counters, primary tables and secondary indexes.
pub struct Store {
    /// Recorded when the store is set up; no operation consults it.
    pub admin: String,
    pub thread_counter: u64,
    pub comment_counter: u64,
    /// Primary thread table; the thread with id `n` sits at position `n - 1`.
    pub threads: Vec<Thread>,
    /// Primary comment table; the comment with id `n` sits at position `n - 1`.
    pub comments: Vec<Comment>,
    pub thread_idx: ThreadIndexes,
    /// For the thread at position `t`, the ids of its comments, oldest first.
    pub comments_by_thread: Vec<Vec<u64>>,
}

impl Store {
    /// Counters, primary tables and every secondary index agree.
    pub open spec fn wf(self) -> bool {
        &&& self.thread_counter == self.threads@.len()
        &&& self.comment_counter == self.comments@.len()
        &&& threads_numbered(self.threads@)
        &&& comments_numbered(self.comments@)
        &&& forall|i: int|
            0 <= i < self.comments@.len() ==> 1 <= (#[trigger] self.comments@[i]).thread_id
                <= self.threads@.len()
        &&& self.thread_idx.author.wf()
        &&& self.thread_idx.category.wf()
        &&& forall|k: Seq<char>|
            #[trigger] self.thread_idx.author.ids_of(k) == thread_ids_by(
                self.threads@,
                ThreadField::Author,
                k,
            )
        &&& forall|k: Seq<char>|
            #[trigger] self.thread_idx.category.ids_of(k) == thread_ids_by(
                self.threads@,
                ThreadField::Category,
                k,
            )
        &&& self.comments_by_thread@.len() == self.threads@.len()
        &&& forall|t: int|
            0 <= t < self.threads@.len() ==> (#[trigger] self.comments_by_thread@[t])@
                == comment_ids_by_thread(self.comments@, (t + 1) as u64)
    }

    /// Whether a thread with id `id` is stored.
    pub open spec fn has_thread(self, id: u64) -> bool {
        1 <= id <= self.threads@.len()
    }

    /// Whether a comment with id `id` is stored.
    pub open spec fn has_comment(self, id: u64) -> bool {
        1 <= id <= self.comments@.len()
    }

    /// The stored thread with id `id`.
    pub open spec fn thread(self, id: u64) -> Thread {
        self.threads@[id - 1]
    }

    /// The stored comment with id `id`.
    pub open spec fn comment(self, id: u64) -> Comment {
        self.comments@[id - 1]
    }
}

/// Appending a thread files its id under its own key and nowhere else.
pub proof fn lemma_thread_ids_push(ts: Seq<Thread>, t: Thread, field: ThreadField, k: Seq<char>)
    ensures
        thread_ids_by(ts.push(t), field, k) == if thread_key(t, field) == k {
            thread_ids_by(ts, field, k).push(t.id)
        } else {
            thread_ids_by(ts, field, k)
        },
{
    assert(ts.push(t).drop_last() =~= ts);
}

/// Replacing a thread by one with the same id and key leaves the index image unchanged.
pub proof fn lemma_thread_ids_update(
    ts: Seq<Thread>,
    i: int,
    t: Thread,
    field: ThreadField,
    k: Seq<char>,
)
    requires
        0 <= i < ts.len(),
        t.id == ts[i].id,
        thread_key(t, field) == thread_key(ts[i], field),
    ensures
        thread_ids_by(ts.update(i, t), field, k) == thread_ids_by(ts, field, k),
    decreases ts.len(),
{
    if i == ts.len() - 1 {
        assert(ts.update(i, t).drop_last() =~= ts.drop_last());
    } else {
        assert(ts.update(i, t).drop_last() =~= ts.drop_last().update(i, t));
        lemma_thread_ids_update(ts.drop_last(), i, t, field, k);
    }
}

/// Appending a comment files its id under its own thread and nowhere else.
pub proof fn lemma_comment_ids_push(cs: Seq<Comment>, c: Comment, tid: u64)
    ensures
        comment_ids_by_thread(cs.push(c), tid) == if c.thread_id == tid {
            comment_ids_by_thread(cs, tid).push(c.comment_id)
        } else {
            comment_ids_by_thread(cs, tid)
        },
{
    assert(cs.push(c).drop_last() =~= cs);
}

/// Replacing a comment by one with the same id and thread leaves the index image unchanged.
pub proof fn lemma_comment_ids_update(cs: Seq<Comment>, i: int, c: Comment, tid: u64)
    requires
        0 <= i < cs.len(),
        c.comment_id == cs[i].comment_id,
        c.thread_id == cs[i].thread_id,
    ensures
        comment_ids_by_thread(cs.update(i, c), tid) == comment_ids_by_thread(cs, tid),
    decreases cs.len(),
{
    if i == cs.len() - 1 {
        assert(cs.update(i, c).drop_last() =~= cs.drop_last());
    } else {
        assert(cs.update(i, c).drop_last() =~= cs.drop_last().update(i, c));
        lemma_comment_ids_update(cs.drop_last(), i, c, tid);
    }
}

/// A thread id that no comment refers to has no comments filed under it.
pub proof fn lemma_comment_ids_absent(cs: Seq<Comment>, tid: u64)
    requires
        forall|i: int| 0 <= i < cs.len() ==> (#[trigger] cs[i]).thread_id != tid,
    ensures
        comment_ids_by_thread(cs, tid) == Seq::<u64>::empty(),
    decreases cs.len(),
{
    if cs.len() > 0 {
        let pre = cs.drop_last();
        assert(forall|i: int| 0 <= i < pre.len() ==> pre[i] == cs[i]);
        lemma_comment_ids_absent(pre, tid);
        assert(cs.last() == cs[cs.len() - 1]);
    }
}

/// In a numbered table, the index image under `k` names stored threads filed under `k`,
/// oldest first.
pub proof fn lemma_thread_ids_sound(ts: Seq<Thread>, field: ThreadField, k: Seq<char>)
    requires
        threads_numbered(ts),
    ensures
        forall|j: int|
            0 <= j < thread_ids_by(ts, field, k).len() ==> {
                let id = #[trigger] thread_ids_by(ts, field, k)[j];
                1 <= id <= ts.len() && thread_key(ts[id - 1], field) == k
            },
        forall|a: int, b: int|
            0 <= a < b < thread_ids_by(ts, field, k).len() ==> thread_ids_by(ts, field, k)[a]
                < thread_ids_by(ts, field, k)[b],
    decreases ts.len(),
{
    if ts.len() > 0 {
        let pre = ts.drop_last();
        assert(threads_numbered(pre)) by {
            assert forall|i: int| 0 <= i < pre.len() implies (#[trigger] pre[i]).id == i + 1 by {
                assert(pre[i] == ts[i]);
            }
        }
        lemma_thread_ids_sound(pre, field, k);
        let rest = thread_ids_by(pre, field, k);
        let r = thread_ids_by(ts, field, k);
        assert(forall|i: int| 0 <= i < pre.len() ==> pre[i] == ts[i]);
        assert(ts.last() == ts[ts.len() - 1]);
        assert forall|j: int| 0 <= j < r.len() implies {
            let id = #[trigger] r[j];
            1 <= id <= ts.len() && thread_key(ts[id - 1], field) == k
        } by {
            if j < rest.len() {
                assert(r[j] == rest[j]);
            }
        }
        assert forall|a: int, b: int| 0 <= a < b < r.len() implies r[a] < r[b] by {
            if b < rest.len() {
                assert(r[a] == rest[a] && r[b] == rest[b]);
            } else {
                assert(r[a] == rest[a]);
                assert(rest[a] <= pre.len());
            }
        }
    }
}

/// In a numbered table, the index image of thread `tid` names stored comments on `tid`,
/// oldest first.
pub proof fn lemma_comment_ids_sound(cs: Seq<Comment>, tid: u64)
    requires
        comments_numbered(cs),
    ensures
        forall|j: int|
            0 <= j < comment_ids_by_thread(cs, tid).len() ==> {
                let id = #[trigger] comment_ids_by_thread(cs, tid)[j];
                1 <= id <= cs.len() && cs[id - 1].thread_id == tid
            },
        forall|a: int, b: int|
            0 <= a < b < comment_ids_by_thread(cs, tid).len() ==> comment_ids_by_thread(cs, tid)[a]
                < comment_ids_by_thread(cs, tid)[b],
    decreases cs.len(),
{
    if cs.len() > 0 {
        let pre = cs.drop_last();
        assert(comments_numbered(pre)) by {
            assert forall|i: int| 0 <= i < pre.len() implies (#[trigger] pre[i]).comment_id
                == i + 1 by {
                assert(pre[i] == cs[i]);
            }
        }
        lemma_comment_ids_sound(pre, tid);
        let rest = comment_ids_by_thread(pre, tid);
        let r = comment_ids_by_thread(cs, tid);
        assert(forall|i: int| 0 <= i < pre.len() ==> pre[i] == cs[i]);
        assert(cs.last() == cs[cs.len() - 1]);
        assert forall|j: int| 0 <= j < r.len() implies {
            let id = #[trigger] r[j];
            1 <= id <= cs.len() && cs[id - 1].thread_id == tid
        } by {
            if j < rest.len() {
                assert(r[j] == rest[j]);
            }
        }
        assert forall|a: int, b: int| 0 <= a < b < r.len() implies r[a] < r[b] by {
            if b < rest.len() {
                assert(r[a] == rest[a] && r[b] == rest[b]);
            } else {
                assert(r[a] == rest[a]);
                assert(rest[a] <= pre.len());
            }
        }
    }
}

} // verus!
