use tefi_dagora::contract::{
    add_comment, execute, instantiate, next_comment_counter, next_thread_counter,
    query_comment_by_id, query_comments_by_thread, query_thread_by_id, query_threads_by_author,
    query_threads_by_category, update_comment, update_thread_content,
};
use tefi_dagora::error::ContractError;
use tefi_dagora::index::MultiIndex;
use tefi_dagora::msg::{ExecuteMsg, GetThreadByIdResponse, InstantiateMsg};
use tefi_dagora::page::{clamp_limit, is_past_cursor, page_ids};
use tefi_dagora::state::Store;

fn s(x: &str) -> String {
    String::from(x)
}

fn new_store() -> Store {
    instantiate(s("admin"), InstantiateMsg {})
}

fn new_thread(store: &mut Store, author: &str, title: &str, category: &str) -> u64 {
    tefi_dagora::contract::create_thread(store, &s(author), s(title), s("body"), s(category))
}

fn thread_ids(store: &Store, category: &str, offset: Option<u64>, limit: Option<u32>) -> Vec<u64> {
    query_threads_by_category(store, s(category), offset, limit).entries.iter().map(|t| t.id).collect()
}

fn comment_ids(store: &Store, thread_id: u64, offset: Option<u64>, limit: Option<u32>) -> Vec<u64> {
    query_comments_by_thread(store, thread_id, offset, limit)
        .entries
        .iter()
        .map(|c| c.comment_id)
        .collect()
}

#[test]
fn instantiate_starts_empty() {
    let store = new_store();
    assert_eq!(s("admin"), store.admin);
    assert_eq!(0, store.thread_counter);
    assert_eq!(0, store.comment_counter);
    assert_eq!(Err(ContractError::NotFound), query_thread_by_id(&store, 1));
    assert_eq!(Err(ContractError::NotFound), query_comment_by_id(&store, 1));
}

#[test]
fn round_trip_thread_fields() {
    let mut store = new_store();
    let id = tefi_dagora::contract::create_thread(&mut store, &s("alice"), s("T1"), s("C1"), s("G"));
    assert_eq!(1, id);
    let expected = GetThreadByIdResponse {
        id: 1,
        title: s("T1"),
        content: s("C1"),
        category: s("G"),
        author: s("alice"),
    };
    assert_eq!(Ok(expected), query_thread_by_id(&store, 1));
}

#[test]
fn category_page_lists_threads_in_order() {
    let mut store = new_store();
    new_thread(&mut store, "a", "one", "G");
    new_thread(&mut store, "b", "two", "G");
    let page = query_threads_by_category(&store, s("G"), None, Some(10)).entries;
    assert_eq!(2, page.len());
    assert_eq!((1, s("one")), (page[0].id, page[0].title.clone()));
    assert_eq!((2, s("two")), (page[1].id, page[1].title.clone()));
}

#[test]
fn comment_update_by_author_only() {
    let mut store = new_store();
    new_thread(&mut store, "x", "t", "G");
    assert_eq!(Ok(1), add_comment(&mut store, &s("X"), 1, s("hi")));
    assert_eq!(Err(ContractError::Unauthorized), update_comment(&mut store, &s("Y"), 1, s("bye")));
    assert_eq!(s("hi"), query_comment_by_id(&store, 1).unwrap().comment);
    assert_eq!(Ok(()), update_comment(&mut store, &s("X"), 1, s("bye")));
    let c = query_comment_by_id(&store, 1).unwrap();
    assert_eq!(s("bye"), c.comment);
    assert_eq!((1, 1, s("X")), (c.comment_id, c.thread_id, c.author));
}

#[test]
fn limit_is_clamped() {
    let mut store = new_store();
    for i in 0..35 {
        new_thread(&mut store, "a", &format!("t{}", i), "G");
    }
    assert_eq!(30, thread_ids(&store, "G", None, Some(1000)).len());
    assert_eq!(10, thread_ids(&store, "G", None, None).len());
    assert_eq!((1..=10).collect::<Vec<u64>>(), thread_ids(&store, "G", None, None));
    assert_eq!(7, thread_ids(&store, "G", None, Some(7)).len());
    assert!(thread_ids(&store, "G", None, Some(0)).is_empty());
    assert_eq!(30, clamp_limit(Some(u32::MAX)));
    assert_eq!(10, clamp_limit(None));
    assert_eq!(30, clamp_limit(Some(30)));
    assert_eq!(0, clamp_limit(Some(0)));
}

#[test]
fn ids_increase_by_one_and_failures_consume_none() {
    let mut store = new_store();
    assert_eq!(1, new_thread(&mut store, "a", "t", "G"));
    assert_eq!(2, new_thread(&mut store, "b", "t", "H"));
    assert_eq!(Ok(1), add_comment(&mut store, &s("a"), 2, s("c")));
    assert_eq!(Err(ContractError::ThreadNotExists), add_comment(&mut store, &s("a"), 3, s("c")));
    assert_eq!(1, store.comment_counter);
    assert_eq!(Ok(2), add_comment(&mut store, &s("a"), 1, s("c")));
    assert_eq!(3, new_thread(&mut store, "c", "t", "G"));
    assert_eq!(Ok(3), execute(&mut store, &s("c"), ExecuteMsg::AddComment { thread_id: 3, comment: s("d") }));
}

#[test]
fn stranger_cannot_change_thread() {
    let mut store = new_store();
    new_thread(&mut store, "owner", "t", "G");
    let before = query_thread_by_id(&store, 1);
    assert_eq!(
        Err(ContractError::Unauthorized),
        update_thread_content(&mut store, &s("stranger"), 1, s("changed"))
    );
    assert_eq!(before, query_thread_by_id(&store, 1));
    assert_eq!(Ok(()), update_thread_content(&mut store, &s("owner"), 1, s("changed")));
    let after = query_thread_by_id(&store, 1).unwrap();
    assert_eq!((s("changed"), s("t"), s("G"), s("owner")), (after.content, after.title, after.category, after.author));
    assert_eq!(vec![1], thread_ids(&store, "G", None, None));
}

#[test]
fn missing_records_are_reported() {
    let mut store = new_store();
    assert_eq!(Err(ContractError::ThreadNotExists), add_comment(&mut store, &s("a"), 1, s("c")));
    assert_eq!(0, store.comment_counter);
    new_thread(&mut store, "a", "t", "G");
    assert_eq!(Err(ContractError::ThreadNotExists), add_comment(&mut store, &s("a"), 0, s("c")));
    assert_eq!(Err(ContractError::NotFound), update_thread_content(&mut store, &s("a"), 2, s("x")));
    assert_eq!(Err(ContractError::NotFound), update_comment(&mut store, &s("a"), 1, s("x")));
    assert_eq!(Err(ContractError::NotFound), query_thread_by_id(&store, 0));
    assert_eq!(Err(ContractError::NotFound), query_comment_by_id(&store, 1));
    assert!(comment_ids(&store, 9, None, None).is_empty());
    assert!(thread_ids(&store, "nothing", None, None).is_empty());
}

#[test]
fn scans_hold_only_matching_records() {
    let mut store = new_store();
    new_thread(&mut store, "a", "t1", "G");
    new_thread(&mut store, "b", "t2", "H");
    new_thread(&mut store, "a", "t3", "H");
    new_thread(&mut store, "b", "t4", "G");
    assert_eq!(vec![1, 4], thread_ids(&store, "G", None, None));
    assert_eq!(vec![2, 3], thread_ids(&store, "H", None, None));
    let by_a: Vec<u64> = query_threads_by_author(&store, s("a"), None, None).entries.iter().map(|t| t.id).collect();
    assert_eq!(vec![1, 3], by_a);
    add_comment(&mut store, &s("a"), 2, s("c1")).unwrap();
    add_comment(&mut store, &s("a"), 1, s("c2")).unwrap();
    add_comment(&mut store, &s("b"), 2, s("c3")).unwrap();
    add_comment(&mut store, &s("b"), 4, s("c4")).unwrap();
    assert_eq!(vec![3, 1], comment_ids(&store, 2, None, None));
    assert_eq!(vec![2], comment_ids(&store, 1, None, None));
    assert_eq!(vec![4], comment_ids(&store, 4, None, None));
    for c in query_comments_by_thread(&store, 2, None, None).entries {
        assert_eq!(2, c.thread_id);
    }
}

#[test]
fn cursors_are_exclusive() {
    let mut store = new_store();
    for _ in 0..5 {
        new_thread(&mut store, "a", "t", "G");
    }
    for _ in 0..5 {
        add_comment(&mut store, &s("a"), 1, s("c")).unwrap();
    }
    assert_eq!(vec![3, 4, 5], thread_ids(&store, "G", Some(2), None));
    assert!(thread_ids(&store, "G", Some(5), None).is_empty());
    assert_eq!(vec![2, 1], comment_ids(&store, 1, Some(3), None));
    assert!(comment_ids(&store, 1, Some(1), None).is_empty());
    assert_eq!(vec![5, 4, 3, 2, 1], comment_ids(&store, 1, Some(100), None));
}

#[test]
fn chained_pages_cover_the_scan_once() {
    let mut store = new_store();
    for i in 0..11 {
        let category = if i % 3 == 0 { "H" } else { "G" };
        new_thread(&mut store, "a", "t", category);
        add_comment(&mut store, &s("a"), 1, s("c")).unwrap();
    }
    let full = thread_ids(&store, "G", None, Some(30));
    let mut chained: Vec<u64> = Vec::new();
    let mut cursor: Option<u64> = None;
    loop {
        let page = thread_ids(&store, "G", cursor, Some(3));
        chained.extend(page.iter());
        if page.len() < 3 {
            break;
        }
        cursor = Some(*page.last().unwrap());
    }
    assert_eq!(full, chained);
    assert_eq!(vec![2, 3, 5, 6, 8, 9, 11], full);

    let full = comment_ids(&store, 1, None, Some(30));
    let mut chained: Vec<u64> = Vec::new();
    let mut cursor: Option<u64> = None;
    loop {
        let page = comment_ids(&store, 1, cursor, Some(4));
        chained.extend(page.iter());
        if page.len() < 4 {
            break;
        }
        cursor = Some(*page.last().unwrap());
    }
    assert_eq!(full, chained);
    assert_eq!((1..=11).rev().collect::<Vec<u64>>(), full);
}

#[test]
fn counters_advance_by_one() {
    let mut store = new_store();
    assert_eq!(1, next_thread_counter(&mut store));
    assert_eq!(2, next_thread_counter(&mut store));
    assert_eq!(2, store.thread_counter);
    assert_eq!(1, next_comment_counter(&mut store));
    assert_eq!(1, store.comment_counter);
}

#[test]
fn index_groups_ids_by_key() {
    let mut idx = MultiIndex::new();
    idx.insert(&s("k1"), 1);
    idx.insert(&s("k2"), 2);
    idx.insert(&s("k1"), 3);
    assert_eq!(vec![1, 3], idx.lookup(&s("k1")));
    assert_eq!(vec![2], idx.lookup(&s("k2")));
    assert!(idx.lookup(&s("k3")).is_empty());
    assert_eq!(2, idx.groups.len());
}

#[test]
fn page_ids_in_both_directions() {
    let ids: Vec<u64> = vec![2, 4, 6, 8, 10];
    assert_eq!(vec![2, 4], page_ids(&ids, None, 2, true));
    assert_eq!(vec![6, 8], page_ids(&ids, Some(4), 2, true));
    assert_eq!(vec![10, 8, 6], page_ids(&ids, None, 3, false));
    assert_eq!(vec![4, 2], page_ids(&ids, Some(6), 3, false));
    assert!(page_ids(&ids, Some(10), 3, true).is_empty());
    assert!(page_ids(&ids, None, 0, true).is_empty());
    assert!(is_past_cursor(5, Some(4), true));
    assert!(!is_past_cursor(4, Some(4), true));
    assert!(is_past_cursor(3, Some(4), false));
    assert!(!is_past_cursor(4, Some(4), false));
}
