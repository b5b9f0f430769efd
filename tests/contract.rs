use tefi_dagora::contract;
use tefi_dagora::error::ContractError;
use tefi_dagora::msg::{
    CommentsResponse, ExecuteMsg, GetThreadByIdResponse, InstantiateMsg, QueryMsg, QueryResponse,
    ThreadsResponse,
};
use tefi_dagora::state::{Comment, Store};

fn instantiate_contract() -> Store {
    contract::instantiate(String::from("creator"), InstantiateMsg {})
}

fn create_new_thread(store: &mut Store) {
    let title = String::from("First Thread");
    let content = String::from("First Message");
    let category = String::from("General");
    let msg = ExecuteMsg::CreateThread { title, content, category };
    let _res = contract::execute(store, &String::from("anyone"), msg);
}

fn create_new_comment(store: &mut Store, sender: &str) {
    let msg = ExecuteMsg::AddComment { thread_id: 1, comment: String::from("New Comment") };
    let _res = contract::execute(store, &String::from(sender), msg);
}

fn thread_response(res: Result<QueryResponse, ContractError>) -> GetThreadByIdResponse {
    match res {
        Ok(QueryResponse::Thread(t)) => t,
        other => panic!("expected a thread, got {:?}", other),
    }
}

fn comment_response(res: Result<QueryResponse, ContractError>) -> Comment {
    match res {
        Ok(QueryResponse::Comment(c)) => c,
        other => panic!("expected a comment, got {:?}", other),
    }
}

fn threads_response(res: Result<QueryResponse, ContractError>) -> ThreadsResponse {
    match res {
        Ok(QueryResponse::Threads(t)) => t,
        other => panic!("expected threads, got {:?}", other),
    }
}

fn comments_response(res: Result<QueryResponse, ContractError>) -> CommentsResponse {
    match res {
        Ok(QueryResponse::Comments(c)) => c,
        other => panic!("expected comments, got {:?}", other),
    }
}

#[test]
fn create_thread() {
    let mut store = contract::instantiate(String::from("creator"), InstantiateMsg {});
    create_new_thread(&mut store);

    let res = contract::query(&store, QueryMsg::GetThreadById { id: 1 });
    let value = thread_response(res);
    assert_eq!(1, value.id);
    assert_eq!(String::from("First Thread"), value.title);
    assert_eq!(String::from("First Message"), value.content);
    assert_eq!(String::from("General"), value.category);
}

#[test]
fn update_thread_content() {
    let mut store = contract::instantiate(String::from("creator"), InstantiateMsg {});

    let creator = String::from("creator");
    let title = String::from("First Thread");
    let content = String::from("First Message");
    let category = String::from("General");
    let msg = ExecuteMsg::CreateThread { title, content, category };
    let _res = contract::execute(&mut store, &creator, msg);

    let updated_content = String::from("Updated Content!");

    let msg = ExecuteMsg::UpdateThreadContent { id: 1, content: updated_content.clone() };
    let res = contract::execute(&mut store, &String::from("anyone"), msg);
    match res {
        Err(ContractError::Unauthorized) => {}
        _ => panic!("Must return unauthorized error"),
    }

    let msg = ExecuteMsg::UpdateThreadContent { id: 1, content: updated_content.clone() };
    let _res = contract::execute(&mut store, &creator, msg);

    let res = contract::query(&store, QueryMsg::GetThreadById { id: 1 });
    let value = thread_response(res);
    assert_eq!(updated_content, value.content);
}

#[test]
fn add_comment() {
    let mut store = instantiate_contract();
    let creator = String::from("creator");
    let comment = String::from("New Reply");

    let msg = ExecuteMsg::AddComment { thread_id: 1, comment: comment.clone() };
    let res = contract::execute(&mut store, &creator, msg);
    match res {
        Err(ContractError::ThreadNotExists) => {}
        _ => panic!("Must return thread not exists error"),
    }

    let title = String::from("First Thread");
    let content = String::from("First Message");
    let category = String::from("General");
    let msg = ExecuteMsg::CreateThread { title, content, category };
    let _res = contract::execute(&mut store, &creator, msg);

    let msg = ExecuteMsg::AddComment { thread_id: 1, comment };
    let _res = contract::execute(&mut store, &creator, msg);

    let res = contract::query(&store, QueryMsg::GetCommentById { id: 1 });
    let value = comment_response(res);
    assert_eq!(1, value.thread_id);
}

#[test]
fn update_comment() {
    let mut store = instantiate_contract();
    create_new_thread(&mut store);

    create_new_comment(&mut store, "creator");

    let update_comment_msg =
        ExecuteMsg::UpdateComment { comment_id: 1, comment: String::from("Updated Comment") };

    let res = contract::execute(&mut store, &String::from("anon"), update_comment_msg.clone());
    match res {
        Err(ContractError::Unauthorized) => {}
        _ => panic!("Must return unauthorized error"),
    }

    let _res = contract::execute(&mut store, &String::from("creator"), update_comment_msg);

    let res = contract::query(&store, QueryMsg::GetCommentById { id: 1 });
    let value = comment_response(res);
    assert_eq!(String::from("Updated Comment"), value.comment);
}

#[test]
fn query_threads_by_category() {
    let mut store = contract::instantiate(String::from("creator"), InstantiateMsg {});

    let creator = String::from("creator");
    let title = String::from("First Thread");
    let content = String::from("First Message");
    let category = String::from("General");
    let msg = ExecuteMsg::CreateThread {
        title: title.clone(),
        content: content.clone(),
        category: category.clone(),
    };
    let _res = contract::execute(&mut store, &creator, msg.clone());
    let _res = contract::execute(&mut store, &creator, msg);

    let res = contract::query(
        &store,
        QueryMsg::GetThreadsByCategory {
            category: String::from("General"),
            offset: Some(0_u64),
            limit: Some(10_u32),
        },
    );
    let value = threads_response(res);

    assert_eq!(1, value.entries[0].id);
    assert_eq!(title, value.entries[0].title);
    assert_eq!(content, value.entries[0].content);
    assert_eq!(category, value.entries[0].category);
    assert_eq!(2, value.entries.len());
}

#[test]
fn query_threads_by_author() {
    let mut store = contract::instantiate(String::from("creator"), InstantiateMsg {});

    let creator1 = String::from("creator1");
    let creator2 = String::from("creator2");
    let title = String::from("First Thread");
    let content = String::from("First Message");
    let category = String::from("General");
    let msg = ExecuteMsg::CreateThread { title, content, category };
    let _res = contract::execute(&mut store, &creator1, msg.clone());
    let _res = contract::execute(&mut store, &creator2, msg);

    let res = contract::query(
        &store,
        QueryMsg::GetThreadsByAuthor {
            author: creator1.clone(),
            offset: Some(0_u64),
            limit: Some(10_u32),
        },
    );
    let value = threads_response(res);

    assert_eq!(1, value.entries[0].id);
    assert_eq!(creator1, value.entries[0].author);
    assert_eq!(1, value.entries.len());
}

// The comment scan runs newest first, and its cursor is an exclusive upper bound there: a
// full scan names no cursor (a cursor of 0 would leave nothing below it).
#[test]
fn query_comments_by_thread() {
    let mut store = instantiate_contract();

    create_new_thread(&mut store);

    create_new_comment(&mut store, "creator1");
    create_new_comment(&mut store, "creator1");
    create_new_comment(&mut store, "creator2");

    let res = contract::query(
        &store,
        QueryMsg::GetCommentsByThread { thread_id: 1_u64, offset: None, limit: Some(10_u32) },
    );
    let value = comments_response(res);

    assert_eq!(3, value.entries[0].comment_id);
    assert_eq!(2, value.entries[1].comment_id);
    assert_eq!(1, value.entries[2].comment_id);
    assert_eq!(String::from("creator2"), value.entries[0].author);
    assert_eq!(String::from("creator1"), value.entries[2].author);
    assert_eq!(3, value.entries.len());

    let res = contract::query(
        &store,
        QueryMsg::GetCommentsByThread { thread_id: 1_u64, offset: Some(0_u64), limit: Some(10_u32) },
    );
    assert_eq!(0, comments_response(res).entries.len());
}
