use anchor_todo::space::{LIST_INIT_SPACE, TODO_INIT_SPACE};
use anchor_todo::store::{add_todo, delete_todo, initialize, mark_done, update_content};
use anchor_todo::{Identity, TodoError, TodoListAccountData, MAX_CONTENT_LEN, MAX_TODO_LIST_LENGTH};

fn key(n: u8) -> Identity {
    let mut bytes = [0u8; 32];
    bytes[0] = n;
    bytes[31] = n.wrapping_mul(7);
    Identity::new(bytes)
}

fn owner() -> Identity {
    Identity::new([9u8; 32])
}

fn fresh() -> TodoListAccountData {
    let mut list = TodoListAccountData::new(key(200));
    initialize(&mut list, owner());
    list
}

fn check_invariant(list: &TodoListAccountData) {
    assert!(list.todos.len() <= MAX_TODO_LIST_LENGTH);
    assert_eq!(list.count as usize, list.todos.len() - list.deleted_indexes.len());
}

#[test]
fn initialize_gives_empty_list() {
    let mut list = TodoListAccountData::new(key(1));
    add_todo(&mut list, key(2), "x".to_string()).unwrap();
    initialize(&mut list, owner());
    assert_eq!(list.authority, owner());
    assert_eq!(list.count, 0);
    assert!(list.deleted_indexes.is_empty());
    assert!(list.todos.is_empty());
}

#[test]
fn end_to_end_scenario() {
    let (a, b, c) = (key(1), key(2), key(3));
    let mut list = fresh();

    add_todo(&mut list, a, "buy milk".to_string()).unwrap();
    assert_eq!(list.todos[0].id, a);
    assert_eq!(list.todos[0].content, "buy milk");
    assert!(!list.todos[0].completed);
    assert_eq!(list.count, 1);

    add_todo(&mut list, b, "walk dog".to_string()).unwrap();
    assert_eq!(list.todos[1].id, b);
    assert_eq!(list.count, 2);

    delete_todo(&mut list, a).unwrap();
    assert_eq!(list.todos[0].id, Identity::zero());
    assert_eq!(list.todos[0].content, "");
    assert_eq!(list.deleted_indexes, vec![0u16]);
    assert_eq!(list.count, 1);

    add_todo(&mut list, c, "read book".to_string()).unwrap();
    assert_eq!(list.todos[0].id, c);
    assert_eq!(list.todos[0].content, "read book");
    assert!(list.deleted_indexes.is_empty());
    assert_eq!(list.count, 2);
    assert_eq!(list.todos.len(), 2);

    update_content(&mut list, b, "walk two dogs".to_string()).unwrap();
    assert_eq!(list.todos[1].content, "walk two dogs");
    assert_eq!(list.todos[1].id, b);
    assert!(!list.todos[1].completed);

    mark_done(&mut list, c).unwrap();
    assert!(list.todos[0].completed);
    assert!(!list.todos[1].completed);
    check_invariant(&list);
}

#[test]
fn fill_to_capacity_then_list_full() {
    let mut list = fresh();
    for n in 0..MAX_TODO_LIST_LENGTH {
        add_todo(&mut list, key(n as u8 + 10), format!("item {}", n)).unwrap();
    }
    assert_eq!(list.todos.len(), MAX_TODO_LIST_LENGTH);
    assert_eq!(add_todo(&mut list, key(99), "one more".to_string()), Err(TodoError::ListFull));
    for n in 0..MAX_TODO_LIST_LENGTH / 2 {
        mark_done(&mut list, key(n as u8 + 10)).unwrap();
    }
    assert_eq!(add_todo(&mut list, key(99), "one more".to_string()), Err(TodoError::ListFull));
    assert_eq!(list.count as usize, MAX_TODO_LIST_LENGTH);
    check_invariant(&list);
}

#[test]
fn capacity_is_counted_in_slots_not_live_records() {
    let mut list = fresh();
    for n in 0..MAX_TODO_LIST_LENGTH {
        add_todo(&mut list, key(n as u8 + 10), "x".to_string()).unwrap();
    }
    delete_todo(&mut list, key(10)).unwrap();
    assert_eq!(list.count as usize, MAX_TODO_LIST_LENGTH - 1);
    assert_eq!(add_todo(&mut list, key(99), "y".to_string()), Err(TodoError::ListFull));
    assert_eq!(list.deleted_indexes, vec![0u16]);
    check_invariant(&list);
}

#[test]
fn freed_slots_are_reused_last_first() {
    let mut list = fresh();
    for n in 0..5u8 {
        add_todo(&mut list, key(n + 1), "x".to_string()).unwrap();
    }
    delete_todo(&mut list, key(2)).unwrap();
    delete_todo(&mut list, key(4)).unwrap();
    delete_todo(&mut list, key(1)).unwrap();
    assert_eq!(list.deleted_indexes, vec![1u16, 3, 0]);

    add_todo(&mut list, key(11), "a".to_string()).unwrap();
    assert_eq!(list.todos[0].id, key(11));
    add_todo(&mut list, key(12), "b".to_string()).unwrap();
    assert_eq!(list.todos[3].id, key(12));
    add_todo(&mut list, key(13), "c".to_string()).unwrap();
    assert_eq!(list.todos[1].id, key(13));
    assert!(list.deleted_indexes.is_empty());
    assert_eq!(list.todos.len(), 5);
    add_todo(&mut list, key(14), "d".to_string()).unwrap();
    assert_eq!(list.todos.len(), 6);
    assert_eq!(list.todos[5].id, key(14));
    check_invariant(&list);
}

#[test]
fn delete_scrubs_slot() {
    let mut list = fresh();
    add_todo(&mut list, key(1), "secret".to_string()).unwrap();
    add_todo(&mut list, key(2), "other".to_string()).unwrap();
    mark_done(&mut list, key(1)).unwrap();
    delete_todo(&mut list, key(1)).unwrap();
    assert_eq!(list.todos[0].content, "");
    assert!(!list.todos[0].completed);
    assert_eq!(list.todos[0].id, Identity::default());
    mark_done(&mut list, key(2)).unwrap();
    update_content(&mut list, key(2), "changed".to_string()).unwrap();
    assert_eq!(list.todos[0].content, "");
    assert!(!list.todos[0].completed);
    assert_eq!(list.todos[0].id, Identity::zero());
}

#[test]
fn content_length_boundary_on_add() {
    let mut list = fresh();
    let exact = "a".repeat(MAX_CONTENT_LEN);
    let over = "a".repeat(MAX_CONTENT_LEN + 1);
    assert_eq!(add_todo(&mut list, key(1), over), Err(TodoError::ContentTooLong));
    assert!(list.todos.is_empty());
    assert_eq!(add_todo(&mut list, key(1), exact.clone()), Ok(()));
    assert_eq!(list.todos[0].content, exact);
}

#[test]
fn content_length_counts_bytes() {
    let mut list = fresh();
    let exact = "\u{e9}".repeat(MAX_CONTENT_LEN / 2);
    let over = "\u{e9}".repeat(MAX_CONTENT_LEN / 2 + 1);
    assert_eq!(add_todo(&mut list, key(1), over), Err(TodoError::ContentTooLong));
    assert_eq!(add_todo(&mut list, key(1), exact), Ok(()));
}

#[test]
fn content_length_boundary_on_update() {
    let mut list = fresh();
    add_todo(&mut list, key(1), "short".to_string()).unwrap();
    let over = "b".repeat(MAX_CONTENT_LEN + 1);
    assert_eq!(update_content(&mut list, key(1), over), Err(TodoError::ContentTooLong));
    assert_eq!(list.todos[0].content, "short");
    let exact = "b".repeat(MAX_CONTENT_LEN);
    assert_eq!(update_content(&mut list, key(1), exact.clone()), Ok(()));
    assert_eq!(list.todos[0].content, exact);
}

#[test]
fn too_long_content_is_reported_before_missing_id() {
    let mut list = fresh();
    let over = "c".repeat(MAX_CONTENT_LEN + 1);
    assert_eq!(update_content(&mut list, key(5), over), Err(TodoError::ContentTooLong));
}

#[test]
fn unknown_ids_are_not_found() {
    let mut list = fresh();
    add_todo(&mut list, key(1), "x".to_string()).unwrap();
    assert_eq!(mark_done(&mut list, key(7)), Err(TodoError::TodoNotFound));
    assert_eq!(update_content(&mut list, key(7), "y".to_string()), Err(TodoError::TodoNotFound));
    assert_eq!(delete_todo(&mut list, key(7)), Err(TodoError::TodoNotFound));
    assert_eq!(list.count, 1);
    assert_eq!(list.todos[0].content, "x");
}

#[test]
fn deleted_ids_are_not_found() {
    let mut list = fresh();
    add_todo(&mut list, key(1), "x".to_string()).unwrap();
    delete_todo(&mut list, key(1)).unwrap();
    assert_eq!(mark_done(&mut list, key(1)), Err(TodoError::TodoNotFound));
    assert_eq!(update_content(&mut list, key(1), "y".to_string()), Err(TodoError::TodoNotFound));
    assert_eq!(delete_todo(&mut list, key(1)), Err(TodoError::TodoNotFound));
    assert_eq!(list.count, 0);
    assert_eq!(list.deleted_indexes, vec![0u16]);
}

#[test]
fn tombstones_are_not_found_by_zero_id() {
    let mut list = fresh();
    add_todo(&mut list, key(1), "x".to_string()).unwrap();
    delete_todo(&mut list, key(1)).unwrap();
    assert_eq!(mark_done(&mut list, Identity::zero()), Err(TodoError::TodoNotFound));
    assert_eq!(list.get_todo_index(Identity::zero()), Err(TodoError::TodoNotFound));
    assert!(!list.todos[0].completed);
}

#[test]
fn mark_done_twice_succeeds() {
    let mut list = fresh();
    add_todo(&mut list, key(1), "x".to_string()).unwrap();
    assert_eq!(mark_done(&mut list, key(1)), Ok(()));
    assert_eq!(mark_done(&mut list, key(1)), Ok(()));
    assert!(list.todos[0].completed);
    assert_eq!(list.todos[0].content, "x");
}

#[test]
fn lookup_finds_first_live_match() {
    let mut list = fresh();
    add_todo(&mut list, key(1), "first".to_string()).unwrap();
    add_todo(&mut list, key(2), "second".to_string()).unwrap();
    add_todo(&mut list, key(1), "third".to_string()).unwrap();
    assert_eq!(list.get_todo_index(key(1)), Ok(0));
    assert_eq!(list.get_todo_index(key(2)), Ok(1));
    delete_todo(&mut list, key(1)).unwrap();
    assert_eq!(list.get_todo_index(key(1)), Ok(2));
    assert_eq!(list.get_todo_index(key(3)), Err(TodoError::TodoNotFound));
}

#[test]
fn mixed_operations_keep_counts() {
    let mut list = fresh();
    for round in 0..6u8 {
        for n in 0..5u8 {
            let _ = add_todo(&mut list, key(round * 10 + n), "z".to_string());
            check_invariant(&list);
        }
        for n in 0..3u8 {
            let _ = delete_todo(&mut list, key(round * 10 + n));
            check_invariant(&list);
        }
        let _ = mark_done(&mut list, key(round * 10 + 4));
        check_invariant(&list);
    }
    assert_eq!(list.count, 12);
    assert_eq!(list.todos.len(), 12 + list.deleted_indexes.len());
}

#[test]
fn identity_comparison() {
    assert!(key(1).same_as(&key(1)));
    assert!(!key(1).same_as(&key(2)));
    let mut bytes = [0u8; 32];
    assert!(Identity::new(bytes).same_as(&Identity::zero()));
    bytes[31] = 1;
    assert!(!Identity::new(bytes).same_as(&Identity::zero()));
    assert_eq!(Identity::new(bytes).bytes, bytes);
}

#[test]
fn reserved_space_values() {
    assert_eq!(TODO_INIT_SPACE, 237);
    assert_eq!(LIST_INIT_SPACE, 9602);
}

#[test]
fn serialized_len_follows_contents() {
    let mut list = fresh();
    assert_eq!(list.serialized_len(), 42);
    add_todo(&mut list, key(1), "buy milk".to_string()).unwrap();
    assert_eq!(list.serialized_len(), 87);
    delete_todo(&mut list, key(1)).unwrap();
    assert_eq!(list.serialized_len(), 81);
    add_todo(&mut list, key(2), "\u{e9}".to_string()).unwrap();
    assert_eq!(list.serialized_len(), 81);
}

#[test]
fn full_list_fits_reserved_space() {
    let mut list = fresh();
    for n in 0..MAX_TODO_LIST_LENGTH {
        add_todo(&mut list, key(n as u8 + 1), "q".repeat(MAX_CONTENT_LEN)).unwrap();
    }
    assert_eq!(list.serialized_len(), LIST_INIT_SPACE - 2 * MAX_TODO_LIST_LENGTH);
    for n in 0..MAX_TODO_LIST_LENGTH {
        delete_todo(&mut list, key(n as u8 + 1)).unwrap();
    }
    assert!(list.serialized_len() <= LIST_INIT_SPACE);
    assert_eq!(list.count, 0);
}

#[test]
fn well_formedness_check() {
    let mut list = fresh();
    assert!(list.is_well_formed());
    add_todo(&mut list, key(1), "a".to_string()).unwrap();
    add_todo(&mut list, key(2), "b".to_string()).unwrap();
    delete_todo(&mut list, key(1)).unwrap();
    assert!(list.is_well_formed());

    let mut bad = TodoListAccountData::new(owner());
    add_todo(&mut bad, key(1), "a".to_string()).unwrap();
    bad.count = 2;
    assert!(!bad.is_well_formed());

    let mut oob = TodoListAccountData::new(owner());
    add_todo(&mut oob, key(1), "a".to_string()).unwrap();
    add_todo(&mut oob, key(2), "b".to_string()).unwrap();
    oob.deleted_indexes.push(5);
    oob.count = 1;
    assert!(!oob.is_well_formed());

    let mut dup = TodoListAccountData::new(owner());
    add_todo(&mut dup, key(1), "a".to_string()).unwrap();
    add_todo(&mut dup, key(2), "b".to_string()).unwrap();
    add_todo(&mut dup, key(3), "c".to_string()).unwrap();
    delete_todo(&mut dup, key(1)).unwrap();
    dup.deleted_indexes.push(0);
    dup.count = 1;
    assert!(!dup.is_well_formed());

    let mut dirty = TodoListAccountData::new(owner());
    add_todo(&mut dirty, key(1), "a".to_string()).unwrap();
    delete_todo(&mut dirty, key(1)).unwrap();
    dirty.todos[0].content = "left over".to_string();
    assert!(!dirty.is_well_formed());

    let mut long = TodoListAccountData::new(owner());
    add_todo(&mut long, key(1), "a".to_string()).unwrap();
    long.todos[0].content = "x".repeat(MAX_CONTENT_LEN + 1);
    assert!(!long.is_well_formed());
}
