use cinnabar::store::Store;

#[derive(Debug, Clone, PartialEq)]
struct Task {
    name: String,
    done: bool,
}

#[test]
fn putting_and_getting_data() {
    let mut store: Store<Task> = Store::new();

    let task = Task {
        name: "A".to_string(),
        done: false,
    };

    let key = store.put(task.clone());

    assert_eq!(store.get(&key), Some(&task));
}

#[test]
fn removing_and_updating_data() {
    let mut store: Store<Task> = Store::new();

    let task_a = Task {
        name: "A".to_string(),
        done: false,
    };

    let task_b = Task {
        name: "B".to_string(),
        done: false,
    };

    let task_c = Task {
        name: "C".to_string(),
        done: false,
    };

    let key_a = store.put(task_a.clone());
    let key_b = store.put(task_b.clone());
    let key_c = store.put(task_c.clone());

    let task_updated = Task {
        name: "B".to_string(),
        done: true,
    };

    store.update(&key_b, task_updated.clone());
    store.remove(&key_c);

    assert_eq!(store.get(&key_a), Some(&task_a));
    assert_eq!(store.get(&key_b), Some(&task_updated));
    assert_eq!(store.get(&key_c), None);
}

#[test]
fn finding_data() {
    let mut store: Store<Task> = Store::new();

    let task_a = Task {
        name: "A".to_string(),
        done: false,
    };

    let task_b = Task {
        name: "B".to_string(),
        done: true,
    };

    let task_c = Task {
        name: "C".to_string(),
        done: false,
    };

    let _key_a = store.put(task_a.clone());
    let key_b = store.put(task_b.clone());
    let _key_c = store.put(task_c.clone());

    let completed_task = store.find(|t| t.done == true);

    assert_eq!(store.get(&key_b), completed_task);

    let undone_tasks = store.find_all(|t| t.done == false);

    assert!(undone_tasks.contains(&&task_a));
    assert!(undone_tasks.contains(&&task_c));
}

#[test]
fn made_up_keys_have_the_shape_of_an_identifier() {
    let mut store: Store<u8> = Store::new();
    let key = store.put(1);
    let chars: Vec<char> = key.chars().collect();
    assert_eq!(chars.len(), 36);
    for (i, c) in chars.iter().enumerate() {
        if i == 8 || i == 13 || i == 18 || i == 23 {
            assert_eq!(*c, '-');
        } else {
            assert!(c.is_ascii_digit() || ('a'..='f').contains(c));
        }
    }
    assert_eq!(chars[14], '4');
    assert!(matches!(chars[19], '8' | '9' | 'a' | 'b'));
}

#[test]
fn made_up_keys_differ() {
    let mut store: Store<u8> = Store::new();
    let first = store.put(1);
    let second = store.put(2);
    assert_ne!(first, second);
    assert_eq!(store.get(&first), Some(&1));
    assert_eq!(store.get(&second), Some(&2));
}

#[test]
fn update_returns_what_was_there() {
    let mut store: Store<u8> = Store::new();
    assert_eq!(store.update("k", 1), None);
    assert_eq!(store.update("k", 2), Some(1));
    assert_eq!(store.get("k"), Some(&2));
    assert_eq!(store.remove("k"), Some(2));
    assert_eq!(store.remove("k"), None);
    assert_eq!(store.get("k"), None);
}

#[test]
fn find_takes_the_first_in_the_order_of_the_entries() {
    let mut store: Store<u8> = Store::new();
    store.update("b", 4);
    store.update("a", 6);
    store.update("c", 8);
    assert_eq!(store.find(|n| *n > 5), Some(&6));
    assert_eq!(store.find(|n| *n > 8), None);
    assert_eq!(store.find_all(|n| *n != 6), vec![&4, &8]);
    let none: Vec<&u8> = Vec::new();
    assert_eq!(store.find_all(|n| *n > 8), none);
}
