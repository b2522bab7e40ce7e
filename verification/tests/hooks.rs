use dao_contracts::hooks::{add_hook, remove_hook, HookError};

#[test]
fn hooks_are_registered_once() {
    let mut hooks: Vec<String> = vec![];
    add_hook(&mut hooks, "a".to_string()).unwrap();
    add_hook(&mut hooks, "b".to_string()).unwrap();
    assert_eq!(add_hook(&mut hooks, "a".to_string()), Err(HookError::HookAlreadyRegistered {}));
    assert_eq!(hooks, vec!["a".to_string(), "b".to_string()]);
}

#[test]
fn remove_undoes_add() {
    let mut hooks: Vec<String> = vec!["x".to_string()];
    add_hook(&mut hooks, "y".to_string()).unwrap();
    remove_hook(&mut hooks, &"y".to_string()).unwrap();
    assert_eq!(hooks, vec!["x".to_string()]);
    assert_eq!(remove_hook(&mut hooks, &"y".to_string()), Err(HookError::HookNotRegistered {}));
    remove_hook(&mut hooks, &"x".to_string()).unwrap();
    assert!(hooks.is_empty());
}
