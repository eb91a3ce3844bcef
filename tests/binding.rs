use toplevel_watch::{select_global, BindError, Engine, GlobalDescriptor, ObjectState, Selection};

fn global(name: u32, interface: &str, version: u32) -> GlobalDescriptor {
    GlobalDescriptor { name, interface: interface.to_string(), version }
}

#[test]
fn manager_selected_at_advertised_version() {
    let globals = vec![global(1, "manager", 3)];
    let r = select_global(&globals, &"manager".to_string(), 1, 3);
    assert_eq!(r, Ok(Selection { name: 1, version: 3 }));
}

#[test]
fn missing_interface_fails() {
    let globals = vec![global(1, "wl_output", 4), global(2, "wl_seat", 7)];
    let r = select_global(&globals, &"manager".to_string(), 1, 3);
    assert_eq!(r, Err(BindError::MissingGlobal));
}

#[test]
fn empty_global_list_fails() {
    let globals: Vec<GlobalDescriptor> = Vec::new();
    assert_eq!(select_global(&globals, &"manager".to_string(), 1, 3), Err(BindError::MissingGlobal));
}

#[test]
fn version_clamped_to_requested_maximum() {
    let globals = vec![global(7, "manager", 5)];
    let r = select_global(&globals, &"manager".to_string(), 1, 3);
    assert_eq!(r, Ok(Selection { name: 7, version: 3 }));
}

#[test]
fn advertised_version_below_range_is_skipped() {
    let globals = vec![global(4, "manager", 1), global(9, "manager", 2)];
    let r = select_global(&globals, &"manager".to_string(), 2, 3);
    assert_eq!(r, Ok(Selection { name: 9, version: 2 }));
    let only_old = vec![global(4, "manager", 1)];
    assert_eq!(select_global(&only_old, &"manager".to_string(), 2, 3), Err(BindError::MissingGlobal));
}

#[test]
fn empty_range_matches_nothing() {
    let globals = vec![global(1, "manager", 3)];
    assert_eq!(select_global(&globals, &"manager".to_string(), 3, 2), Err(BindError::MissingGlobal));
}

#[test]
fn first_matching_global_wins() {
    let globals = vec![global(2, "other", 3), global(5, "manager", 3), global(6, "manager", 3)];
    let r = select_global(&globals, &"manager".to_string(), 1, 3);
    assert_eq!(r, Ok(Selection { name: 5, version: 3 }));
}

#[test]
fn bind_registers_one_manager() {
    let globals = vec![global(1, "manager", 3)];
    let mut engine = Engine::new();
    assert_eq!(engine.manager(), None);
    let r = engine.bind_manager(&globals, &"manager".to_string(), 1, 3, 10);
    assert_eq!(r, Ok(Selection { name: 1, version: 3 }));
    assert_eq!(engine.manager(), Some(10));
    assert_eq!(engine.state_of(10), Some(ObjectState::Manager));
}

#[test]
fn second_bind_is_refused() {
    let globals = vec![global(1, "manager", 3)];
    let mut engine = Engine::new();
    engine.bind_manager(&globals, &"manager".to_string(), 1, 3, 10).unwrap();
    let r = engine.bind_manager(&globals, &"manager".to_string(), 1, 3, 11);
    assert_eq!(r, Err(BindError::AlreadyBound));
    assert_eq!(engine.manager(), Some(10));
    assert_eq!(engine.state_of(11), None);
}

#[test]
fn independent_binds_have_their_own_manager() {
    let globals = vec![global(1, "manager", 3)];
    let mut first = Engine::new();
    let mut second = Engine::new();
    first.bind_manager(&globals, &"manager".to_string(), 1, 3, 10).unwrap();
    second.bind_manager(&globals, &"manager".to_string(), 1, 3, 20).unwrap();
    assert_eq!(first.manager(), Some(10));
    assert_eq!(second.manager(), Some(20));
    assert_eq!(first.state_of(20), None);
    assert_eq!(second.state_of(10), None);
}

#[test]
fn failed_bind_leaves_engine_unbound() {
    let globals = vec![global(1, "wl_output", 3)];
    let mut engine = Engine::new();
    let r = engine.bind_manager(&globals, &"manager".to_string(), 1, 3, 10);
    assert_eq!(r, Err(BindError::MissingGlobal));
    assert_eq!(engine.manager(), None);
    assert_eq!(engine.state_of(10), None);
}
