use x_lang::scope::{BlockScope, ScopeType};
use x_lang::shared::{CompileError, Kind, KindName};

fn var_binding(slot: usize) -> ScopeType {
    ScopeType::Variable {
        kind: Kind::Exact(KindName::Number),
        ptr: Some(slot),
    }
}

#[test]
fn push_and_pop_balance_depth() {
    let mut s = BlockScope::new();
    assert_eq!(s.depth(), 0);
    s.push(0);
    s.push(1);
    assert_eq!(s.depth(), 2);
    s.pop();
    assert_eq!(s.depth(), 1);
    s.pop();
    assert_eq!(s.depth(), 0);
}

#[test]
fn duplicate_in_same_frame_is_rejected() {
    let mut s = BlockScope::new();
    s.push(0);
    assert!(s.put_variable("x", var_binding(0)).is_ok());
    assert_eq!(
        s.put_variable("x", var_binding(1)),
        Err(CompileError::DuplicateSymbol)
    );
}

#[test]
fn same_name_in_inner_frame_shadows() {
    let mut s = BlockScope::new();
    s.push(0);
    assert!(s.put_variable("x", var_binding(0)).is_ok());
    s.push(1);
    // not a duplicate: a fresh frame may rebind the name
    assert!(s.put_variable("x", var_binding(7)).is_ok());
    match s.search_by_name("x") {
        Some(ScopeType::Variable { ptr, .. }) => assert_eq!(*ptr, Some(7)),
        other => panic!("unexpected binding: {:?}", other),
    }
    s.pop();
    // the outer binding is visible again
    match s.search_by_name("x") {
        Some(ScopeType::Variable { ptr, .. }) => assert_eq!(*ptr, Some(0)),
        other => panic!("unexpected binding: {:?}", other),
    }
}

#[test]
fn lookup_walks_outward() {
    let mut s = BlockScope::new();
    s.push(0);
    assert!(s.put_variable("outer", var_binding(3)).is_ok());
    s.push(1);
    assert!(s.put_variable("inner", var_binding(4)).is_ok());
    assert!(s.search_by_name("outer").is_some());
    assert!(s.search_by_name("inner").is_some());
    assert!(s.search_by_name("missing").is_none());
    s.pop();
    assert!(s.search_by_name("inner").is_none());
}

#[test]
fn function_bindings_are_found() {
    let mut s = BlockScope::new();
    s.push(0);
    let f = ScopeType::Function {
        fn_index: 2,
        return_kind: Kind::Exact(KindName::Number),
        arg_kind_names: vec![KindName::Number],
    };
    assert!(s.put_variable("f", f).is_ok());
    match s.search_by_name("f") {
        Some(ScopeType::Function {
            fn_index,
            return_kind,
            arg_kind_names,
        }) => {
            assert_eq!(*fn_index, 2);
            assert_eq!(*return_kind, Kind::Exact(KindName::Number));
            assert_eq!(arg_kind_names.as_slice(), &[KindName::Number]);
        }
        other => panic!("unexpected binding: {:?}", other),
    }
}
