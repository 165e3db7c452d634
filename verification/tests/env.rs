use lisp::env::Env;
use lisp::equal::equal;
use lisp::object::{fixnum, symbol};

#[test]
fn new_environment_binds_nothing() {
    let env = Env::new();
    assert!(env.get("car").is_none());
    assert!(env.get("x").is_none());
    assert_eq!(env.current(), 0);
}

#[test]
fn global_environment_binds_the_natives() {
    let env = Env::global_env();
    for name in ["+", "atom?", "cons", "car", "cdr", "equal"] {
        assert_eq!(env.get(name).unwrap().to_string(), "<Fn>");
    }
    assert!(env.get("quote").is_none());
    let mut other = Env::new();
    other.init();
    assert!(equal(other.get("car").unwrap(), env.get("car").unwrap()));
    assert!(!equal(other.get("car").unwrap(), env.get("cdr").unwrap()));
}

#[test]
fn insert_binds_and_overwrites() {
    let mut env = Env::new();
    env.insert("x", fixnum(1));
    env.insert("y", fixnum(2));
    assert!(equal(env.get("x").unwrap(), fixnum(1)));
    env.insert("x", fixnum(3));
    assert!(equal(env.get("x").unwrap(), fixnum(3)));
    assert!(equal(env.get("y").unwrap(), fixnum(2)));
    assert!(env.get("X").is_none());
}

#[test]
fn set_rebinds_only_what_is_bound() {
    let mut env = Env::new();
    assert!(!env.set("x", fixnum(1)));
    assert!(env.get("x").is_none());
    env.insert("x", fixnum(1));
    assert!(env.set("x", fixnum(2)));
    assert!(equal(env.get("x").unwrap(), fixnum(2)));
}

#[test]
fn child_scopes_see_and_shadow_their_parents() {
    let mut env = Env::new();
    env.insert("x", fixnum(1));
    env.insert("y", fixnum(2));
    let root = env.current();
    let child = env.child_scope(root);
    assert_eq!(child, 1);
    assert_eq!(env.current(), root);
    env.switch_to(child);
    assert_eq!(env.current(), child);
    assert!(equal(env.get("x").unwrap(), fixnum(1)));
    env.insert("x", fixnum(10));
    assert!(equal(env.get("x").unwrap(), fixnum(10)));
    assert!(env.set("y", symbol("changed")));
    assert!(env.set("x", fixnum(11)));
    env.insert("z", fixnum(3));
    env.switch_to(root);
    assert!(equal(env.get("x").unwrap(), fixnum(1)));
    assert!(equal(env.get("y").unwrap(), symbol("changed")));
    assert!(env.get("z").is_none());
    let grandchild = env.child_scope(child);
    env.switch_to(grandchild);
    assert!(equal(env.get("z").unwrap(), fixnum(3)));
    assert!(equal(env.get("x").unwrap(), fixnum(11)));
}

#[test]
fn unknown_scopes_are_left_alone() {
    let mut env = Env::new();
    env.insert("x", fixnum(1));
    env.switch_to(7);
    assert_eq!(env.current(), 0);
    let orphan = env.child_scope(7);
    env.switch_to(orphan);
    assert!(env.get("x").is_none());
}

#[test]
fn closure_numbers_count_up() {
    let mut env = Env::new();
    assert_eq!(env.next_closure(), 0);
    assert_eq!(env.next_closure(), 1);
    assert_eq!(env.next_closure(), 2);
}
