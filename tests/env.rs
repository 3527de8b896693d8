use calculator::env::Env;

#[test]
fn empty_bindings() {
    let env: Env<u32> = Env::new();
    assert_eq!(env.get("x"), None);
}

#[test]
fn insert_then_get() {
    let mut env = Env::new();
    env.insert("x".to_string(), 1u32);
    env.insert("y".to_string(), 2u32);
    assert_eq!(env.get("x"), Some(1));
    assert_eq!(env.get("y"), Some(2));
    assert_eq!(env.get("z"), None);
}

#[test]
fn insert_overrides() {
    let mut env = Env::new();
    env.insert("x".to_string(), 1i64);
    env.insert("x".to_string(), -4i64);
    assert_eq!(env.get("x"), Some(-4));
}
