use gello::environment::Environment;
use gello::value::Value;

fn name(s: &str) -> String {
    s.to_string()
}

fn num(v: Option<Value>) -> Option<u64> {
    match v {
        Some(Value::Number(n)) => Some(n),
        Some(other) => panic!("{:?}", other),
        None => None,
    }
}

#[test]
fn get_after_set() {
    let mut env = Environment::new();
    env.set(0, &name("x"), Value::Number(7));
    assert_eq!(num(env.get(0, &name("x"))), Some(7));
    assert_eq!(num(env.get(0, &name("y"))), None);
    env.set(0, &name("x"), Value::Number(8));
    assert_eq!(num(env.get(0, &name("x"))), Some(8));
}

#[test]
fn child_sees_parent_and_shadows() {
    let mut env = Environment::new();
    env.set(0, &name("x"), Value::Number(1));
    let child = env.new_child(0);
    assert_eq!(child, 1);
    assert_eq!(num(env.get(child, &name("x"))), Some(1));
    env.set(child, &name("x"), Value::Number(2));
    assert_eq!(num(env.get(child, &name("x"))), Some(2));
    assert_eq!(num(env.get(0, &name("x"))), Some(1));
}

#[test]
fn assign_walks_up_and_fails_on_unknown_names() {
    let mut env = Environment::new();
    env.set(0, &name("x"), Value::Number(1));
    let child = env.new_child(0);
    assert!(env.assign(child, &name("x"), Value::Number(5)));
    assert_eq!(num(env.get(0, &name("x"))), Some(5));
    assert!(!env.assign(child, &name("nope"), Value::Null));
    assert_eq!(num(env.get(child, &name("nope"))), None);
    assert_eq!(env.len(), 2);
}
