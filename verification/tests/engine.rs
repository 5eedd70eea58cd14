use kvs::engine::{Engine, KvsEngine, KvsError, MemoryEngine};

#[test]
fn set_then_get() {
    let mut engine = MemoryEngine::new();
    assert_eq!(engine.set("a".to_string(), "1".to_string()), Ok(()));
    assert_eq!(engine.get("a".to_string()), Ok(Some("1".to_string())));
}

#[test]
fn remove_then_get_then_remove_again() {
    let mut engine = MemoryEngine::new();
    assert_eq!(engine.set("a".to_string(), "1".to_string()), Ok(()));
    assert_eq!(engine.get("a".to_string()), Ok(Some("1".to_string())));
    assert_eq!(engine.remove("a".to_string()), Ok(()));
    assert_eq!(engine.get("a".to_string()), Ok(None));
    assert_eq!(engine.remove("a".to_string()), Err(KvsError::KeyNotFound));
    assert_eq!(KvsError::KeyNotFound.message(), "Key not found");
}

#[test]
fn get_of_a_missing_key_is_no_error() {
    let mut engine = MemoryEngine::new();
    assert_eq!(engine.get("missing".to_string()), Ok(None));
}

#[test]
fn set_overwrites() {
    let mut engine = MemoryEngine::new();
    assert_eq!(engine.set("k".to_string(), "old".to_string()), Ok(()));
    assert_eq!(engine.set("k".to_string(), "new".to_string()), Ok(()));
    assert_eq!(engine.get("k".to_string()), Ok(Some("new".to_string())));
}

#[test]
fn keys_are_independent() {
    let mut engine = MemoryEngine::new();
    assert_eq!(engine.set("a".to_string(), "1".to_string()), Ok(()));
    assert_eq!(engine.set("b".to_string(), "2".to_string()), Ok(()));
    assert_eq!(engine.remove("a".to_string()), Ok(()));
    assert_eq!(engine.get("b".to_string()), Ok(Some("2".to_string())));
    assert_eq!(engine.get("a".to_string()), Ok(None));
}

#[test]
fn engine_error_messages() {
    assert_eq!(KvsError::KeyNotFound.message(), "Key not found");
    assert_eq!(KvsError::Io("disk full".to_string()).message(), "disk full");
}

#[test]
fn engine_names() {
    assert_eq!(Engine::from_str("kvs"), Ok(Engine::Kvs));
    assert_eq!(Engine::from_str("sled"), Ok(Engine::Sled));
    assert_eq!(Engine::Kvs.to_string(), "kvs");
    assert_eq!(Engine::Sled.to_string(), "sled");
}

#[test]
fn engine_name_that_is_none() {
    assert_eq!(
        Engine::from_str("rocks"),
        Err("'rocks' is not a valid engine. Use 'kvs' or 'sled'.".to_string())
    );
    assert_eq!(
        Engine::from_str("KVS"),
        Err("'KVS' is not a valid engine. Use 'kvs' or 'sled'.".to_string())
    );
    assert_eq!(
        Engine::from_str(""),
        Err("'' is not a valid engine. Use 'kvs' or 'sled'.".to_string())
    );
    assert!(Engine::from_str("kvs ").is_err());
    assert!(Engine::from_str("sle").is_err());
}
