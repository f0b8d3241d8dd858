use but_workspace::config::Config;
use but_workspace::repo::Repo;

fn test_repository() -> Repo {
    Repo { commits: Vec::new(), refs: Vec::new(), config: Config::new() }
}

#[test]
pub fn test_set_str() {
    let repo = test_repository();
    let mut config = repo.config().unwrap();
    config
        .set_str(&b"test.key".to_vec(), &b"test.value".to_vec())
        .unwrap();
    assert_eq!(
        config.get_string(&b"test.key".to_vec()).unwrap().unwrap(),
        b"test.value".to_vec()
    );
}

#[test]
pub fn test_set_bool() {
    let repo = test_repository();
    let mut config = repo.config().unwrap();
    config.set_bool(&b"test.key".to_vec(), true).unwrap();
    assert!(config.get_bool(&b"test.key".to_vec()).unwrap().unwrap());
}

#[test]
pub fn test_get_string_none() {
    let repo = test_repository();
    let config = repo.config().unwrap();
    assert_eq!(config.get_string(&b"test.key".to_vec()).unwrap(), None);
}

#[test]
pub fn test_get_bool_none() {
    let repo = test_repository();
    let config = repo.config().unwrap();
    assert_eq!(config.get_bool(&b"test.key".to_vec()).unwrap(), None);
}

#[test]
fn test_get_bool_unparseable_value_fails() {
    let repo = test_repository();
    let mut config = repo.config().unwrap();
    config
        .set_str(&b"test.key".to_vec(), &b"neither".to_vec())
        .unwrap();
    assert!(config.get_bool(&b"test.key".to_vec()).is_err());
}

#[test]
fn test_set_bool_false_round_trip() {
    let repo = test_repository();
    let mut config = repo.config().unwrap();
    config.set_bool(&b"test.key".to_vec(), false).unwrap();
    assert_eq!(
        config.get_bool(&b"test.key".to_vec()).unwrap(),
        Some(false)
    );
    assert_eq!(
        config.get_string(&b"test.key".to_vec()).unwrap().unwrap(),
        b"false".to_vec()
    );
}

#[test]
fn test_last_write_wins() {
    let repo = test_repository();
    let mut config = repo.config().unwrap();
    config
        .set_str(&b"test.key".to_vec(), &b"one".to_vec())
        .unwrap();
    config
        .set_str(&b"test.key".to_vec(), &b"two".to_vec())
        .unwrap();
    assert_eq!(
        config.get_string(&b"test.key".to_vec()).unwrap().unwrap(),
        b"two".to_vec()
    );
}
