use chattery::registry::{bytes_eq, Registry};

#[test]
fn insert_and_contains() {
    let mut reg = Registry::new();
    assert_eq!(reg.len(), 0);
    reg.insert(b"127.0.0.1:5001".to_vec());
    reg.insert(b"127.0.0.1:5002".to_vec());
    assert_eq!(reg.len(), 2);
    assert!(reg.contains(&b"127.0.0.1:5001".to_vec()));
    assert!(reg.contains(&b"127.0.0.1:5002".to_vec()));
    assert!(!reg.contains(&b"127.0.0.1:5003".to_vec()));
}

#[test]
fn duplicate_insert_is_noop() {
    let mut reg = Registry::new();
    reg.insert(b"a".to_vec());
    reg.insert(b"a".to_vec());
    assert_eq!(reg.len(), 1);
}

#[test]
fn remove_untracked_is_noop() {
    let mut reg = Registry::new();
    reg.insert(b"a".to_vec());
    reg.remove(&b"b".to_vec());
    assert_eq!(reg.len(), 1);
    assert!(reg.contains(&b"a".to_vec()));
}

#[test]
fn remove_twice_is_noop() {
    let mut reg = Registry::new();
    reg.insert(b"a".to_vec());
    reg.insert(b"b".to_vec());
    reg.remove(&b"a".to_vec());
    assert_eq!(reg.len(), 1);
    reg.remove(&b"a".to_vec());
    assert_eq!(reg.len(), 1);
    assert!(reg.contains(&b"b".to_vec()));
    assert!(!reg.contains(&b"a".to_vec()));
}

#[test]
fn others_excludes_only_the_sender() {
    let mut reg = Registry::new();
    reg.insert(b"a".to_vec());
    reg.insert(b"b".to_vec());
    reg.insert(b"c".to_vec());
    let targets = reg.others(&b"b".to_vec());
    assert_eq!(targets, vec![b"a".to_vec(), b"c".to_vec()]);
}

#[test]
fn others_of_absent_sender_is_everyone() {
    let mut reg = Registry::new();
    reg.insert(b"a".to_vec());
    reg.insert(b"b".to_vec());
    let targets = reg.others(&b"z".to_vec());
    assert_eq!(targets, vec![b"a".to_vec(), b"b".to_vec()]);
}

#[test]
fn bytes_eq_compares_contents() {
    assert!(bytes_eq(&b"abc".to_vec(), &b"abc".to_vec()));
    assert!(!bytes_eq(&b"abc".to_vec(), &b"abd".to_vec()));
    assert!(!bytes_eq(&b"abc".to_vec(), &b"ab".to_vec()));
    assert!(bytes_eq(&Vec::new(), &Vec::new()));
}
