use goonpass::algo::{alphabetical, contains, sort};
use goonpass::vault::{Password, State};

fn pw(name: &str) -> Password {
    Password { name: name.to_string(), account: "acct".to_string(), cyphertext: vec![1, 2, 3] }
}

#[test]
fn test_alphabetical_order() {
    assert!(alphabetical("banana", "apple"));
    assert!(!alphabetical("apple", "banana"));
    assert!(!alphabetical("apple", "apple"));
    assert!(alphabetical("applesauce", "apple"));
    assert!(!alphabetical("apple", "applesauce"));
    assert!(!alphabetical("", "apple"));
    assert!(alphabetical("apple", ""));
}

#[test]
fn test_sort_orders_by_name() {
    let mut list = vec![pw("pear"), pw("apple"), pw("mango"), pw("apple"), pw("banana")];
    sort(&mut list);
    let names: Vec<&str> = list.iter().map(|p| p.name.as_str()).collect();
    assert_eq!(names, vec!["apple", "apple", "banana", "mango", "pear"]);
}

#[test]
fn test_contains_finds_every_entry() {
    let mut list = vec![pw("pear"), pw("apple"), pw("mango"), pw("banana")];
    sort(&mut list);
    for name in ["apple", "banana", "mango", "pear"] {
        assert!(contains(name, &list));
    }
    assert!(!contains("cherry", &list));
    assert!(!contains("", &list));
    let empty: Vec<Password> = Vec::new();
    assert!(!contains("apple", &empty));
}

#[test]
fn test_state_new_derives_key_and_sorts() {
    let stored = vec![pw("zebra"), pw("aardvark")];
    let s = State::new("correct-horse", stored);
    assert_eq!(s.master[0], 0x9d);
    assert_eq!(s.master[31], 0x63);
    assert_eq!(s.passwords[0].name, "aardvark");
    assert_eq!(s.passwords[1].name, "zebra");
}

#[test]
fn test_add_and_reveal_password() {
    let mut s = State::new("master-pass", Vec::new());
    let rec = s.add_password("email", "user@example.com", "hunter2").expect("should be added");
    assert_eq!(rec.name, "email");
    assert_eq!(rec.account, "user@example.com");
    assert_eq!(rec.cyphertext.len(), 16);
    assert_eq!(s.passwords.len(), 1);
    assert_eq!(s.reveal_password(0), b"hunter2".to_vec());
}

#[test]
fn test_add_password_rejections() {
    let mut s = State::new("master-pass", Vec::new());
    assert!(s.add_password("", "acct", "secret").is_none());
    assert!(s.add_password("name", "", "secret").is_none());
    assert!(s.add_password("name", "acct", "").is_none());
    let long31 = "x".repeat(31);
    assert!(s.add_password(&long31, "acct", "secret").is_none());
    let long41 = "y".repeat(41);
    assert!(s.add_password("name", &long41, "secret").is_none());
    assert!(s.add_password("name", "acct", &long41).is_none());
    assert!(s.add_password("site", "acct", "secret").is_some());
    // a second credential of the same name is refused
    assert!(s.add_password("site", "other", "other").is_none());
    assert_eq!(s.passwords.len(), 1);
}

#[test]
fn test_remove_password() {
    let mut s = State::new("master-pass", Vec::new());
    s.add_password("alpha", "a", "one").unwrap();
    s.add_password("beta", "b", "two").unwrap();
    s.add_password("gamma", "c", "three").unwrap();
    s.remove_password(1, "beta");
    assert_eq!(s.passwords.len(), 2);
    assert_eq!(s.passwords[0].name, "alpha");
    assert_eq!(s.passwords[1].name, "gamma");
}
