use generics::{find_max, get_largest, get_largest_char, get_largest_integer, MaxError};

/// A value ordered by `key` alone, so that equal keys with different tags
/// show which of several equal elements was chosen.
#[derive(Debug, Clone, Copy)]
struct Tagged {
    key: u32,
    tag: u32,
}

impl PartialEq for Tagged {
    fn eq(&self, other: &Tagged) -> bool {
        self.key == other.key
    }
}

impl PartialOrd for Tagged {
    fn partial_cmp(&self, other: &Tagged) -> Option<std::cmp::Ordering> {
        self.key.partial_cmp(&other.key)
    }
}

#[test]
fn integers_scenario() {
    let v: Vec<u32> = vec![34, 50, 25, 100, 65];
    assert_eq!(*get_largest_integer(&v), 100);
    assert_eq!(*get_largest(&v), 100);
    assert_eq!(*find_max(&v).unwrap(), 100);
}

#[test]
fn chars_scenario() {
    let v = vec!['y', 'm', 'a', 'q'];
    assert_eq!(*get_largest_char(&v), 'y');
    assert_eq!(*get_largest(&v), 'y');
    assert_eq!(*find_max(&v).unwrap(), 'y');
}

#[test]
fn single_element() {
    let v: Vec<u32> = vec![7];
    assert_eq!(*get_largest_integer(&v), 7);
    assert_eq!(*get_largest(&v), 7);
    assert!(std::ptr::eq(get_largest(&v), &v[0]));
    let c = vec!['k'];
    assert_eq!(*get_largest_char(&c), 'k');
}

#[test]
fn all_equal_returns_first() {
    let v: Vec<u32> = vec![5, 5, 5];
    assert_eq!(*get_largest_integer(&v), 5);
    assert!(std::ptr::eq(get_largest(&v), &v[0]));
    assert!(std::ptr::eq(get_largest_integer(&v), &v[0]));
}

#[test]
fn empty_is_rejected() {
    let v: Vec<u32> = vec![];
    assert!(matches!(find_max(&v), Err(MaxError::EmptyInput)));
    assert_eq!(find_max(&v).unwrap_err(), MaxError::EmptyInput);
    let c: Vec<char> = vec![];
    assert!(matches!(find_max(&c), Err(MaxError::EmptyInput)));
}

#[test]
fn ties_keep_earliest_maximum() {
    let v = vec![
        Tagged { key: 3, tag: 0 },
        Tagged { key: 9, tag: 1 },
        Tagged { key: 2, tag: 2 },
        Tagged { key: 9, tag: 3 },
        Tagged { key: 9, tag: 4 },
    ];
    assert_eq!(get_largest(&v).tag, 1);
    assert_eq!(find_max(&v).unwrap().tag, 1);
    assert!(std::ptr::eq(get_largest(&v), &v[1]));
}

#[test]
fn unique_maximum_anywhere() {
    assert_eq!(*get_largest_integer(&[100, 1, 2]), 100);
    assert_eq!(*get_largest_integer(&[1, 100, 2]), 100);
    assert_eq!(*get_largest_integer(&[1, 2, 100]), 100);
    assert_eq!(*get_largest_integer(&[0, u32::MAX, 0]), u32::MAX);
    assert_eq!(*get_largest_char(&['a', 'z', 'b']), 'z');
}

#[test]
fn result_is_an_element_and_not_exceeded() {
    let v: Vec<u32> = vec![4, 8, 15, 16, 23, 42, 8, 0];
    let r = *get_largest(&v);
    assert!(v.contains(&r));
    assert!(v.iter().all(|x| !(*x > r)));
}

#[test]
fn signed_and_string_elements() {
    let v: Vec<i64> = vec![-5, -1, -9];
    assert_eq!(*get_largest(&v), -1);
    let w = vec!["pear", "apple", "plum"];
    assert_eq!(*get_largest(&w), "plum");
}
