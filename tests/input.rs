use gloom::input::KeySet;

#[test]
fn pressing_twice_holds_once() {
    let mut keys = KeySet::new();
    keys.press(30);
    keys.press(30);
    assert_eq!(keys.len(), 1);
    assert!(keys.contains(30));
}

#[test]
fn release_forgets_only_that_key() {
    let mut keys = KeySet::new();
    keys.press(1);
    keys.press(2);
    keys.press(3);
    keys.release(2);
    keys.release(9);
    assert_eq!(keys.keys(), vec![1, 3]);
    assert!(!keys.contains(2));
}

#[test]
fn interleaved_press_runs_hold_each_key_once() {
    let first: Vec<u32> = (0..50).map(|k| k % 20).collect();
    let second: Vec<u32> = (0..50).map(|k| 10 + k % 30).collect();
    let mut keys = KeySet::new();
    for k in 0..50 {
        keys.press(first[k]);
        keys.press(second[k]);
        let held = keys.len();
        assert!(held <= 40);
        assert_eq!(keys.keys().len(), held);
    }
    // keys 0..20 and 10..40: 40 distinct
    assert_eq!(keys.len(), 40);
    let mut other = KeySet::new();
    other.press_all(&second);
    other.press_all(&first);
    assert_eq!(other.len(), 40);
    let mut a = keys.keys();
    let mut b = other.keys();
    a.sort();
    b.sort();
    assert_eq!(a, b);
}
