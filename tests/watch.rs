use ramdir::watch::{bytes_equal, FileWatcher};

fn sorted(mut v: Vec<u64>) -> Vec<u64> {
    v.sort();
    v
}

#[test]
fn change_fires_every_live_callback() {
    let mut w: FileWatcher<&str> = FileWatcher::new(Some(b"gen1".to_vec()));
    let a = w.watch("a").unwrap();
    let b = w.watch("b").unwrap();
    assert_ne!(a, b);
    assert_eq!(w.poll(Some(b"gen1".to_vec())), Vec::<u64>::new());
    assert_eq!(sorted(w.poll(Some(b"gen2".to_vec()))), sorted(vec![a, b]));
    // The change was seen: the same contents again is no change.
    assert_eq!(w.poll(Some(b"gen2".to_vec())), Vec::<u64>::new());
    assert_eq!(w.callback(a), Some(&"a"));
}

#[test]
fn unwatched_callback_is_not_fired() {
    let mut w: FileWatcher<u32> = FileWatcher::new(Some(b"x".to_vec()));
    let a = w.watch(1).unwrap();
    let b = w.watch(2).unwrap();
    w.unwatch(a);
    assert_eq!(w.poll(Some(b"y".to_vec())), vec![b]);
    assert_eq!(w.callback(a), None);
    assert_eq!(w.callback(b), Some(&2));
    w.unwatch(a);
    assert_eq!(w.ids(), vec![b]);
}

#[test]
fn failed_read_is_no_change() {
    let mut w: FileWatcher<u32> = FileWatcher::new(None);
    let a = w.watch(7).unwrap();
    assert!(w.poll(None).is_empty());
    assert_eq!(w.poll(Some(Vec::new())), vec![a]);
    assert!(w.poll(None).is_empty());
    assert!(w.poll(Some(Vec::new())).is_empty());
}

#[test]
fn same_length_different_bytes_is_a_change() {
    let mut w: FileWatcher<u32> = FileWatcher::new(Some(b"abc".to_vec()));
    let a = w.watch(0).unwrap();
    assert_eq!(w.poll(Some(b"abd".to_vec())), vec![a]);
}

#[test]
fn bytes_equal_compares_contents() {
    assert!(bytes_equal(b"", b""));
    assert!(bytes_equal(b"abc", b"abc"));
    assert!(!bytes_equal(b"abc", b"abd"));
    assert!(!bytes_equal(b"ab", b"abc"));
}
