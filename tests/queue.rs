use std::collections::{HashMap, HashSet};

use spoolq::queue::{stream_step, NameError, Queue, QueueStream, StreamPoll};
use spoolq::select::{flush_targets, pop_rename, recover_moves, select_oldest};

type Foo = (i32, bool, String);

/// A directory held in memory, driven by the library's decisions in the way
/// the file-backed queue drives a real one.
struct Dir {
    files: HashMap<String, Vec<u8>>,
}

impl Dir {
    fn new() -> Dir {
        Dir { files: HashMap::new() }
    }

    fn listing(&self) -> Vec<String> {
        self.files.keys().cloned().collect()
    }

    fn rename(&mut self, from: &str, to: &str) -> bool {
        match self.files.remove(from) {
            Some(b) => {
                self.files.insert(to.to_string(), b);
                true
            }
            None => false,
        }
    }
}

fn push(q: &mut Queue<Foo>, d: &mut Dir, item: &Foo) {
    let names = q.push_names().unwrap();
    assert!(!d.files.contains_key(&names.incoming));
    d.files.insert(names.incoming.clone(), serde_json::to_vec(item).unwrap());
    assert!(d.rename(&names.incoming, &names.visible));
}

fn pop(d: &mut Dir) -> Option<Foo> {
    match pop_rename(&d.listing()) {
        Some((visible, consumed)) => {
            assert!(d.rename(&visible, &consumed));
            Some(serde_json::from_slice(&d.files[&consumed]).unwrap())
        }
        None => None,
    }
}

fn pull(d: &mut Dir) -> Option<Foo> {
    let ls = d.listing();
    match select_oldest(&ls) {
        Some(i) => {
            let b = d.files.remove(&ls[i]).unwrap();
            Some(serde_json::from_slice(&b).unwrap())
        }
        None => None,
    }
}

fn flush(d: &mut Dir) {
    for n in flush_targets(&d.listing()) {
        d.files.remove(&n);
    }
}

fn recover(d: &mut Dir) {
    for (from, to) in recover_moves(&d.listing()) {
        assert!(d.rename(&from, &to));
    }
}

fn foo(i: i32) -> Foo {
    (i, i % 3 == 0, format!("#{}", i))
}

#[test]
fn test_push_pop() {
    let mut q = Queue::<Foo>::new("spool");
    let mut d = Dir::new();
    push(&mut q, &mut d, &(999, true, "foo".to_string()));
    let result = pop(&mut d).unwrap();
    assert_eq!(result, (999, true, "foo".to_string()));
    assert!(pop(&mut d).is_none());
}

#[test]
fn test_push_pop_many() {
    let mut q = Queue::<Foo>::new("spool");
    let mut d = Dir::new();
    let mut indexes = HashSet::<i32>::new();
    for i in 0..100 {
        push(&mut q, &mut d, &foo(i));
        indexes.insert(i);
    }
    for _ in 0..100 {
        let item = pop(&mut d).unwrap();
        assert_eq!(item.1, item.0 % 3 == 0);
        assert_eq!(item.2, format!("#{}", item.0));
        assert!(item.0 > -1);
        assert!(item.0 < 100);
        assert!(indexes.remove(&item.0));
    }
    assert!(pop(&mut d).is_none());
    assert!(indexes.is_empty());
}

#[test]
fn test_recover_flush() {
    let mut q = Queue::<Foo>::new("spool");
    let mut d = Dir::new();
    let mut indexes = HashSet::<i32>::new();
    for i in 0..100 {
        push(&mut q, &mut d, &foo(i));
        indexes.insert(i);
    }
    flush(&mut d);
    for _ in 0..100 {
        let item = pop(&mut d).unwrap();
        assert_eq!(item.1, item.0 % 3 == 0);
        assert_eq!(item.2, format!("#{}", item.0));
        assert!(item.0 > -1);
        assert!(item.0 < 100);
        indexes.remove(&item.0);
    }
    assert!(pop(&mut d).is_none());
    assert!(indexes.is_empty());

    recover(&mut d);
    for _ in 0..100 {
        let item = pop(&mut d).unwrap();
        assert_eq!(item.1, item.0 % 3 == 0);
        assert_eq!(item.2, format!("#{}", item.0));
        assert!(item.0 > -1);
        assert!(item.0 < 100);
    }
    assert!(pop(&mut d).is_none());
    flush(&mut d);
    recover(&mut d);
    assert!(pop(&mut d).is_none());
}

#[test]
fn test_push_in_stream_out() {
    let q = Queue::<Foo>::new("spool");
    let mut qs = QueueStream::new(q);
    let mut d = Dir::new();
    for i in 0..100 {
        push(qs.mut_queue(), &mut d, &foo(i));
    }
    assert_eq!(qs.queue().seq(), 100);
    let mut sum = 0;
    let mut taken = 0;
    while taken < 100 {
        let r: Result<Option<Foo>, String> = Ok(pop(&mut d));
        match stream_step(r) {
            StreamPoll::Ready(item) => {
                sum += item.0;
                taken += 1;
            }
            StreamPoll::NotReady => panic!("items are waiting"),
            StreamPoll::Failed(e) => panic!("{}", e),
        }
    }
    assert_eq!(sum, 4950); // 0+1+2+..+99
}

#[test]
fn pull_delivers_in_push_order() {
    let mut q = Queue::<Foo>::new("spool");
    let mut d = Dir::new();
    for i in 0..100 {
        push(&mut q, &mut d, &foo(i));
    }
    for i in 0..100 {
        assert_eq!(pull(&mut d).unwrap().0, i);
    }
    assert!(pull(&mut d).is_none());
}

#[test]
fn recover_redelivers_unacknowledged_item() {
    let mut q = Queue::<Foo>::new("spool");
    let mut d = Dir::new();
    push(&mut q, &mut d, &foo(7));
    assert_eq!(pop(&mut d).unwrap(), foo(7));
    assert!(pop(&mut d).is_none());
    recover(&mut d);
    assert_eq!(pop(&mut d).unwrap(), foo(7));
}

#[test]
fn flush_makes_taken_item_permanent() {
    let mut q = Queue::<Foo>::new("spool");
    let mut d = Dir::new();
    push(&mut q, &mut d, &foo(7));
    assert_eq!(pop(&mut d).unwrap(), foo(7));
    flush(&mut d);
    recover(&mut d);
    assert!(pop(&mut d).is_none());
    assert!(d.files.is_empty());
}

#[test]
fn flush_and_recover_on_empty_spool_change_nothing() {
    let mut d = Dir::new();
    flush(&mut d);
    recover(&mut d);
    assert!(d.files.is_empty());
    let mut q = Queue::<Foo>::new("spool");
    push(&mut q, &mut d, &foo(1));
    let before = d.files.clone();
    flush(&mut d);
    recover(&mut d);
    flush(&mut d);
    assert_eq!(d.files, before);
}

#[test]
fn second_consumer_cannot_take_same_file() {
    let mut q = Queue::<Foo>::new("spool");
    let mut d = Dir::new();
    push(&mut q, &mut d, &foo(3));
    let ls = d.listing();
    let (v1, c1) = pop_rename(&ls).unwrap();
    let (v2, c2) = pop_rename(&ls).unwrap();
    assert_eq!(v1, v2);
    assert!(d.rename(&v1, &c1));
    assert!(!d.rename(&v2, &c2));
    assert!(pop_rename(&d.listing()).is_none());
}

#[test]
fn handle_counts_pushes_and_names_items() {
    let mut q = Queue::<Foo>::new("/var/spool/q");
    assert_eq!(q.path(), "/var/spool/q");
    assert_eq!(q.seq(), 0);
    let a = q.push_names().unwrap();
    let b = q.push_names().unwrap();
    assert_eq!(q.seq(), 2);
    assert!(a.visible.starts_with("0000000000000000-"));
    assert!(b.visible.starts_with("0000000000000001-"));
    assert_eq!(a.visible.len(), 16 + 1 + 32);
    assert_eq!(a.incoming, format!("{}.incoming", a.visible));
    assert_ne!(a.visible, b.visible);
}

#[test]
fn next_names_uses_given_nonce() {
    let mut q = Queue::<Foo>::new("q");
    let n = q.next_names("nonce").unwrap();
    assert_eq!(n.visible, "0000000000000000-nonce");
    assert_eq!(n.incoming, "0000000000000000-nonce.incoming");
    assert_eq!(q.seq(), 1);
    assert!(matches!(q.next_names("bad.nonce"), Err(NameError::BadNonce)));
    assert_eq!(q.seq(), 1);
}

#[test]
fn stream_step_maps_outcomes() {
    let r: StreamPoll<i32, String> = stream_step(Ok(Some(5)));
    assert!(matches!(r, StreamPoll::Ready(5)));
    let r: StreamPoll<i32, String> = stream_step(Ok(None));
    assert!(matches!(r, StreamPoll::NotReady));
    let r: StreamPoll<i32, String> = stream_step(Err("e".to_string()));
    assert!(matches!(r, StreamPoll::Failed(ref e) if e == "e"));
}
