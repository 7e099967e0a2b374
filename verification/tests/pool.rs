use cdb_rs::pool::{BufCallback, Pool};
use std::rc::Rc;

struct FirstByteOne;

impl BufCallback for FirstByteOne {
    fn callback(&self, buf: &mut [u8]) {
        buf[0] = 1u8
    }
}

struct Nothing;

impl BufCallback for Nothing {
    fn callback(&self, _buf: &mut [u8]) {}
}

#[test]
fn test_prealloc_and_alloc_and_new() {
    let objsz = 5;
    let nmax = 10;
    let mut p = Pool::new(objsz, nmax, Rc::new(FirstByteOne));

    assert_eq!(p.nused(), 0);
    assert_eq!(p.nmax(), 10);
    assert_eq!(p.free_len(), 0);
    assert!(p.free_capacity() >= 10);

    p.prealloc(3);
    assert_eq!(p.free_len(), 3);

    // make sure the callback was called
    for i in 0..p.free_len() {
        let b = p.free_buf(i);
        assert_eq!(b.len(), objsz);
        assert_eq!(b[0], 1u8)
    }
}

#[test]
fn test_borrow_and_unborrow() {
    let objsz = 5;
    let nmax = 2;
    let mut p = Pool::new(objsz, nmax, Rc::new(FirstByteOne));

    p.prealloc(1);

    let a = p.take().unwrap();
    let b = p.take().unwrap(); // this should allocate because we're still under nmax
    assert_eq!(p.nused(), 2);
    assert!(p.take().is_none()); // sorry we're full

    p.put(a);
    assert_eq!(p.nused(), 1);
    p.put(b);
    assert_eq!(p.free_len(), 2);
    assert_eq!(p.nused(), 0);
}

#[test]
fn pool_without_limit() {
    let mut p = Pool::new(3, 0, Rc::new(Nothing));
    assert_eq!(p.nmax(), usize::MAX);
    let mut taken = Vec::new();
    for i in 0..100 {
        let b = p.take().unwrap();
        assert_eq!(&b[..], &[0u8, 0, 0]);
        taken.push(b);
        assert_eq!(p.nused(), i + 1);
    }
}

#[test]
fn pool_hands_out_the_buffer_that_waited_longest() {
    let mut p = Pool::new(2, 3, Rc::new(Nothing));
    let mut a = p.take().unwrap();
    let mut b = p.take().unwrap();
    a[0] = 10;
    b[0] = 20;
    p.put(a);
    p.put(b);
    assert_eq!(p.free_buf(0), &[10u8, 0]);
    assert_eq!(p.free_buf(1), &[20u8, 0]);
    assert_eq!(&p.take().unwrap()[..], &[10u8, 0]);
    assert_eq!(p.free_len(), 1);
    assert_eq!(&p.take().unwrap()[..], &[20u8, 0]);
    assert_eq!(p.nused(), 2);
}

#[test]
fn prealloc_does_not_look_at_the_limit() {
    let mut p = Pool::new(4, 2, Rc::new(FirstByteOne));
    p.prealloc(5);
    assert_eq!(p.free_len(), 5);
    assert_eq!(p.nused(), 0);
    // Asking for fewer than there are makes none and drops none.
    p.prealloc(3);
    assert_eq!(p.free_len(), 5);
    // Buffers that wait are handed out even above the limit.
    let held: Vec<Box<[u8]>> = (0..5).map(|_| p.take().unwrap()).collect();
    assert_eq!(p.nused(), 5);
    assert!(p.take().is_none());
    assert_eq!(held[4].len(), 4);
}

#[test]
fn pool_keeps_a_buffer_of_another_size() {
    let mut p = Pool::new(4, 2, Rc::new(Nothing));
    let _a = p.take().unwrap();
    p.put(vec![9u8; 7].into_boxed_slice());
    assert_eq!(p.take().unwrap().len(), 7);
}
