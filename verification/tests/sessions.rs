use splitmut::SplitMut;
use splitmut::SplitMutError;
use splitmut::StrMap;

#[test]
fn tree_borrow() {
    let mut h: StrMap<i32> = StrMap::new();
    h.insert(String::from("borrow"), 1);
    h.insert(String::from("me"), 2);
    let keys = vec![
        String::from("me"),
        String::from("borrow"),
        String::from("me"),
    ];
    let mut it = splitmut::get_mut_iter(&h, keys);
    let z = it.collect();
    assert_eq!(z.len(), 3);
    assert_eq!(*h.read_at(z[0].unwrap()), 2);
    assert_eq!(*h.read_at(z[1].unwrap()), 1);
    assert_eq!(z[2], Err(SplitMutError::SameValue));
}

#[test]
fn session_monotone() {
    let v = vec![10u8, 20];
    let mut z = splitmut::get_muts(&v);
    let a = z.at(0);
    assert_eq!(a, Ok(0));
    assert_eq!(z.at(0), Err(SplitMutError::SameValue));
    assert_eq!(z.at(0), Err(SplitMutError::SameValue));
}

#[test]
fn fresh_session_has_no_history() {
    let v = vec![10u8, 20];
    {
        let mut z = splitmut::get_muts(&v);
        assert_eq!(z.at(1), Ok(1));
        assert_eq!(z.at(1), Err(SplitMutError::SameValue));
    }
    let mut z = splitmut::get_muts(&v);
    assert_eq!(z.at(1), Ok(1));
}

#[test]
fn session_absence_records_nothing() {
    let v = vec![10u8];
    let mut z = splitmut::get_muts(&v);
    assert_eq!(z.at(5), Err(SplitMutError::NoValue));
    assert_eq!(z.at(5), Err(SplitMutError::NoValue));
    assert_eq!(z.at(0), Ok(0));
}

#[test]
fn iter_preserves_order_and_length() {
    let v = vec![10u8, 20, 30];
    let mut it = splitmut::get_mut_iter(&v, vec![2usize, 0, 1, 5]);
    let z = it.collect();
    assert_eq!(z.len(), 4);
    assert_eq!(z[0], Ok(2));
    assert_eq!(z[1], Ok(0));
    assert_eq!(z[2], Ok(1));
    assert_eq!(z[3], Err(SplitMutError::NoValue));
}

#[test]
fn iter_next_steps_through_keys() {
    let v = vec![10u8, 20];
    let mut it = splitmut::get_mut_iter(&v, vec![0usize, 0, 9]);
    assert_eq!(it.next(), Some(Ok(0)));
    assert_eq!(it.next(), Some(Err(SplitMutError::SameValue)));
    assert_eq!(it.next(), Some(Err(SplitMutError::NoValue)));
    assert_eq!(it.next(), None);
    assert_eq!(it.next(), None);
}

#[test]
fn session_mutation_after_borrow_ends() {
    let mut v = vec![1u64, 2, 3];
    let (s0, s2) = {
        let mut z = splitmut::get_muts(&v);
        (z.at(0).unwrap(), z.at(2).unwrap())
    };
    v.set_at(s0, 10);
    v.set_at(s2, 30);
    assert_eq!(&*v, &[10, 2, 30]);
}

#[test]
fn session_over_keyed_map() {
    let mut m: splitmut::KeyedMap<u8, u16> = splitmut::KeyedMap::new();
    m.insert(1u8, 10u16);
    m.insert(2u8, 20u16);
    let mut z = splitmut::get_muts(&m);
    let a = z.at(1).unwrap();
    let b = z.at(2).unwrap();
    assert_ne!(a, b);
    assert_eq!(*m.read_at(a), 10u16);
    assert_eq!(*m.read_at(b), 20u16);
    assert_eq!(z.at(1), Err(SplitMutError::SameValue));
    assert_eq!(z.at(3), Err(SplitMutError::NoValue));
}
