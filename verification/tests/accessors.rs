use splitmut::KeyedMap;
use splitmut::SplitMut;
use splitmut::SplitMutError;
use std::collections::VecDeque;

#[test]
fn hash_same() {
    let mut h: KeyedMap<u8, u16> = KeyedMap::new();
    h.insert(3u8, 5u16);
    let (a, b) = h.get2_mut(3, 3);
    assert_eq!(*h.read_at(a.unwrap()), 5u16);
    assert_eq!(b, Err(SplitMutError::SameValue));
}

#[test]
fn hash_reg() {
    let mut h: KeyedMap<u8, u16> = KeyedMap::new();
    h.insert(3u8, 5u16);
    h.insert(4u8, 9u16);
    {
        let (a, b) = h.get2_mut(3, 4);
        let (a, b) = (a.unwrap(), b.unwrap());
        let va = *h.read_at(a);
        let vb = h.set_at(b, va);
        h.set_at(a, vb);
    }
    assert_eq!(
        h.get2_mut(2, 2),
        (Err(SplitMutError::NoValue), Err(SplitMutError::NoValue))
    );
    let (a, b) = h.get2_unchecked_mut(3, 4);
    assert_eq!((*h.read_at(a), *h.read_at(b)), (9u16, 5u16));
    let (a, b) = h.get2_mut(2, 3);
    assert_eq!(a, Err(SplitMutError::NoValue));
    assert_eq!(*h.read_at(b.unwrap()), 9u16);
}

#[test]
fn deque_same() {
    let mut h: VecDeque<u16> = VecDeque::new();
    h.push_front(5u16);
    let (a, b) = h.get2_mut(0, 0);
    assert_eq!(*h.read_at(a.unwrap()), 5u16);
    assert_eq!(b, Err(SplitMutError::SameValue));
}

#[test]
fn deque_reg() {
    let mut h: VecDeque<u16> = VecDeque::new();
    h.push_back(5u16);
    h.push_back(9u16);
    {
        let (a, b) = h.get2_mut(0, 1);
        let (a, b) = (a.unwrap(), b.unwrap());
        let va = *h.read_at(a);
        let vb = h.set_at(b, va);
        h.set_at(a, vb);
    }
    assert_eq!(
        h.get2_mut(2, 2),
        (Err(SplitMutError::NoValue), Err(SplitMutError::NoValue))
    );
    let (a, b) = h.get2_unchecked_mut(0, 1);
    assert_eq!((*h.read_at(a), *h.read_at(b)), (9u16, 5u16));
    let (a, b) = h.get2_mut(2, 0);
    assert_eq!(a, Err(SplitMutError::NoValue));
    assert_eq!(*h.read_at(b.unwrap()), 9u16);
}

#[test]
fn vec() {
    let mut h = vec!["Hello", "world", "!"];
    {
        let (a, b, c) = h.get3_mut(0, 1, 2);
        let (a, b, c) = (a.unwrap(), b.unwrap(), c.unwrap());
        h.set_at(c, "universe");
        let va = *h.read_at(a);
        let vb = h.set_at(b, va);
        h.set_at(a, vb);
    }
    assert_eq!(&*h, &["world", "Hello", "universe"]);

    let (sa, sb) = {
        let mut z = splitmut::get_muts(&h);
        let a = z.at(0);
        let b = z.at(1);
        let (sa, sb) = (a.unwrap(), b.unwrap());
        assert_eq!(*h.read_at(sa), "world");
        assert_eq!(*h.read_at(sb), "Hello");
        assert_eq!(z.at(0), Err(SplitMutError::SameValue));
        assert_eq!(z.at(3), Err(SplitMutError::NoValue));
        (sa, sb)
    };
    let va = *h.read_at(sa);
    let vb = h.set_at(sb, va);
    h.set_at(sa, vb);
    assert_eq!(&*h, &["Hello", "world", "universe"]);
}

#[test]
fn vec_get4_mixed() {
    let mut v = vec![10u32, 20, 30];
    let (a, b, c, d) = v.get4_mut(0, 9, 1, 0);
    assert_eq!(a, Ok(0));
    assert_eq!(b, Err(SplitMutError::NoValue));
    assert_eq!(c, Ok(1));
    assert_eq!(d, Err(SplitMutError::SameValue));
    let (a, c) = (a.unwrap(), c.unwrap());
    v.set_at(a, 11);
    assert_eq!(*v.read_at(c), 20);
    assert_eq!(v[0], 11);
}

#[test]
fn vec_get3_unchecked() {
    let v = vec![1u8, 2, 3];
    let (a, b, c) = v.get3_unchecked_mut(2, 0, 1);
    assert_eq!((*v.read_at(a), *v.read_at(b), *v.read_at(c)), (3, 1, 2));
}

#[test]
fn vec_get4_unchecked() {
    let v = vec![1u8, 2, 3, 4];
    let (a, b, c, d) = v.get4_unchecked_mut(3, 2, 1, 0);
    assert_eq!(
        (*v.read_at(a), *v.read_at(b), *v.read_at(c), *v.read_at(d)),
        (4, 3, 2, 1)
    );
}

#[test]
fn independent_mutation_no_cross_effect() {
    let mut v = vec![1u64, 2];
    let (a, b) = v.get2_mut(0, 1);
    let (a, b) = (a.unwrap(), b.unwrap());
    assert_ne!(a, b);
    v.set_at(a, 100);
    assert_eq!(*v.read_at(b), 2);
    v.set_at(b, 200);
    assert_eq!(*v.read_at(a), 100);
    assert_eq!(&*v, &[100, 200]);
}

#[test]
fn absent_key_independent_of_others() {
    let v = vec![5u8, 6];
    let (a, b, c) = v.get3_mut(7, 0, 7);
    assert_eq!(a, Err(SplitMutError::NoValue));
    assert_eq!(b, Ok(0));
    assert_eq!(c, Err(SplitMutError::NoValue));
    let (a, b) = v.get2_mut(9, 9);
    assert_eq!(a, Err(SplitMutError::NoValue));
    assert_eq!(b, Err(SplitMutError::NoValue));
}

#[test]
fn map_swap_scenario() {
    let mut h: KeyedMap<u8, &str> = KeyedMap::new();
    h.insert(1u8, "Hello");
    h.insert(2u8, "world");
    let (a, b) = h.get2_mut(1, 2);
    let (a, b) = (a.unwrap(), b.unwrap());
    let va = *h.read_at(a);
    let vb = h.set_at(b, va);
    h.set_at(a, vb);
    assert_eq!(h.get(&1), Some(&"world"));
    assert_eq!(h.get(&2), Some(&"Hello"));
}

#[test]
fn map_insert_replaces() {
    let mut h: KeyedMap<u8, u16> = KeyedMap::new();
    h.insert(7u8, 1u16);
    h.insert(7u8, 2u16);
    assert_eq!(h.get(&7), Some(&2u16));
    assert_eq!(h.get(&8), None);
}

#[test]
fn empty_container_all_no_value() {
    let v: Vec<u8> = Vec::new();
    let (a, b) = v.get2_mut(0, 1);
    assert_eq!(a, Err(SplitMutError::NoValue));
    assert_eq!(b, Err(SplitMutError::NoValue));
    let (a, b, c, d) = v.get4_mut(0, 0, 1, 2);
    assert_eq!(a, Err(SplitMutError::NoValue));
    assert_eq!(b, Err(SplitMutError::NoValue));
    assert_eq!(c, Err(SplitMutError::NoValue));
    assert_eq!(d, Err(SplitMutError::NoValue));
}

#[test]
fn same_key_four_times() {
    let v = vec![42u8];
    let (a, b, c, d) = v.get4_mut(0, 0, 0, 0);
    assert_eq!(a, Ok(0));
    assert_eq!(b, Err(SplitMutError::SameValue));
    assert_eq!(c, Err(SplitMutError::SameValue));
    assert_eq!(d, Err(SplitMutError::SameValue));
}

#[test]
fn str_map_lookup() {
    let mut m: splitmut::StrMap<u8> = splitmut::StrMap::new();
    m.insert(String::from("one"), 1);
    m.insert(String::from("two"), 2);
    m.insert(String::from("one"), 11);
    assert_eq!(m.get(&String::from("one")), Some(&11));
    assert_eq!(m.get(&String::from("two")), Some(&2));
    assert_eq!(m.get(&String::from("three")), None);
}
