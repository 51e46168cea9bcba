use std::collections::HashSet;
use gen_lsb::set::{ItemSet, SetIter, SetManager};
use gen_lsb::set::vec::{Error, Manager};
use gen_lsb::set::union::{self, union};
use gen_lsb::set::merge::{self, merge};

fn next_rand(state: &mut u64) -> u64 {
    let mut x = *state ^ 0x9e3779b97f4a7c15;
    x ^= x << 13;
    x ^= x >> 7;
    x ^= x << 17;
    *state = x;
    x
}

fn run_basic<S>(mut set: S)
where
    S: ItemSet<T = u8, E = Error>,
{
    assert_eq!(set.size(), 0);
    assert_eq!(set.add(0), Ok(()));
    assert_eq!(set.size(), 1);
    assert_eq!(set.add(1), Ok(()));
    assert_eq!(set.size(), 2);
    assert_eq!(set.get(0), Ok(&0));
    assert_eq!(set.get(1), Ok(&1));
    assert_eq!(set.get(2), Err(Error::IndexOutOfRange { index: 2, total: 2 }));
    let mut iter = set.into_iter();
    let mut drained: Vec<u8> = Vec::new();
    while let Some(item) = iter.next() {
        drained.push(item.unwrap());
    }
    assert_eq!(drained, vec![0, 1]);
}

#[test]
fn vec_basic() {
    run_basic(Manager::new().make_set(None).unwrap());
}

#[test]
fn union_sorted_vecs() {
    let mut state: u64 = 1;
    let vec_a: Vec<u64> = (0..1024).map(|_| next_rand(&mut state)).collect();
    let vec_b: Vec<u64> = (0..768).map(|_| next_rand(&mut state)).collect();
    let vec_a_clone = vec_a.clone();
    let vec_b_clone = vec_b.clone();

    let mut set_manager = Manager::new();

    let vec_c = union(&mut set_manager, vec_a, vec_b).unwrap();
    assert_eq!(vec_c.len(), 1024 + 768);

    let table: HashSet<u64> = vec_c.iter().copied().collect();

    for value in vec_a_clone.iter().chain(vec_b_clone.iter()) {
        assert!(table.contains(value));
    }
}

#[test]
fn union_manager_error() {
    #[derive(PartialEq, Debug)]
    struct LooserManagerError;
    struct LooserManager;

    impl SetManager for LooserManager {
        type S = Vec<u64>;
        type E = LooserManagerError;

        fn make_can_fail() -> bool {
            true
        }

        fn reserve_can_fail() -> bool {
            true
        }

        fn make_set(&mut self, _size_hint: Option<usize>) -> Result<Self::S, Self::E> {
            Err(LooserManagerError)
        }

        fn reserve(&mut self, _set: &mut Self::S, _additional: usize) -> Result<(), Self::E> {
            Err(LooserManagerError)
        }
    }

    let mut set_manager = LooserManager;
    assert_eq!(
        union(&mut set_manager, vec![1, 2], vec![3, 4, 5]),
        Err(union::Error::SetManager(LooserManagerError))
    );
}

#[test]
fn merge_sorted_vecs() {
    let mut state: u64 = 2;
    let mut vec_a: Vec<u64> = (0..1024).map(|_| next_rand(&mut state)).collect();
    let mut vec_b: Vec<u64> = (0..768).map(|_| next_rand(&mut state)).collect();
    vec_a.sort();
    vec_b.sort();

    let mut set_manager = Manager::new();
    let vec_c = merge(&mut set_manager, vec_a, vec_b, |a: &u64, b: &u64| a < b).unwrap();
    assert_eq!(vec_c.len(), 1024 + 768);

    for i in 1..1024 + 768 {
        assert!(vec_c[i - 1] <= vec_c[i]);
    }
}

#[test]
fn merge_manager_error() {
    #[derive(PartialEq, Debug)]
    struct LooserManagerError;
    struct LooserManager;

    impl SetManager for LooserManager {
        type S = Vec<u64>;
        type E = LooserManagerError;

        fn make_can_fail() -> bool {
            true
        }

        fn reserve_can_fail() -> bool {
            true
        }

        fn make_set(&mut self, _size_hint: Option<usize>) -> Result<Self::S, Self::E> {
            Err(LooserManagerError)
        }

        fn reserve(&mut self, _set: &mut Self::S, _additional: usize) -> Result<(), Self::E> {
            Err(LooserManagerError)
        }
    }

    let mut set_manager = LooserManager;
    assert_eq!(
        merge(&mut set_manager, vec![1, 2], vec![3, 4, 5], |a: &u64, b: &u64| a < b),
        Err(merge::Error::SetManager(LooserManagerError))
    );
}

#[test]
fn union_pair() {
    let mut set_manager = Manager::new();
    let joined = union(&mut set_manager, vec![1u64, 2], vec![3, 4, 5]).unwrap();
    assert_eq!(joined, vec![1, 2, 3, 4, 5]);
}

#[test]
fn union_empty_identity() {
    let mut set_manager = Manager::new();
    let left = union(&mut set_manager, Vec::new(), vec![7u64, 8, 9]).unwrap();
    assert_eq!(left, vec![7, 8, 9]);
    let right = union(&mut set_manager, vec![7u64, 8, 9], Vec::new()).unwrap();
    assert_eq!(right, vec![7, 8, 9]);
}

#[test]
fn merge_pair() {
    let mut set_manager = Manager::new();
    let merged = merge(&mut set_manager, vec![1u64, 3, 5], vec![2, 4, 6], |a: &u64, b: &u64| a < b)
        .unwrap();
    assert_eq!(merged, vec![1, 2, 3, 4, 5, 6]);
}

#[test]
fn merge_stable_ties() {
    let mut set_manager = Manager::new();
    let merged = merge(
        &mut set_manager,
        vec![(1u64, 'a'), (2, 'a')],
        vec![(1u64, 'b'), (3, 'b')],
        |x: &(u64, char), y: &(u64, char)| x.0 < y.0,
    )
    .unwrap();
    assert_eq!(merged, vec![(1, 'a'), (1, 'b'), (2, 'a'), (3, 'b')]);
}
