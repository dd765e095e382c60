use std::collections::BTreeMap;
use std::hash::{BuildHasher, Hasher};
use std::mem::size_of;
use std::sync::Arc;

use asc::Asc;

#[test]
fn clone_and_drop() {
    let a = Asc::new(String::from("hello"));
    let a1 = a.shallow_clone();
    let a2 = Asc::clone(&a);

    assert_eq!(&*a, "hello");

    drop(a1);
    drop(a);
    drop(a2);
}

#[test]
fn strong_count_basic() {
    let a = Asc::new(42i32);
    assert_eq!(Asc::strong_count(&a), 1);

    let b = a.clone();
    assert_eq!(Asc::strong_count(&a), 2);
    assert_eq!(Asc::strong_count(&b), 2);

    drop(b);
    assert_eq!(Asc::strong_count(&a), 1);
}

#[test]
fn ptr_eq_same() {
    let a = Asc::new(1);
    let b = a.clone();
    assert!(Asc::ptr_eq(&a, &b));

    let c = Asc::new(1);
    assert!(!Asc::ptr_eq(&a, &c));
}

#[test]
fn try_unwrap_success() {
    let a = Asc::new(42);
    let val = Asc::try_unwrap(a).unwrap();
    assert_eq!(val, 42);
}

#[test]
fn try_unwrap_failure() {
    let a = Asc::new(42);
    let _b = a.clone();
    let result = Asc::try_unwrap(a);
    assert!(result.is_err());
    // The handle comes back on failure.
    let a = result.unwrap_err();
    assert_eq!(*a, 42);
}

#[test]
fn into_inner_unique() {
    let a = Asc::new("data");
    assert_eq!(Asc::into_inner(a), Some("data"));
}

#[test]
fn into_inner_shared() {
    let a = Asc::new("data");
    let _b = a.clone();
    assert_eq!(Asc::into_inner(a), None);
}

#[test]
fn unwrap_or_clone_unique() {
    let a = Asc::new(String::from("hello"));
    let s = Asc::unwrap_or_clone(a);
    assert_eq!(s, "hello");
}

#[test]
fn unwrap_or_clone_shared() {
    let a = Asc::new(String::from("hello"));
    let _b = a.clone();
    let s = Asc::unwrap_or_clone(a);
    assert_eq!(s, "hello");
}

#[test]
fn get_mut_unique() {
    let mut a = Asc::new(10i32);
    {
        let val = Asc::get_mut(&mut a).unwrap();
        *val = 20;
    }
    assert_eq!(*a, 20);
}

#[test]
fn get_mut_shared() {
    let mut a = Asc::new(10i32);
    let _b = a.clone();
    assert!(Asc::get_mut(&mut a).is_none());
}

#[test]
fn make_mut_unique() {
    let mut a = Asc::new(5i32);
    *Asc::make_mut(&mut a) = 10;
    assert_eq!(*a, 10);
    assert_eq!(Asc::strong_count(&a), 1);
}

#[test]
fn make_mut_shared_clones() {
    let mut a = Asc::new(5i32);
    let _b = a.clone();
    assert_eq!(Asc::strong_count(&a), 2);

    *Asc::make_mut(&mut a) = 10;
    assert_eq!(*a, 10);
    // The handle has an allocation of its own now.
    assert_eq!(Asc::strong_count(&a), 1);
}

#[test]
fn deref() {
    let a = Asc::new(100);
    assert_eq!(*a, 100);
}

#[test]
fn partial_eq() {
    let a = Asc::new(1);
    let b = Asc::new(1);
    let c = Asc::new(2);
    assert_eq!(a, b);
    assert_ne!(a, c);
}

fn assert_eq_trait<T: Eq>(_t: &T) {}

#[test]
fn eq_trait() {
    let a = Asc::new(1);
    assert_eq_trait(&a);
}

#[derive(Default)]
struct SimpleHasher(u64);

impl Hasher for SimpleHasher {
    fn finish(&self) -> u64 {
        self.0
    }
    fn write(&mut self, bytes: &[u8]) {
        for &b in bytes {
            self.0 = self.0.wrapping_mul(31).wrapping_add(b as u64);
        }
    }
}

#[derive(Default)]
struct SimpleBuildHasher;

impl BuildHasher for SimpleBuildHasher {
    type Hasher = SimpleHasher;
    fn build_hasher(&self) -> SimpleHasher {
        SimpleHasher::default()
    }
}

#[test]
fn hash() {
    let bh = SimpleBuildHasher;
    let a = Asc::new(1);
    let b = Asc::new(1);
    let c = Asc::new(2);
    assert_eq!(bh.hash_one(&a), bh.hash_one(&b));
    assert_ne!(bh.hash_one(&a), bh.hash_one(&c));
}

#[test]
fn hash_is_that_of_the_value() {
    let bh = SimpleBuildHasher;
    assert_eq!(bh.hash_one(&Asc::new(77u64)), bh.hash_one(&77u64));
}

#[test]
fn ord_as_map_key() {
    let mut map = BTreeMap::new();
    map.insert(Asc::new(1), "one");
    map.insert(Asc::new(2), "two");
    assert_eq!(map.get(&Asc::new(1)), Some(&"one"));
    assert_eq!(map.get(&Asc::new(2)), Some(&"two"));
}

#[test]
fn partial_ord_and_ord() {
    let a = Asc::new(1);
    let b = Asc::new(2);
    assert!(a < b);
    assert!(b > a);
    assert_eq!(a.cmp(&b), std::cmp::Ordering::Less);
}

#[test]
fn display() {
    let a = Asc::new(42);
    assert_eq!(format!("{a}"), "42");
}

#[test]
fn pointer_fmt() {
    let a = Asc::new(1);
    let s = format!("{a:p}");
    let expected = format!("{:p}", &*a);
    assert_eq!(s, expected);
}

#[test]
fn from_trait() {
    let a: Asc<i32> = 42.into();
    assert_eq!(*a, 42);
}

#[test]
fn default_trait() {
    let a: Asc<i32> = Default::default();
    assert_eq!(*a, 0);
}

#[test]
fn debug() {
    let a = Asc::new(7);
    assert_eq!(format!("{a:?}"), "7");
}

fn assert_send<T: Send>(_t: &T) {}
fn assert_sync<T: Sync>(_t: &T) {}

#[test]
fn send_sync() {
    let a = Asc::new(1);
    assert_send(&a);
    assert_sync(&a);
}

#[test]
fn try_unwrap_after_make_mut() {
    let mut a = Asc::new(String::from("hello"));
    let _b = a.clone();
    // This moves to a new allocation with a clone in it.
    Asc::make_mut(&mut a).push_str(" world");
    let s = Asc::try_unwrap(a).unwrap();
    assert_eq!(s, "hello world");
}

#[test]
fn test_vec_of_asc() {
    let items: Vec<Asc<i32>> = (0..5).map(Asc::new).collect();
    let clones: Vec<Asc<i32>> = items.iter().map(Asc::clone).collect();
    assert_eq!(items.len(), clones.len());
    for (a, b) in items.iter().zip(&clones) {
        assert!(Asc::ptr_eq(a, b));
    }
}

#[test]
fn drop_behavior() {
    let a = Asc::new(());
    let b = a.clone();
    let c = a.clone();
    assert_eq!(Asc::strong_count(&a), 3);
    drop(b);
    assert_eq!(Asc::strong_count(&a), 2);
    drop(c);
    assert_eq!(Asc::strong_count(&a), 1);
}

#[test]
fn zero_sized_type() {
    let a = Asc::new(());
    let b = a.clone();
    assert_eq!(Asc::strong_count(&a), 2);
    assert!(Asc::ptr_eq(&a, &b));
    drop(b);
    let val = Asc::try_unwrap(a).unwrap();
    assert_eq!(val, ());
}

#[test]
fn make_mut_zero_sized() {
    let mut a = Asc::new(());
    let _b = a.clone();
    assert_eq!(Asc::strong_count(&a), 2);
    let _val = Asc::make_mut(&mut a);
    assert_eq!(Asc::strong_count(&a), 1);
}

#[test]
fn try_unwrap_zero_sized_shared() {
    let a = Asc::new(());
    let _b = a.clone();
    let result = Asc::try_unwrap(a);
    assert!(result.is_err());
    let a = result.unwrap_err();
    assert_eq!(*a, ());
    drop(a);
}

#[test]
fn make_mut_preserves_value() {
    let mut a = Asc::new(String::from("original"));
    let _b = a.clone();
    Asc::make_mut(&mut a).push_str(" modified");
    assert_eq!(&*_b, "original");
    assert_eq!(&*a, "original modified");
}

#[test]
fn first_example() {
    let a: Asc<i32> = Asc::new(42);
    let b = a.clone();

    assert_eq!(Asc::strong_count(&a), 2);
    assert_eq!(*b, 42);

    // Another handle is there.
    assert!(Asc::try_unwrap(a.clone()).is_err());

    drop(b);

    // This one is the last.
    let value = Asc::try_unwrap(a).unwrap();
    assert_eq!(value, 42);
}

#[test]
fn into_inner_of_shared_gives_the_handle_up() {
    let a = Asc::new(3u8);
    let b = a.clone();
    assert_eq!(Asc::into_inner(b), None);
    assert_eq!(Asc::strong_count(&a), 1);
    assert_eq!(Asc::into_inner(a), Some(3));
}

#[test]
fn value_is_dropped_with_the_last_handle() {
    let witness = Arc::new(());
    let a = Asc::new(witness.clone());
    let b = a.clone();
    assert_eq!(Arc::strong_count(&witness), 2);
    drop(a);
    assert_eq!(Arc::strong_count(&witness), 2);
    drop(b);
    assert_eq!(Arc::strong_count(&witness), 1);
}

#[test]
fn unwrapped_value_is_not_dropped() {
    let witness = Arc::new(());
    let out = Asc::try_unwrap(Asc::new(witness.clone())).unwrap();
    assert_eq!(Arc::strong_count(&witness), 2);
    assert!(Arc::ptr_eq(&out, &witness));
}

#[test]
fn refused_unwrap_gives_the_same_handle_back() {
    let a = Asc::new(8u64);
    let b = a.clone();
    let back = Asc::try_unwrap(a).unwrap_err();
    assert!(Asc::ptr_eq(&back, &b));
    assert_eq!(Asc::strong_count(&b), 2);
}

#[test]
fn make_mut_moves_only_from_a_shared_allocation() {
    let mut a = Asc::new(1u8);
    let b = a.clone();
    *Asc::make_mut(&mut a) = 2;
    assert!(!Asc::ptr_eq(&a, &b));
    assert_eq!(Asc::strong_count(&b), 1);
    let before = format!("{a:p}");
    *Asc::make_mut(&mut a) = 3;
    assert_eq!(format!("{a:p}"), before);
    assert_eq!((*a, *b), (3, 1));
}

#[test]
fn handle_takes_the_room_of_a_pointer() {
    assert_eq!(size_of::<Asc<u64>>(), size_of::<Arc<u64>>());
}

// A value whose clone can be told from it.
#[derive(Debug, PartialEq)]
struct Copied(u32);

impl Clone for Copied {
    fn clone(&self) -> Self {
        Copied(self.0 + 1)
    }
}

#[test]
fn shared_value_is_cloned_once() {
    let mut a = Asc::new(Copied(0));
    let b = a.clone();
    assert_eq!(*b, Copied(0));
    assert_eq!(*Asc::make_mut(&mut a), Copied(1));
    assert_eq!(*Asc::make_mut(&mut a), Copied(1));
    let c = b.clone();
    assert_eq!(Asc::unwrap_or_clone(c), Copied(1));
    assert_eq!(Asc::unwrap_or_clone(b), Copied(0));
}

#[test]
fn own_or_clone_follows_the_result() {
    assert_eq!(Asc::own_or_clone(Ok(String::from("own"))), "own");
    let a = Asc::new(String::from("held"));
    let b = a.clone();
    assert_eq!(Asc::own_or_clone(Err(b)), "held");
    assert_eq!(Asc::strong_count(&a), 1);
}

#[test]
fn floats_that_do_not_compare() {
    let a = Asc::new(f64::NAN);
    let b = Asc::new(1.0f64);
    assert!(a != a.clone());
    assert_eq!(a.partial_cmp(&b), None);
    assert!(!(a < b));
}
