use joker_ecs::blob_vec::{array_layout, padding_needed_for, BlobVec, Layout};
use joker_ecs::sparse_set::{SparseArray, SparseSet};
use std::mem::ManuallyDrop;

#[derive(Debug)]
struct Object {
    id: i32,
}

impl Drop for Object {
    fn drop(&mut self) {
        println!("drop:{}", self.id);
    }
}

#[allow(dead_code)]
struct Foo {
    a: u8,
    b: String,
}

#[test]
fn test_resize() {
    let item_layout = Layout::new::<usize>();
    let mut blob_vec = BlobVec::new(item_layout, false, 64);
    for i in 0..100usize {
        blob_vec.push(i.to_ne_bytes().to_vec());
    }
    assert_eq!(blob_vec.len(), 1_00);
    assert_eq!(blob_vec.capacity(), 1_00);
}

#[test]
fn test_drop_empty_capacity() {
    let item_layout = Layout::new::<Foo>();
    let _ = BlobVec::new(item_layout, true, 0);
}

#[test]
fn test_aligned_zst() {}

#[test]
fn test_wrapping() {
    assert_eq!(99usize, 100usize.wrapping_add(usize::MAX));
}

#[test]
fn test_array_layout() {
    let layout = Layout::from_size_align(8, 8).unwrap();
    let new_layout = array_layout(&layout, 200).unwrap();
    assert_eq!(new_layout.size(), 200 * 8);
    assert_eq!(new_layout.align(), 8);
}

#[test]
fn test_drop_take() {
    let obj = Object { id: 1i32 };
    let obj_drop = ManuallyDrop::new(obj);
    let id = obj_drop.id;
    let obj_into = ManuallyDrop::into_inner(obj_drop);
    assert_eq!(id, obj_into.id);
}

#[test]
fn test_init() {}

#[test]
fn padding_rounds_to_alignment() {
    let layout = Layout::from_size_align(5, 4).unwrap();
    assert_eq!(padding_needed_for(&layout, 4), 3);
    assert_eq!(padding_needed_for(&layout, 1), 0);
    assert_eq!(array_layout(&layout, 3).unwrap().size(), 24);
    assert!(array_layout(&layout, usize::MAX).is_none());
}

#[test]
fn layout_rejects_bad_alignment() {
    assert!(Layout::from_size_align(8, 3).is_none());
    assert!(Layout::from_size_align(8, 0).is_none());
}

#[test]
fn blob_swap_remove_moves_last_item() {
    let mut blob = BlobVec::new(Layout::from_size_align(1, 1).unwrap(), false, 0);
    blob.push(vec![1]);
    blob.push(vec![2]);
    blob.push(vec![3]);
    let removed = blob.swap_remove_and_forget_unchecked(0);
    assert_eq!(removed, vec![1]);
    assert_eq!(blob.get_unchecked(0), &vec![3]);
    assert_eq!(blob.len(), 2);
    assert_eq!(blob.capacity(), 3);
}

#[test]
fn zero_size_blob_has_unbounded_capacity() {
    let blob = BlobVec::new(Layout::from_size_align(0, 1).unwrap(), false, 4);
    assert_eq!(blob.capacity(), usize::MAX);
}

#[test]
fn sparse_set_remove_reindexes_moved_value() {
    let mut set: SparseSet<usize, u32> = SparseSet::new();
    set.insert(4, 40);
    set.insert(9, 90);
    set.insert(2, 20);
    assert_eq!(set.remove(4), Some(40));
    assert_eq!(set.get(2), Some(&20));
    assert_eq!(set.get(9), Some(&90));
    assert_eq!(set.get(4), None);
    assert_eq!(set.remove(2), Some(20));
    assert_eq!(set.get(9), Some(&90));
    assert_eq!(set.len(), 1);
    set.insert(9, 91);
    assert_eq!(set.get(9), Some(&91));
}

#[test]
fn sparse_array_grows_on_insert() {
    let mut array: SparseArray<usize, u8> = SparseArray::new();
    assert!(!array.contains(3));
    array.insert(3, 7);
    assert!(array.contains(3));
    assert_eq!(array.get(3), Some(&7));
    assert_eq!(array.remove(3), Some(7));
    assert!(!array.contains(3));
}

#[test]
fn sparse_array_get_mut_changes_in_place() {
    let mut array: SparseArray<usize, u8> = SparseArray::new();
    array.insert(1, 4);
    if let Some(v) = array.get_mut(1) {
        *v = 9;
    }
    assert_eq!(array.get(1), Some(&9));
    assert!(array.get_mut(2).is_none());
}
