use quartz::qutil::map::{IdList, Identify};

struct Identifiable {
    id: usize,
    value: i32,
}

impl Identifiable {
    fn new(value: i32) -> Self {
        Identifiable { id: 0, value }
    }
}

impl Identify for Identifiable {
    fn spec_id(&self) -> usize {
        self.id
    }

    fn spec_with_id(&self, id: usize) -> Self {
        Identifiable { id, value: self.value }
    }

    fn set_id(&mut self, id: usize) {
        self.id = id;
    }

    fn id(&self) -> usize {
        self.id
    }
}

#[test]
fn id_list_test() {
    let value1 = Identifiable::new(1);
    let value2 = Identifiable::new(2);
    let value3 = Identifiable::new(3);

    let mut id_list: IdList<Identifiable> = IdList::with_capacity(5);
    assert_eq!(id_list.insert(value1), 0, "Incorrect ID assigned.");
    assert_eq!(id_list.insert(value2), 1, "Incorrect ID assigned (value 2).");
    assert_eq!(id_list.insert(value3), 2, "Incorrect ID assigned (value 3).");
    assert!(id_list.get(1).is_some(), "ID lookup failed.");
    let value2 = id_list.remove(1);
    assert!(value2.is_some(), "Element removal failed: no value returned.");
    assert!(id_list.get(1).is_none(), "Element removal failed: value remained in list.");

    let value4 = Identifiable::new(4);

    assert_eq!(id_list.insert(value2.unwrap()), 1, "Incorrect ID assigned after element removal.");
    assert_eq!(
        id_list.insert(value4),
        3,
        "Incorrect ID assigned after element removal and readdition."
    );

    id_list.remove(0);
    id_list.remove(2);

    let mut count: usize = 0;

    for element in id_list.iter() {
        assert_eq!(count, (element.id() - 1) / 2, "Element ID mismatch in Iter.");
        count += 1;
    }

    assert_eq!(count, 2, "IdList iterator did not cover the correct number of elements.");

    count = 0;
    for element in id_list.iter_mut() {
        element.value /= 4;
        assert_eq!(element.value as usize, count, "Element order incorrect in IterMut.");
        count += 1;
    }

    assert_eq!(count, 2, "IdList iterator mut did not cover the correct number of elements.");
}

#[test]
fn id_list_get_after_insert() {
    let mut list: IdList<Identifiable> = IdList::new();
    let id = list.insert(Identifiable::new(7));
    assert_eq!(id, 0);
    let item = list.get(id).unwrap();
    assert_eq!(item.value, 7);
    assert_eq!(item.id(), 0);
}

#[test]
fn id_list_get_after_remove() {
    let mut list: IdList<Identifiable> = IdList::new();
    let a = list.insert(Identifiable::new(1));
    let b = list.insert(Identifiable::new(2));
    let removed = list.remove(a).unwrap();
    assert_eq!(removed.value, 1);
    assert!(list.get(a).is_none());
    assert_eq!(list.get(b).unwrap().value, 2);
    assert!(list.remove(a).is_none());
    assert!(list.remove(10).is_none());
    assert!(list.get(10).is_none());
}

#[test]
fn id_list_reuses_freed_ids_last_first() {
    let mut list: IdList<Identifiable> = IdList::new();
    for v in 0..4 {
        list.insert(Identifiable::new(v));
    }
    list.remove(1);
    list.remove(3);
    assert_eq!(list.insert(Identifiable::new(10)), 3);
    assert_eq!(list.insert(Identifiable::new(11)), 1);
    assert_eq!(list.insert(Identifiable::new(12)), 4);
    assert_eq!(list.get(3).unwrap().value, 10);
    assert_eq!(list.get(1).unwrap().value, 11);
}

#[test]
fn id_list_get_mut_changes_item() {
    let mut list: IdList<Identifiable> = IdList::new();
    let id = list.insert(Identifiable::new(5));
    list.get_mut(id).unwrap().value = 9;
    assert_eq!(list.get(id).unwrap().value, 9);
    assert!(list.get_mut(3).is_none());
}

#[test]
fn id_list_double_remove_frees_once() {
    let mut list: IdList<Identifiable> = IdList::new();
    assert_eq!(list.insert(Identifiable::new(1)), 0);
    assert_eq!(list.insert(Identifiable::new(2)), 1);
    assert!(list.remove(0).is_some());
    assert!(list.remove(0).is_none());
    assert_eq!(list.insert(Identifiable::new(3)), 0);
    assert_eq!(list.insert(Identifiable::new(4)), 2);
    let values: Vec<i32> = list.iter().iter().map(|e| e.value).collect();
    assert_eq!(values, vec![3, 2, 4]);
    let ids: Vec<usize> = list.iter().iter().map(|e| e.id()).collect();
    assert_eq!(ids, vec![0, 1, 2]);
}
