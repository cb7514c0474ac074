use quartz::util::idlist::{IdList, Identify};

struct Entity {
    id: usize,
    tag: u8,
}

impl Identify for Entity {
    fn spec_id(&self) -> usize {
        self.id
    }

    fn spec_with_id(&self, id: usize) -> Self {
        Entity { id, tag: self.tag }
    }

    fn set_id(&mut self, id: usize) {
        self.id = id;
    }

    fn id(&self) -> usize {
        self.id
    }
}

#[test]
fn util_id_list_add_and_reuse() {
    let mut list: IdList<Entity> = IdList::new();
    assert_eq!(list.add(Entity { id: 99, tag: 1 }), 0);
    assert_eq!(list.add(Entity { id: 99, tag: 2 }), 1);
    let removed = list.remove(0).unwrap();
    assert_eq!(removed.tag, 1);
    assert!(list.remove(0).is_none());
    assert_eq!(list.add(Entity { id: 99, tag: 3 }), 0);
    let tags: Vec<u8> = list.iter().iter().map(|e| e.tag).collect();
    assert_eq!(tags, vec![3, 2]);
    let ids: Vec<usize> = list.iter().iter().map(|e| e.id()).collect();
    assert_eq!(ids, vec![0, 1]);
}

#[test]
fn util_id_list_iter_mut_in_order() {
    let mut list: IdList<Entity> = IdList::with_capacity(4);
    for t in 0..3u8 {
        list.add(Entity { id: 0, tag: t });
    }
    for e in list.iter_mut() {
        e.tag += 10;
    }
    let tags: Vec<u8> = list.iter().iter().map(|e| e.tag).collect();
    assert_eq!(tags, vec![10, 11, 12]);
}

#[test]
fn util_id_list_double_remove_frees_once() {
    let mut list: IdList<Entity> = IdList::new();
    assert_eq!(list.add(Entity { id: 9, tag: 1 }), 0);
    assert_eq!(list.add(Entity { id: 9, tag: 2 }), 1);
    assert!(list.remove(1).is_some());
    assert!(list.remove(1).is_none());
    assert_eq!(list.add(Entity { id: 9, tag: 3 }), 1);
    assert_eq!(list.add(Entity { id: 9, tag: 4 }), 2);
    let tags: Vec<u8> = list.iter().iter().map(|e| e.tag).collect();
    assert_eq!(tags, vec![1, 3, 4]);
}

#[test]
fn util_id_list_get_and_get_mut() {
    let mut list: IdList<Entity> = IdList::new();
    list.add(Entity { id: 0, tag: 5 });
    list.add(Entity { id: 0, tag: 6 });
    assert_eq!(list.get(1).unwrap().tag, 6);
    assert_eq!(list.get(1).unwrap().id(), 1);
    assert!(list.get(2).is_none());
    list.get_mut(0).unwrap().tag = 9;
    assert_eq!(list.get(0).unwrap().tag, 9);
    list.remove(0);
    assert!(list.get(0).is_none());
    assert!(list.get_mut(0).is_none());
}
