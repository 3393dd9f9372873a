use calculator::union_find::{Find, UnionFind};

#[test]
fn union_find_classes() {
    let mut uf = UnionFind::new(6);
    for v in 0..6 {
        assert_eq!(uf.find(v), v);
    }
    uf.union(0, 1);
    uf.union(2, 3);
    uf.union(1, 3);
    assert_eq!(uf.find(0), uf.find(2));
    assert_eq!(uf.find(1), uf.find(3));
    assert_ne!(uf.find(0), uf.find(4));
    assert_eq!(uf.find(5), 5);
    uf.union(4, 4);
    assert_eq!(uf.find(4), 4);
    assert_eq!(uf.count(), 6);
}

#[test]
fn union_find_empty() {
    let uf = UnionFind::new(0);
    assert_eq!(uf.count(), 0);
}
