use tag_registry::names::{compare_names, NameOrder, NameTable};

#[test]
fn compare_names_orders_by_code_point() {
    assert_eq!(compare_names("a", "b"), NameOrder::Less);
    assert_eq!(compare_names("b", "a"), NameOrder::Greater);
    assert_eq!(compare_names("", "a"), NameOrder::Less);
    assert_eq!(compare_names("a", ""), NameOrder::Greater);
    assert_eq!(compare_names("", ""), NameOrder::Equal);
    assert_eq!(compare_names("ab", "b"), NameOrder::Less);
    assert_eq!(compare_names("abc", "abc"), NameOrder::Equal);
    assert_eq!(compare_names("abc", "abd"), NameOrder::Less);
    assert_eq!(compare_names("Z", "a"), NameOrder::Less);
    assert_eq!(compare_names("é", "z"), NameOrder::Greater);
    assert_eq!(compare_names("Dog", "Do"), NameOrder::Greater);
}

#[test]
fn compare_names_agrees_with_str_order() {
    let words = ["", "a", "A", "ab", "b", "Cat", "Dog", "Person", "é", "ée", "z", "日本", "日"];
    for a in words.iter() {
        for b in words.iter() {
            let expected = match a.cmp(b) {
                std::cmp::Ordering::Less => NameOrder::Less,
                std::cmp::Ordering::Equal => NameOrder::Equal,
                std::cmp::Ordering::Greater => NameOrder::Greater,
            };
            assert_eq!(compare_names(a, b), expected, "{} vs {}", a, b);
        }
    }
}

#[test]
fn name_table_keeps_names_sorted() {
    let mut t = NameTable::new();
    assert_eq!(t.len(), 0);
    assert_eq!(t.names(), Vec::<&str>::new());
    t.insert("Person", 3);
    t.insert("Dog", 1);
    t.insert("Cat", 2);
    assert_eq!(t.names(), vec!["Cat", "Dog", "Person"]);
    assert_eq!(t.keys_in_order(), vec![2, 1, 3]);
    assert_eq!(t.get("Dog"), Some(1));
    assert_eq!(t.get("Cow"), None);
    assert_eq!(t.len(), 3);
}

#[test]
fn name_table_insert_replaces() {
    let mut t = NameTable::new();
    t.insert("Dog", 1);
    t.insert("Dog", 5);
    assert_eq!(t.get("Dog"), Some(5));
    assert_eq!(t.len(), 1);
    assert_eq!(t.names(), vec!["Dog"]);
}

#[test]
fn name_table_many_names() {
    let names = ["m", "c", "x", "a", "q", "b", "z", "k", "d", "y"];
    let mut t = NameTable::new();
    for (i, n) in names.iter().enumerate() {
        t.insert(n, i as u64);
    }
    let mut sorted: Vec<&str> = names.to_vec();
    sorted.sort();
    assert_eq!(t.names(), sorted);
    for (i, n) in names.iter().enumerate() {
        assert_eq!(t.get(n), Some(i as u64));
    }
}
