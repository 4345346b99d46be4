use cfg_rs::CacheString;

fn should_eq(origin: &str, norm: &str) {
    let che = CacheString::new();
    let mut key = che.new_key();
    key.push(origin);
    assert_eq!(&key.to_string(), norm);
    let chd = CacheString::new();
    let mut kez = chd.new_key();
    kez.push(norm);
    assert_eq!(true, key.as_str() == kez.as_str());
}

#[test]
fn key_test() {
    should_eq("", "");
    should_eq(".", "");
    should_eq("..", "");
    should_eq("[", "");
    should_eq("[1]", "[1]");
    should_eq("1", "[1]");
    should_eq("1[1]", "[1][1]");
    should_eq("prefix.prop", "prefix.prop");
    should_eq(".prefix.prop", "prefix.prop");
    should_eq("[]prefix.prop", "prefix.prop");
    should_eq("[0]prefix.prop", "[0].prefix.prop");
    should_eq("prefix[0].prop", "prefix[0].prop");
    should_eq("prefix.0.prop", "prefix[0].prop");
    should_eq("hello", "hello");
}

#[test]
fn key_push_test() {
    let che = CacheString::new();
    let mut key = che.new_key();
    let mut vec: Vec<String> = vec![];

    key.push("a");
    assert_eq!("a", key.as_str());
    vec.push(key.to_string());
    key.push("");
    assert_eq!("a", key.as_str());
    vec.push(key.to_string());
    key.push("b");
    assert_eq!("a.b", key.as_str());
    vec.push(key.to_string());
    key.push("1");
    assert_eq!("a.b[1]", key.as_str());
    vec.push(key.to_string());
    key.push("1");
    assert_eq!("a.b[1][1]", key.as_str());
    vec.push(key.to_string());
    key.push("a.1");
    assert_eq!("a.b[1][1].a[1]", key.as_str());
    vec.push(key.to_string());

    while let Some(v) = vec.pop() {
        assert_eq!(&v, &key.as_str());
        key.pop();
    }
}

#[test]
fn key_normalize_idempotent_test() {
    // normalizing an already canonical string leaves it unchanged
    for raw in ["a.0.b", "a[0].b", "+7.x", "..a..", "[3]c[0007]", "a b.c"] {
        let c1 = CacheString::new();
        let mut k1 = c1.new_key();
        k1.push(raw);
        let once = k1.as_str();
        let c2 = CacheString::new();
        let mut k2 = c2.new_key();
        k2.push(once.as_str());
        assert_eq!(once, k2.as_str());
    }
}

#[test]
fn key_plus_and_overflow_tokens_test() {
    // a `+` prefixed number reads as an index; an overflowing one stays a name
    let c1 = CacheString::new();
    let mut k1 = c1.new_key();
    k1.push("a.+12.b");
    assert_eq!("a[12].b", k1.as_str());
    let c2 = CacheString::new();
    let mut k2 = c2.new_key();
    k2.push("a.99999999999999999999999999999999999999999.b");
    assert_eq!("a.99999999999999999999999999999999999999999.b", k2.as_str());
}

#[test]
fn partial_key_iter_test() {
    let mut it = cfg_rs::PartialKeyIter::from_str("a.0.b");
    match it.next() {
        Some(cfg_rs::PartialKey::Str(s)) => assert_eq!("a", s),
        _ => panic!("expected a name segment"),
    }
    match it.next() {
        Some(cfg_rs::PartialKey::Int(i)) => assert_eq!(0, i),
        _ => panic!("expected an index segment"),
    }
    match it.next() {
        Some(cfg_rs::PartialKey::Str(s)) => assert_eq!("b", s),
        _ => panic!("expected a name segment"),
    }
    assert!(it.next().is_none());

    let mut single = cfg_rs::PartialKeyIter::from_index(4);
    match single.next() {
        Some(cfg_rs::PartialKey::Int(i)) => assert_eq!(4, i),
        _ => panic!("expected an index segment"),
    }
    assert!(single.next().is_none());
}

#[test]
fn partial_key_collector_test() {
    let mut c = cfg_rs::PartialKeyCollector::new();
    assert_eq!(None, c.int_bound());
    c.insert_int(3);
    assert_eq!(Some(4), c.int_bound());
    c.insert_int(1);
    assert_eq!(Some(4), c.int_bound());
    c.insert_int(5);
    assert_eq!(Some(6), c.int_bound());
}
