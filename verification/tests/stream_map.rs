use event_streams::stream_map::StreamMap;

fn id(text: &str) -> String {
    text.to_owned()
}

#[test]
fn insert_replaces_and_remove_takes_out() {
    let mut map: StreamMap<u32> = StreamMap::new();
    assert!(!map.contains_key(&id("$a")));
    map.insert(id("$a"), 1);
    map.insert(id("$b"), 2);
    map.insert(id("$a"), 3);
    assert!(map.contains_key(&id("$a")));
    assert_eq!(map.remove(&id("$a")), Some(3));
    assert_eq!(map.remove(&id("$a")), None);
    assert!(!map.contains_key(&id("$a")));
    assert!(map.contains_key(&id("$b")));
}

#[test]
fn split_off_hands_out_the_others() {
    let mut map: StreamMap<u32> = StreamMap::new();
    for (key, value) in [("$a", 1), ("$b", 2), ("$c", 3), ("$d", 4)] {
        map.insert(id(key), value);
    }
    let mut others = map.split_off(&vec![(id("$b"), ()), (id("$d"), ()), (id("$x"), ())]);
    others.sort();
    assert_eq!(others, vec![(id("$a"), 1), (id("$c"), 3)]);
    let mut kept = map.take();
    kept.sort();
    assert_eq!(kept, vec![(id("$b"), 2), (id("$d"), 4)]);
    assert!(map.take().is_empty());
}
