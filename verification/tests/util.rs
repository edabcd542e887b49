use rush::buffer::AtomicBuffer;
use rush::chars::OwnedCharBuffer;
use rush::smap::StaticMap;

#[test]
fn atomic_ptr_follow() {
    let mut buf = AtomicBuffer::new();

    buf.push(3);
    buf.push(2);
    buf.push(3);
    buf.push(7);
    buf.push(5);
    let s1 = buf.get_slice(1, 2); // 2, 3
    let s2 = buf.get_slice(2, 4); // 3, 7, 5
    assert_eq!(s1.to_vec(&buf), vec![2, 3]);
    assert_eq!(s2.to_vec(&buf), vec![3, 7, 5]);
    buf.push(5);
    buf.push(8);
    buf.push(5);
    buf.push(8);
    assert_eq!(s1.to_vec(&buf), vec![2, 3]);
    assert_eq!(s2.to_vec(&buf), vec![3, 7, 5]);

    for i in 0..16 {
        buf.push(i);
    }

    assert_eq!(s1.to_vec(&buf), vec![2, 3]);
    assert_eq!(s2.to_vec(&buf), vec![3, 7, 5]);
}

#[test]
fn view_fits_only_inside_the_buffer() {
    let mut buf = AtomicBuffer::new();
    buf.push(1u8);
    buf.push(2u8);
    assert_eq!(buf.len(), 2);
    assert!(buf.get_slice(0, 1).fits(&buf));
    assert!(!buf.get_slice(0, 2).fits(&buf));
    assert!(!buf.get_slice(1, 0).fits(&buf));
    assert_eq!(buf.get_slice(1, 1).to_vec(&buf), vec![2u8]);
}

#[test]
fn char_buffer_hands_out_characters() {
    let mut chars = OwnedCharBuffer::new(String::from("aé"));
    assert_eq!(chars.index(), 0);
    assert_eq!(chars.peek(), Some('a'));
    assert_eq!(chars.peek(), Some('a'));
    assert_eq!(chars.next(), Some('a'));
    assert_eq!(chars.index(), 1);
    assert_eq!(chars.next(), Some('é'));
    assert_eq!(chars.index(), 2);
    assert_eq!(chars.peek(), None);
    assert_eq!(chars.next(), None);
    assert_eq!(chars.index(), 2);
}

#[test]
fn char_buffer_slices_by_position() {
    let chars = OwnedCharBuffer::new(String::from("héllo"));
    assert_eq!(chars.get_slice(1, 3), Some(String::from("él")));
    assert_eq!(chars.get_slice(0, 5), Some(String::from("héllo")));
    assert_eq!(chars.get_slice(2, 2), Some(String::new()));
    assert_eq!(chars.get_slice(0, 6), None);
    assert_eq!(chars.get_slice(3, 2), None);
}

#[test]
fn static_map_keeps_first_place_and_last_value() {
    let mut map: StaticMap<String, String> = StaticMap::new();
    assert_eq!(map.len(), 0);
    assert_eq!(map.insert(String::from("a"), String::from("1")), None);
    assert_eq!(map.insert(String::from("b"), String::from("2")), None);
    assert_eq!(map.insert(String::from("a"), String::from("3")), Some(String::from("1")));
    assert_eq!(map.len(), 2);
    assert_eq!(map.entry(0), &(String::from("a"), String::from("3")));
    assert_eq!(map.entry(1), &(String::from("b"), String::from("2")));
    assert_eq!(map.get(&String::from("a")), Some(&String::from("3")));
    assert_eq!(map.get(&String::from("c")), None);
    assert!(map.contains(&String::from("b")));
    assert!(!map.contains(&String::from("c")));
}

#[test]
fn static_map_get_mut_changes_in_place() {
    let mut map: StaticMap<String, String> = StaticMap::new();
    map.insert(String::from("a"), String::from("1"));
    map.insert(String::from("b"), String::from("2"));
    if let Some(v) = map.get_mut(&String::from("b")) {
        v.push('x');
    }
    assert_eq!(map.get(&String::from("b")), Some(&String::from("2x")));
    assert_eq!(map.get(&String::from("a")), Some(&String::from("1")));
    assert!(map.get_mut(&String::from("c")).is_none());
    assert_eq!(map, {
        let mut other = StaticMap::default();
        other.insert(String::from("a"), String::from("1"));
        other.insert(String::from("b"), String::from("2x"));
        other
    });
}
