use buffy::Buffy;

#[test]
fn return_visibile() {
    let mut test = Buffy::new("你好 hello");
    test.insert(0, "123");
    let result = test.get_range(1..5).map(|v| v.iter().map(Clone::clone).collect::<String>());
    assert_eq!(result, Some("23你好".to_string()));
}

#[test]
fn return_one() {
    let mut test = Buffy::new("你好 hello");
    test.insert(0, "123");
    let result = test.get(3);
    assert_eq!(result, Some(&"你".to_string()));
}

#[test]
fn space_test() {
    let mut test = Buffy::new("你好 hello");
    test.insert(0, "123");
    let result = test.get(5);
    assert_eq!(result, Some(&" ".to_string()));
}

#[test]
fn get_words() {
    let mut test = Buffy::new("你好. How about you?");
    test.insert(0, "I know nothing about this words ");
    let left = test.words();
    let right =
        vec!["I", "know", "nothing", "about", "this", "words", "你", "好", "How", "about", "you"]
            .iter()
            .map(ToString::to_string)
            .collect::<Vec<String>>();
    assert_eq!(left, right);
}

#[test]
fn graphemes_keep_combining_marks_together() {
    let b = Buffy::new("e\u{301}x");
    assert_eq!(b.get(0), Some(&"e\u{301}".to_string()));
    assert_eq!(b.get(1), Some(&"x".to_string()));
    assert_eq!(b.get(2), None);
}

#[test]
fn insert_in_the_middle_and_ranges() {
    let mut b = Buffy::new("ad");
    b.insert(1, "bc");
    assert_eq!(b.get_range(0..4).map(|v| v.concat()), Some("abcd".to_string()));
    assert_eq!(b.get_range(3..5), None);
    assert_eq!(b.get_range(2..2).map(|v| v.len()), Some(0));
}
