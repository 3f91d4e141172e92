use buffy::{Cell, Line, Location, Queueable, Queued};

#[test]
fn test_enum_queueable() {
    let q = Queueable::Cell(Cell::new('b'));
    assert_eq!(q.value(), Line::from("b"));
}

#[test]
fn line_from_plain_text_has_plain_cells() {
    let line = Line::from("hi");
    assert_eq!(line.len(), 2);
    assert!(!line.is_empty());
    assert_eq!(line.as_slice(), &[Cell::new('h'), Cell::new('i')][..]);
    assert_eq!(line.to_string(), "hi");
}

#[test]
fn line_from_decorated_text_strips_and_shares_decoration() {
    let line = Line::from("\x1b[31mHi\x1b[0m");
    assert_eq!(line.len(), 2);
    for (c, chr) in line.as_slice().iter().zip(['H', 'i']) {
        assert_eq!(c.chr, chr);
        assert_eq!(c.style.as_deref(), Some("\x1b[31m"));
        assert_eq!(c.end.as_deref(), Some("\x1b[0m"));
    }
}

#[test]
fn line_from_code_only_text_is_empty() {
    let line = Line::from("\x1b[1;32m");
    assert!(line.is_empty());
    assert_eq!(Line::from("").len(), 0);
}

#[test]
fn decorated_splits_around_plain_text() {
    let line = Line::decorated("\x1b[1;4mab>>", "ab");
    assert_eq!(line.len(), 2);
    assert_eq!(line.as_slice()[0].style.as_deref(), Some("\x1b[1;4m"));
    assert_eq!(line.as_slice()[1].end.as_deref(), Some(">>"));
    let line = Line::decorated("<<ab>>", "ab");
    assert_eq!(line.as_slice(), &[Cell::new('a'), Cell::new('b')][..]);
    let line = Line::decorated("ab", "ab");
    assert_eq!(line.as_slice(), &[Cell::new('a'), Cell::new('b')][..]);
}

#[test]
fn lead_is_whole_codes_even_when_text_repeats_their_end() {
    let line = Line::from("\x1b[1mmm");
    assert_eq!(line.len(), 2);
    for c in line.as_slice() {
        assert_eq!(c.chr, 'm');
        assert_eq!(c.style.as_deref(), Some("\x1b[1m"));
        assert_eq!(c.end, None);
    }
}

#[test]
fn several_leading_codes_form_one_lead() {
    let line = Line::from("\x1b[1m\x1b[31mok\x1b[0m");
    assert_eq!(line.len(), 2);
    assert_eq!(line.as_slice()[0].style.as_deref(), Some("\x1b[1m\x1b[31m"));
    assert_eq!(line.as_slice()[1].end.as_deref(), Some("\x1b[0m"));
}

#[test]
fn code_inside_the_text_gives_no_decoration() {
    let line = Line::from("a\x1b[1mb");
    assert_eq!(line.as_slice(), &[Cell::new('a'), Cell::new('b')][..]);
}

#[test]
fn with_style_bookends_the_run() {
    let line = Line::from("abc").with_style("S");
    let cells = line.as_slice();
    assert_eq!(cells[0].style.as_deref(), Some("S"));
    assert_eq!(cells[1], Cell::new('b'));
    assert_eq!(cells[2].style, None);
    assert_eq!(cells[2].end.as_deref(), Some("\x1b[0m"));
    assert_eq!(line.to_string(), "Sabc\x1b[0m");
    let empty = Line::default().with_style("S");
    assert!(empty.is_empty());
}

#[test]
fn with_style_keeps_existing_ending() {
    let line = Line::from("\x1b[1mab\x1b[22m").with_style("S");
    assert_eq!(line.as_slice()[1].end.as_deref(), Some("\x1b[22m"));
}

#[test]
fn line_from_text_and_style_pair() {
    let line = Line::from(("x", "C"));
    assert_eq!(line.as_slice()[0].style.as_deref(), Some("C"));
    assert_eq!(line.as_slice()[0].end.as_deref(), Some("\x1b[0m"));
}

#[test]
fn line_insert_and_slices() {
    let mut line = Line::from("ac");
    line.insert(1, Cell::new('b'));
    assert_eq!(line.to_string(), "abc");
    line.as_mut_slice()[0] = Cell::new('z');
    assert_eq!(line.to_string(), "zbc");
    line.truncate(1);
    assert_eq!(line.to_string(), "z");
    let cells = [Cell::new('q')];
    assert_eq!(Line::from(&cells[..]), Line::from("q"));
}

#[test]
fn cell_renders_style_char_end() {
    let mut c = Cell::new('x');
    assert_eq!(c.to_string(), "x");
    c.with_style("[");
    assert_eq!(c.to_string(), "[x");
    let c = Cell::from(('y', Some("<".to_string()), Some(">".to_string())));
    assert_eq!(c.to_string(), "<y>");
    let c = Cell::from(('y', None, Some(">".to_string())));
    assert_eq!(c.to_string(), "y>");
}

#[test]
fn queued_end_cords_and_value() {
    let q = Queued::from((3, 1, Cell::new('a')));
    assert_eq!(q.end(), 4);
    assert_eq!(q.cords(), (3, 1));
    assert_eq!(q.value(), Line::from("a"));
    let line = Line::from("abcd");
    let q = Queued::from((2, 0, &line));
    assert_eq!(q.end(), 6);
    assert_eq!(q.clone(), Queued::from((2, 0, line)));
    let q = Queueable::Line(Line::from("zz"));
    assert_eq!(q.clone().value(), Line::from("zz"));
}

#[test]
fn location_conversions() {
    assert_eq!(Location::from((3usize, 4usize)), Location::Cords { x: 3, y: 4 });
    assert_eq!(Location::from((70000usize, 1usize)), Location::Cords { x: 4464, y: 1 });
    assert_eq!(Location::from((5u16, 6u16)), Location::Cords { x: 5, y: 6 });
    assert_eq!(Location::from(9usize), Location::Index(9));
    assert_eq!(Location::from(7u16), Location::Index(7));
}
