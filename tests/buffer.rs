use buffy::{Buffer, BufferError, Cell, Line, Location, Queued};

#[test]
fn test_buffer_new() {
    let window = Buffer::new(5, 5, '#').unwrap();
    assert_eq!(window.to_string(), "#####\n#####\n#####\n#####\n#####");
}

#[test]
fn test_insert_str() {
    let (width, height) = (5, 5);
    let mut window = Buffer::new(width, height, '#').unwrap();
    let idx = 3;
    let (x, y) = (idx % width, idx / width);
    window.insert_str(3, "Hello01\nWorld01").unwrap();
    assert_eq!(window.to_string(), "###He\nWorld\n#####\n#####\n#####");
    let left = window.queue();
    let right = Some(vec![
        Queued::from((x as u16, y as u16, Line::from("He"))),
        Queued::from((0, 1, Line::from("World"))),
    ]);
    assert_eq!(left, right);
}

#[test]
fn test_insert_from_idx() {
    let (width, height) = (5, 5);
    let mut window = Buffer::new(width, height, '#').unwrap();
    let idx = 3;
    window.insert_from_idx(idx, Cell::new('c'));
    let (x, y) = (idx % width, idx / width);
    assert_eq!(window.to_string(), "###c#\n#####\n#####\n#####\n#####");
    assert_eq!(window.queue(), Some(vec![Queued::from((x as u16, y as u16, Cell::new('c')))]));
}

#[test]
fn test_insert_from_cords() {
    let (width, height) = (5, 5);
    let (x, y) = (1, 1);
    let mut window = Buffer::new(width, height, '#').unwrap();
    window.insert_from_cords(1, 1, Cell::new('c'));
    assert_eq!(window.to_string(), "#####\n#c###\n#####\n#####\n#####");
    assert_eq!(window.queue(), Some(vec![Queued::from((x, y, Cell::new('c')))]));
}

#[test]
fn test_insert_cell() {
    let (width, height) = (5, 5);
    let (x, y) = (2, 2);
    let idx = 6;
    let mut window = Buffer::new(width, height, '#').unwrap();
    window.insert_cell(&Location::Index(idx), Cell::new('c')).unwrap();
    window.insert_cell(&Location::Cords { x, y }, Cell::new('h')).unwrap();
    assert_eq!(window.to_string(), "#####\n#c###\n##h##\n#####\n#####");
    assert_eq!(
        window.queue(),
        Some(vec![
            Queued::from(((idx % width) as u16, (idx / width) as u16, Cell::new('c'))),
            Queued::from((x, y, Cell::new('h'))),
        ])
    );
}

#[test]
fn test_insert_line() {
    let mut window = Buffer::new(5, 5, '#').unwrap();
    let line = Line::from("Hey There");
    let (x, y) = (0, 0);
    let output = "Hey T\n#####\n#####\n#####\n#####";
    window.insert_line(&(x, y).into(), line).unwrap();
    assert_eq!(window.to_string(), output);
    let output_queue = vec![Queued::from((x, y, Line::from("Hey T")))];
    assert_eq!(window.queue(), Some(output_queue));
}

#[test]
fn test_insert_vline() {
    let mut window = Buffer::new(5, 5, '#').unwrap();
    let line = Line::from("Hey");
    window.insert_vline(&(0u16, 0u16).into(), &line);
    assert_eq!(window.to_string(), "H####\ne####\ny####\n#####\n#####");
    let line = Line::from("Hey there");
    window.insert_vline(&(0u16, 0u16).into(), &line);
    assert_eq!(window.to_string(), "H####\ne####\ny####\n ####\nt####");
    let q = window.queue();
    assert_eq!(
        q,
        Some(vec![
            Queued::from((0, 0, Cell::new('H'))),
            Queued::from((0, 1, Cell::new('e'))),
            Queued::from((0, 2, Cell::new('y'))),
            Queued::from((0, 0, Cell::new('H'))),
            Queued::from((0, 1, Cell::new('e'))),
            Queued::from((0, 2, Cell::new('y'))),
            Queued::from((0, 3, Cell::new(' '))),
            Queued::from((0, 4, Cell::new('t'))),
        ])
    );
}

#[test]
fn test_iter_buffer() {
    let buffer = Buffer::new(10, 10, '#').unwrap();
    let mut it = buffer.iter();
    let mut i = 0;
    let mut text = String::new();
    while let Some(c) = it.next() {
        if i % buffer.width == 0 && i != 0 {
            text.push('\n');
        }
        text.push_str(&c.to_string());
        i += 1;
    }
    assert_eq!(i, 100);
    assert_eq!(text, buffer.to_string());
}

#[test]
fn test_iter_mut_buffer() {
    let mut buffer = Buffer::new(5, 2, '#').unwrap();
    let mut it = buffer.iter_mut();
    let mut i = 0;
    while let Some(c) = it.next() {
        *c = Cell::from(((i + 48) as u8) as char);
        i += 1;
    }
    assert_eq!(buffer.to_string(), "01234\n56789".to_string());
}

#[test]
fn fresh_buffer_renders_rows_of_blank() {
    let b = Buffer::new(3, 2, '.').unwrap();
    assert_eq!(b.to_string(), "...\n...");
    let b = Buffer::new(1, 1, 'x').unwrap();
    assert_eq!(b.to_string(), "x");
    let b = Buffer::new(0, 3, 'x').unwrap();
    assert_eq!(b.to_string(), "\n\n");
    let b = Buffer::new(4, 0, 'x').unwrap();
    assert_eq!(b.to_string(), "");
}

#[test]
fn new_rejects_overflowing_size() {
    assert_eq!(Buffer::new(usize::MAX, 2, ' ').err(), Some(BufferError::CapacityError));
}

#[test]
fn index_and_cords_give_same_write() {
    let mut a = Buffer::new(4, 3, '.').unwrap();
    let mut b = Buffer::new(4, 3, '.').unwrap();
    let i = 9;
    a.insert_cell(&Location::Index(i), Cell::new('z')).unwrap();
    b.insert_cell(&Location::Cords { x: (i % 4) as u16, y: (i / 4) as u16 }, Cell::new('z'))
        .unwrap();
    assert_eq!(a.to_string(), b.to_string());
    assert_eq!(a.to_string(), "....\n....\n.z..");
    assert_eq!(a.queue(), b.queue());
}

#[test]
fn insert_cell_out_of_bounds_changes_nothing() {
    let mut b = Buffer::new(2, 2, '.').unwrap();
    assert_eq!(b.insert_cell(&Location::Index(4), Cell::new('a')), Err(BufferError::OutOfBounds));
    assert_eq!(
        b.insert_cell(&Location::Cords { x: 2, y: 0 }, Cell::new('a')),
        Err(BufferError::OutOfBounds)
    );
    assert_eq!(b.to_string(), "..\n..");
    assert_eq!(b.queue(), None);
}

#[test]
fn insert_line_that_fits_queues_one_record() {
    let mut b = Buffer::new(6, 2, '.').unwrap();
    b.insert_line(&Location::Cords { x: 1, y: 1 }, Line::from("abc")).unwrap();
    let q = b.queue().unwrap();
    assert_eq!(q.len(), 1);
    assert_eq!(q[0].cords(), (1, 1));
    assert_eq!(q[0].end(), 4);
    assert_eq!(q[0].clone().value(), Line::from("abc"));
    assert_eq!(b.to_string(), "......\n.abc..");
}

#[test]
fn insert_line_by_index_uses_width_for_row() {
    let mut b = Buffer::new(4, 3, '.').unwrap();
    b.insert_line(&Location::Index(9), Line::from("xyz")).unwrap();
    assert_eq!(b.to_string(), "....\n....\n.xyz");
    assert_eq!(b.queue(), Some(vec![Queued::from((1, 2, Line::from("xyz")))]));
}

#[test]
fn insert_line_out_of_bounds() {
    let mut b = Buffer::new(3, 1, '.').unwrap();
    assert_eq!(b.insert_line(&Location::Cords { x: 0, y: 1 }, Line::from("a")), Err(BufferError::OutOfBounds));
    assert_eq!(b.insert_line(&Location::Index(3), Line::from("a")), Err(BufferError::OutOfBounds));
    assert_eq!(b.queue(), None);
}

#[test]
fn hey_there_is_cut_at_row_end() {
    let mut b = Buffer::new(5, 5, '#').unwrap();
    b.insert_line(&Location::Cords { x: 0, y: 0 }, Line::from("Hey There")).unwrap();
    assert_eq!(b.to_string(), "Hey T\n#####\n#####\n#####\n#####");
    assert_eq!(b.queue(), Some(vec![Queued::from((0, 0, Line::from("Hey T")))]));
}

#[test]
fn vline_that_fits_queues_one_record_per_cell() {
    let mut b = Buffer::new(3, 4, '.').unwrap();
    b.insert_vline(&Location::Cords { x: 2, y: 1 }, &Line::from("ab"));
    assert_eq!(
        b.queue(),
        Some(vec![Queued::from((2, 1, Cell::new('a'))), Queued::from((2, 2, Cell::new('b')))])
    );
    assert_eq!(b.to_string(), "...\n..a\n..b\n...");
}

#[test]
fn vline_past_bottom_is_cut() {
    let mut b = Buffer::new(2, 3, '.').unwrap();
    b.insert_vline(&Location::Index(3), &Line::from("wxyz"));
    let q = b.queue().unwrap();
    assert_eq!(q.len(), 2);
    assert_eq!(q, vec![Queued::from((1, 1, Cell::new('w'))), Queued::from((1, 2, Cell::new('x')))]);
    assert_eq!(b.to_string(), "..\n.w\n.x");
}

#[test]
fn queue_twice_returns_nothing_the_second_time() {
    let mut b = Buffer::new(2, 2, '.').unwrap();
    assert_eq!(b.queue(), None);
    b.insert_cell(&Location::Index(0), Cell::new('a')).unwrap();
    b.insert_cell(&Location::Index(3), Cell::new('b')).unwrap();
    let first = b.queue().unwrap();
    assert_eq!(first.len(), 2);
    assert_eq!(b.queue(), None);
    assert_eq!(b.to_string(), "a.\n.b");
}

#[test]
fn render_round_trip_gives_rows_back() {
    let mut b = Buffer::new(3, 2, '-').unwrap();
    b.insert_str(0, "ab\ncde").unwrap();
    let text = b.to_string();
    assert_eq!(text, "ab-\ncde");
    let rows: Vec<&str> = text.split('\n').collect();
    assert_eq!(rows.len(), 2);
    for (y, row) in rows.iter().enumerate() {
        let line = Line::from(*row);
        assert_eq!(line.as_slice(), &b.as_slice()[y * 3..y * 3 + 3]);
    }
}

#[test]
fn insert_str_later_lines_start_at_column_zero() {
    let mut b = Buffer::new(4, 4, '.').unwrap();
    b.insert_str(6, "ab\ncd\nef").unwrap();
    assert_eq!(b.to_string(), "....\n..ab\ncd..\nef..");
    assert_eq!(
        b.queue(),
        Some(vec![
            Queued::from((2, 1, Line::from("ab"))),
            Queued::from((0, 2, Line::from("cd"))),
            Queued::from((0, 3, Line::from("ef"))),
        ])
    );
}

#[test]
fn insert_str_past_bottom_changes_nothing() {
    let mut b = Buffer::new(4, 2, '.').unwrap();
    assert_eq!(b.insert_str(4, "ab\ncd"), Err(BufferError::OutOfBounds));
    assert_eq!(b.insert_str(8, "a"), Err(BufferError::OutOfBounds));
    assert_eq!(b.to_string(), "....\n....");
    assert_eq!(b.queue(), None);
}

#[test]
fn set_size_keeps_overlap_and_fills_blank() {
    let mut b = Buffer::new(3, 2, '.').unwrap();
    b.insert_str(0, "abc\ndef").unwrap();
    b.set_size(2, 3).unwrap();
    assert_eq!(b.width, 2);
    assert_eq!(b.height, 3);
    assert_eq!((b.width(), b.height()), (2, 3));
    assert_eq!(b.to_string(), "ab\nde\n..");
    b.set_size(4, 1).unwrap();
    assert_eq!(b.to_string(), "ab..");
    assert_eq!(b.set_size(usize::MAX, 3), Err(BufferError::CapacityError));
    assert_eq!(b.to_string(), "ab..");
}

#[test]
fn get_hands_rendered_text_to_closure() {
    let mut b = Buffer::new(2, 2, ' ').unwrap();
    b.insert_cell(&Location::Index(1), Cell::new('q')).unwrap();
    let mut seen = String::new();
    b.get(|s: &str| seen.push_str(s));
    assert_eq!(seen, " q\n  ");
}

#[test]
fn as_mut_slice_writes_through() {
    let mut b = Buffer::new(2, 1, '.').unwrap();
    b.as_mut_slice()[1] = Cell::new('k');
    assert_eq!(b.to_string(), ".k");
    assert_eq!(b.as_slice().len(), 2);
}
