use turing_machines::{chars_of, split_fields, string_of, Tape};

#[test]
fn tape_from_text() {
    let tape = Tape::from_str("abc");
    assert_eq!(tape.min(), 0);
    assert_eq!(tape.max(), 3);
    assert_eq!(tape.blank(), 'B');
    assert_eq!(tape.read(0), 'a');
    assert_eq!(tape.read(2), 'c');
    assert_eq!(tape.to_string(), "abc");
    let empty = Tape::from_str("");
    assert_eq!(empty.min(), 0);
    assert_eq!(empty.max(), 0);
    assert_eq!(empty.to_string(), "");
}

#[test]
fn tape_counts_characters_not_bytes() {
    let tape = Tape::with_blank("äöü", ' ');
    assert_eq!(tape.max(), 3);
    assert_eq!(tape.read(1), 'ö');
}

#[test]
fn write_then_read() {
    let mut tape = Tape::with_blank("abc", '_');
    tape.ensure_space(-3);
    for o in -3..3 {
        let before = tape.to_string();
        tape.write(o, 'x');
        assert_eq!(tape.read(o), 'x');
        assert_eq!(tape.min(), -3);
        assert_eq!(tape.max(), 3);
        tape.write(o, 'y');
        assert_eq!(tape.read(o), 'y');
        assert_eq!(tape.to_string().len(), before.len());
    }
    assert_eq!(tape.to_string(), "yyyyyy");
}

#[test]
fn write_touches_one_cell() {
    let mut tape = Tape::with_blank("abc", '_');
    tape.ensure_space(-2);
    tape.write(-1, 'p');
    assert_eq!(tape.to_string(), "_pabc");
    tape.write(-2, 'q');
    assert_eq!(tape.to_string(), "qpabc");
    tape.write(0, 'r');
    assert_eq!(tape.to_string(), "qprbc");
    tape.write(2, 's');
    assert_eq!(tape.to_string(), "qprbs");
}

#[test]
fn growth_to_the_right() {
    let mut tape = Tape::with_blank("ab", '_');
    tape.ensure_space(1);
    assert_eq!((tape.min(), tape.max()), (0, 2));
    tape.ensure_space(2);
    assert_eq!((tape.min(), tape.max()), (0, 3));
    assert_eq!(tape.read(2), '_');
    tape.ensure_space(5);
    assert_eq!((tape.min(), tape.max()), (0, 6));
    assert_eq!(tape.to_string(), "ab____");
}

#[test]
fn growth_to_the_left() {
    let mut tape = Tape::with_blank("ab", '_');
    tape.ensure_space(-1);
    assert_eq!((tape.min(), tape.max()), (-1, 2));
    assert_eq!(tape.read(-1), '_');
    tape.ensure_space(-4);
    assert_eq!((tape.min(), tape.max()), (-4, 2));
    assert_eq!(tape.to_string(), "____ab");
    tape.ensure_space(-2);
    assert_eq!((tape.min(), tape.max()), (-4, 2));
}

#[test]
fn growth_twice_is_growth_once() {
    for o in [-7, -1, 0, 1, 2, 3, 9] {
        let mut once = Tape::with_blank("ab", '_');
        once.ensure_space(o);
        let mut twice = Tape::with_blank("ab", '_');
        twice.ensure_space(o);
        twice.ensure_space(o);
        assert_eq!(once.min(), twice.min());
        assert_eq!(once.max(), twice.max());
        assert_eq!(once.to_string(), twice.to_string());
        assert!(once.min() <= 0 && once.max() >= 2);
        assert!(once.min() <= o && o < once.max());
    }
}

#[test]
fn default_blank_fills_new_cells() {
    let mut tape = Tape::from_str("x");
    tape.ensure_space(2);
    tape.ensure_space(-1);
    assert_eq!(tape.to_string(), "BxBB");
}

#[test]
fn render_windows() {
    let mut tape = Tape::with_blank("cde", '_');
    tape.ensure_space(-2);
    tape.write(-2, 'a');
    tape.write(-1, 'b');
    assert_eq!(tape.render(-2, 3), vec!['a', 'b', 'c', 'd', 'e']);
    assert_eq!(tape.render(-1, 1), vec!['b', 'c']);
    assert_eq!(tape.render(1, 3), vec!['d', 'e']);
    assert_eq!(tape.render(-2, -2), Vec::<char>::new());
    assert_eq!(tape.render(3, 3), Vec::<char>::new());
    assert_eq!(tape.render(2, -1), Vec::<char>::new());
}

#[test]
fn characters_of_a_string_and_back() {
    assert_eq!(chars_of(""), Vec::<char>::new());
    assert_eq!(chars_of("aß←"), vec!['a', 'ß', '←']);
    assert_eq!(string_of(&vec![]), "");
    assert_eq!(string_of(&vec!['a', 'ß', '←']), "aß←");
    assert_eq!(string_of(&chars_of("HELLO.WORLD!")), "HELLO.WORLD!");
}

#[test]
fn splitting_at_a_separator() {
    assert_eq!(split_fields("", ','), vec![""]);
    assert_eq!(split_fields("abc", ','), vec!["abc"]);
    assert_eq!(split_fields("a,b,c", ','), vec!["a", "b", "c"]);
    assert_eq!(split_fields(",a,,b,", ','), vec!["", "a", "", "b", ""]);
    assert_eq!(split_fields(",", ','), vec!["", ""]);
    assert_eq!(split_fields("q←\tä,ö,L\t-", '\t'), vec!["q←", "ä,ö,L", "-"]);
    for text in ["", "a", ",", "a,b", ",,", "x,,y,"] {
        let std: Vec<&str> = text.split(',').collect();
        assert_eq!(split_fields(text, ','), std);
    }
}
