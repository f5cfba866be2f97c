use calcpad::buffer::LineBuffer;
use calcpad::document::{is_comment, load, save};
use calcpad::session::{Key, Response, Session};

fn chars(s: &str) -> Vec<char> {
    s.chars().collect()
}

fn lines_of(b: &LineBuffer) -> Vec<String> {
    b.lines.iter().map(|l| l.iter().collect()).collect()
}

fn buffer(ls: &[&str], line: usize, column: usize) -> LineBuffer {
    LineBuffer { lines: ls.iter().map(|l| chars(l)).collect(), line, column }
}

#[test]
fn typing_advances_column_by_count() {
    let mut b = LineBuffer::new();
    for (n, c) in "hello".chars().enumerate() {
        b.insert_char(c);
        assert_eq!(b.column, n + 1);
    }
    assert_eq!(lines_of(&b), vec!["hello".to_string()]);
    let mut t = buffer(&["ad"], 0, 1);
    t.type_chars(&chars("bc"));
    assert_eq!(t.column, 3);
    assert_eq!(lines_of(&t), vec!["abcd".to_string()]);
}

#[test]
fn insert_then_backspace_restores_line() {
    let mut b = buffer(&["abc", "de"], 0, 1);
    b.insert_char('z');
    assert_eq!(lines_of(&b), vec!["azbc".to_string(), "de".to_string()]);
    b.delete_before_cursor();
    assert_eq!(lines_of(&b), vec!["abc".to_string(), "de".to_string()]);
    assert_eq!((b.line, b.column), (0, 1));
}

#[test]
fn backspace_at_line_start_moves_without_joining() {
    let mut b = buffer(&["abc", "de"], 1, 0);
    b.delete_before_cursor();
    assert_eq!((b.line, b.column), (0, 3));
    assert_eq!(lines_of(&b), vec!["abc".to_string(), "de".to_string()]);
}

#[test]
fn backspace_at_document_start_does_nothing() {
    let mut b = buffer(&["abc"], 0, 0);
    b.delete_before_cursor();
    assert_eq!((b.line, b.column), (0, 0));
    assert_eq!(lines_of(&b), vec!["abc".to_string()]);
}

#[test]
fn arrows_stay_in_bounds() {
    let mut b = buffer(&["ab", "wxyz"], 1, 4);
    b.move_right();
    assert_eq!(b.column, 4);
    b.move_up();
    assert_eq!((b.line, b.column), (0, 2));
    b.move_up();
    assert_eq!((b.line, b.column), (0, 2));
    b.move_left();
    b.move_left();
    b.move_left();
    assert_eq!(b.column, 0);
    b.move_right();
    b.move_down();
    assert_eq!((b.line, b.column), (1, 0));
    b.move_down();
    assert_eq!((b.line, b.column), (1, 0));
}

#[test]
fn up_keeps_column_on_longer_line() {
    let mut b = buffer(&["abcdef", "xyz"], 1, 2);
    b.move_up();
    assert_eq!((b.line, b.column), (0, 2));
}

#[test]
fn enter_opens_line_without_splitting() {
    let mut b = buffer(&["abcd", "z"], 0, 2);
    b.open_line();
    assert_eq!((b.line, b.column), (1, 0));
    assert_eq!(lines_of(&b), vec!["abcd".to_string(), String::new(), "z".to_string()]);
}

#[test]
fn insert_and_remove_lines() {
    let mut b = buffer(&["a", "b", "c"], 1, 1);
    b.insert_line_after(chars("n"));
    assert_eq!(lines_of(&b), vec!["a", "b", "n", "c"]);
    b.remove_line(0);
    assert_eq!((b.line, b.column), (0, 1));
    assert_eq!(lines_of(&b), vec!["b", "n", "c"]);
}

#[test]
fn save_then_load_gives_same_lines() {
    let ls = vec![chars("f(x):= 2*x+3"), chars(""), chars("// note"), chars("f(5)")];
    let text = save(&ls, false);
    assert_eq!(text.iter().collect::<String>(), "f(x):= 2*x+3\n\n// note\nf(5)");
    assert_eq!(load(&text), ls);
}

#[test]
fn load_then_save_gives_same_text() {
    for t in ["", "a", "a\n", "\n\nb\nc", "line one\nline two\n"] {
        let ls = load(&chars(t));
        assert_eq!(save(&ls, false).iter().collect::<String>(), t);
    }
    assert_eq!(load(&chars("")), vec![Vec::<char>::new()]);
    assert_eq!(load(&chars("a\n")), vec![chars("a"), chars("")]);
}

#[test]
fn save_strips_comment_lines_when_asked() {
    let ls = vec![chars("keep"), chars("  // gone"), chars("/ stays"), chars("end")];
    assert_eq!(save(&ls, true).iter().collect::<String>(), "keep\n/ stays\nend");
    let plain = vec![chars("a"), chars("b")];
    assert_eq!(save(&plain, true), save(&plain, false));
    assert!(is_comment(&chars("\t// x")));
    assert!(!is_comment(&chars("x // y")));
}

#[test]
fn session_keys_edit_and_save() {
    let mut s = Session::new(vec![chars("")]);
    for c in "// hi".chars() {
        assert!(matches!(s.handle_key(Key::Char(c)), Response::Nothing));
    }
    assert!(matches!(s.handle_key(Key::Enter), Response::Nothing));
    assert_eq!((s.buffer.line, s.buffer.column), (1, 0));
    for c in "abc".chars() {
        s.handle_key(Key::Char(c));
    }
    s.handle_key(Key::Backspace);
    s.handle_key(Key::Left);
    s.handle_key(Key::Other);
    assert_eq!(s.buffer.column, 1);
    match s.handle_key(Key::Esc) {
        Response::Save { text } => assert_eq!(text.iter().collect::<String>(), "ab"),
        _ => panic!("Esc must ask to save"),
    }
}

#[test]
fn removing_lines_around_cursor() {
    let mut b = buffer(&["a", "bc", "d"], 1, 2);
    b.remove_line(1);
    assert_eq!(lines_of(&b), vec!["a", "d"]);
    assert_eq!((b.line, b.column), (1, 0));
    let mut c = buffer(&["a", "bc"], 1, 1);
    c.remove_line(1);
    assert_eq!(lines_of(&c), vec!["a"]);
    assert_eq!((c.line, c.column), (0, 0));
    let mut d = buffer(&["only"], 0, 3);
    d.remove_line(0);
    assert_eq!(lines_of(&d), vec![""]);
    assert_eq!((d.line, d.column), (0, 0));
    let mut e = buffer(&["a", "b", "c"], 0, 1);
    e.remove_line(2);
    assert_eq!((e.line, e.column), (0, 1));
}
