use rlvgl_core::edit::{CharFilter, EditCore};
use rlvgl_core::event::Key;
use rlvgl_core::widget::Rect;

const BOUNDS: Rect = Rect {
    x: 0,
    y: 0,
    width: 200,
    height: 100,
};

fn field(multi: bool) -> EditCore {
    EditCore::new("", BOUNDS, multi)
}

/// Adapts a closure to the accepted-charset predicate.
struct FnFilter<F: Fn(char) -> bool>(F);

impl<F: Fn(char) -> bool> CharFilter for FnFilter<F> {
    fn accepts(&self, c: char) -> bool {
        (self.0)(c)
    }
    fn accept(&self, c: char) -> bool {
        (self.0)(c)
    }
}

#[test]
fn insert_printable_ascii() {
    let mut ec = field(false);
    ec.active = true;
    assert!(ec.try_insert('A'));
    assert_eq!(ec.buffer, "A");
    assert_eq!(ec.caret, 1);
}

#[test]
fn insert_newline_only_on_multiline() {
    let mut single = field(false);
    let mut multi = field(true);
    assert!(!single.try_insert('\n'));
    assert!(multi.try_insert('\n'));
}

#[test]
fn backspace_removes_char_and_decrements_caret() {
    let mut ec = field(false);
    ec.try_insert('X');
    assert!(ec.try_backspace());
    assert_eq!(ec.buffer, "");
    assert_eq!(ec.caret, 0);
    assert!(!ec.try_backspace());
}

#[test]
fn handle_key_arrow_navigation() {
    let mut ec = field(false);
    ec.try_insert('A');
    ec.try_insert('B');
    ec.handle_key(&Key::ArrowLeft);
    assert_eq!(ec.caret, 1);
    ec.handle_key(&Key::ArrowLeft);
    assert_eq!(ec.caret, 0);
    ec.handle_key(&Key::ArrowLeft);
    assert_eq!(ec.caret, 0);
    ec.handle_key(&Key::ArrowRight);
    assert_eq!(ec.caret, 1);
    ec.handle_key(&Key::ArrowRight);
    ec.handle_key(&Key::ArrowRight);
    assert_eq!(ec.caret, 2, "clamped at end");
}

#[test]
fn max_len_gate() {
    let mut ec = field(false);
    ec.max_len = Some(2);
    ec.try_insert('A');
    ec.try_insert('B');
    assert!(!ec.try_insert('C'));
    assert_eq!(ec.buffer, "AB");
}

#[test]
fn accept_gate() {
    let mut ec = field(false);
    ec.accept = Some(Box::new(FnFilter(|c: char| c.is_ascii_digit())));
    assert!(ec.try_insert('5'));
    assert!(!ec.try_insert('x'));
    assert_eq!(ec.buffer, "5");
}

#[test]
fn caret_row_col_multiline() {
    let mut ec = field(true);
    ec.try_insert('A');
    ec.try_insert('B');
    ec.try_insert('\n');
    ec.try_insert('C');
    assert_eq!(ec.caret_row_col(), (1, 1));
}

#[test]
fn byte_index_is_char_aware() {
    let mut ec = field(false);
    ec.set_text("abc");
    assert_eq!(ec.byte_index(0), 0);
    assert_eq!(ec.byte_index(1), 1);
    assert_eq!(ec.byte_index(3), 3);
}

/// Records every buffer the field reports.
struct Recorder(std::rc::Rc<std::cell::RefCell<Vec<String>>>);

impl rlvgl_core::edit::ChangeListener for Recorder {
    fn heard(&self) -> Vec<String> {
        self.0.borrow().clone()
    }
    fn changed(&mut self, text: &str) {
        self.0.borrow_mut().push(String::from(text));
    }
}

#[test]
fn set_text_bypasses_ascii_gate_and_fires_callback() {
    let log: std::rc::Rc<std::cell::RefCell<Vec<String>>> =
        std::rc::Rc::new(std::cell::RefCell::new(Vec::new()));
    let log2 = log.clone();
    let mut ec = field(false);
    ec.on_change = Some(Box::new(Recorder(log2)));
    ec.set_text("héllo");
    assert_eq!(ec.buffer, "héllo");
    assert_eq!(log.borrow()[0], "héllo");
}

#[test]
fn byte_index_counts_multibyte_chars() {
    let mut ec = field(false);
    ec.set_text("héllo");
    assert_eq!(ec.byte_index(1), 1);
    assert_eq!(ec.byte_index(2), 3);
    assert_eq!(ec.byte_index(5), 6);
    assert_eq!(ec.byte_index(99), 6);
    assert_eq!(ec.char_count(), 5);
}

#[test]
fn insert_in_middle_of_unicode_text() {
    let mut ec = EditCore::new("héo", BOUNDS, false);
    assert_eq!(ec.caret, 3);
    ec.handle_key(&Key::ArrowLeft);
    assert!(ec.try_insert('l'));
    assert_eq!(ec.buffer, "hélo");
    assert_eq!(ec.caret, 3);
    assert!(ec.try_backspace());
    assert_eq!(ec.buffer, "héo");
    assert_eq!(ec.caret, 2);
}

#[test]
fn backspace_after_insert_restores_text() {
    let mut ec = EditCore::new("ab", BOUNDS, false);
    ec.caret = 1;
    assert!(ec.try_insert('Z'));
    assert_eq!(ec.buffer, "aZb");
    assert!(ec.try_backspace());
    assert_eq!(ec.buffer, "ab");
    assert_eq!(ec.caret, 1);
}

#[test]
fn refused_insert_leaves_text_and_skips_callback() {
    let log: std::rc::Rc<std::cell::RefCell<Vec<String>>> =
        std::rc::Rc::new(std::cell::RefCell::new(Vec::new()));
    let mut ec = field(false);
    ec.on_change = Some(Box::new(Recorder(log.clone())));
    assert!(!ec.try_insert('\u{7f}'));
    assert!(!ec.try_insert('é'));
    assert_eq!(ec.buffer, "");
    assert_eq!(ec.caret, 0);
    assert!(log.borrow().is_empty());
    assert!(ec.try_insert('q'));
    assert_eq!(log.borrow().len(), 1);
}

#[test]
fn set_text_clamps_caret() {
    let mut ec = EditCore::new("hello", BOUNDS, false);
    ec.set_text("hi");
    assert_eq!(ec.caret, 2);
    ec.caret = 1;
    ec.set_text("world");
    assert_eq!(ec.caret, 1);
}

#[test]
fn handle_key_ignores_other_keys() {
    let mut ec = EditCore::new("ab", BOUNDS, false);
    assert!(!ec.handle_key(&Key::Enter));
    assert!(!ec.handle_key(&Key::ArrowUp));
    assert!(!ec.handle_key(&Key::Function(3)));
    assert!(ec.handle_key(&Key::Space));
    assert_eq!(ec.buffer, "ab ");
    assert!(ec.handle_key(&Key::Character('c')));
    assert!(ec.handle_key(&Key::Backspace));
    assert_eq!(ec.buffer, "ab ");
}

#[test]
fn caret_row_col_counts_from_last_newline() {
    let mut ec = EditCore::new("ab\ncd\nefg", BOUNDS, true);
    assert_eq!(ec.caret_row_col(), (2, 3));
    ec.caret = 4;
    assert_eq!(ec.caret_row_col(), (1, 1));
    ec.caret = 0;
    assert_eq!(ec.caret_row_col(), (0, 0));
}

#[test]
fn committed_reports_the_buffer_again() {
    let log: std::rc::Rc<std::cell::RefCell<Vec<String>>> =
        std::rc::Rc::new(std::cell::RefCell::new(Vec::new()));
    let mut ec = EditCore::new("ok", BOUNDS, false);
    ec.committed();
    ec.on_change = Some(Box::new(Recorder(log.clone())));
    ec.committed();
    ec.committed();
    assert_eq!(*log.borrow(), vec![String::from("ok"), String::from("ok")]);
    assert_eq!(ec.buffer, "ok");
    assert_eq!(ec.caret, 2);
}

#[test]
fn every_committed_edit_reports_once_and_refusals_stay_silent() {
    let log: std::rc::Rc<std::cell::RefCell<Vec<String>>> =
        std::rc::Rc::new(std::cell::RefCell::new(Vec::new()));
    let mut ec = field(false);
    ec.on_change = Some(Box::new(Recorder(log.clone())));
    ec.accept = Some(Box::new(FnFilter(|c: char| c != 'x')));
    assert!(ec.try_insert('a'));
    assert!(!ec.try_insert('x'));
    assert!(ec.try_insert('b'));
    assert!(ec.try_backspace());
    ec.set_text("zz");
    ec.caret = 0;
    assert!(!ec.try_backspace());
    assert_eq!(*log.borrow(), vec!["a", "ab", "a", "zz"]);
}
