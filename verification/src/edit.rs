//! Shared edit-state machine for single-line and multi-line text fields.
//!
//! [`EditCore`] holds the edit buffer, the caret and the mutation gates
//! (`max_len`, `accept`, `on_change`) that text widgets embed.
use vstd::prelude::*;
use vstd::utf8::*;

use crate::event::Key;
use crate::widget::Rect;

verus! {

/// Default nominal character advance for caret geometry.
pub const DEFAULT_CHAR_WIDTH: i32 = 8;

/// Default nominal line height for caret geometry.
pub const DEFAULT_LINE_HEIGHT: i32 = 16;

/// Caret thickness in pixels.
pub const CARET_WIDTH: i32 = 2;

/// Accepted-charset predicate, evaluated after the printable-ASCII gate.
pub trait CharFilter {
    /// The characters this predicate accepts; a predicate outside verified
    /// code implements it by returning the answer of `accept`.
    spec fn accepts(&self, c: char) -> bool;

    /// Whether `c` may be inserted.
    fn accept(&self, c: char) -> (r: bool)
        ensures
            r == self.accepts(c),
    ;
}

/// Receiver of the buffer contents after every committed edit.
pub trait ChangeListener {
    /// The buffer contents this listener has been called with, oldest
    /// first.
    ///
    /// Verified code states what it reports through this record; a listener
    /// outside verified code implements it by returning the texts it has
    /// received.
    spec fn heard(&self) -> Vec<String>;

    /// Called with the new buffer contents.
    fn changed(&mut self, text: &str)
        ensures
            heard_one_more(old(self).heard()@, final(self).heard()@, text@),
    ;
}

/// `after` is `before` with one more text, `text`, at the end.
pub open spec fn heard_one_more(before: Seq<String>, after: Seq<String>, text: Seq<char>) -> bool {
    &&& after.len() == before.len() + 1
    &&& after.take(before.len() as int) == before
    &&& after.last()@ == text
}

/// The change listener of `after` has been told `text` once more than that
/// of `before`; without a listener nothing is reported.
pub open spec fn reported(before: Option<ChangeCallback>, after: Option<ChangeCallback>, text: Seq<char>) -> bool {
    match before {
        Some(cb) => after matches Some(cb2) && heard_one_more(cb.heard()@, cb2.heard()@, text),
        None => after is None,
    }
}

/// Callback invoked when the edit buffer changes.
pub type ChangeCallback = Box<dyn ChangeListener>;

/// Accepted-charset predicate (evaluated after the printable-ASCII gate).
pub type AcceptFn = Box<dyn CharFilter>;

/// Printable ASCII: `0x20..=0x7E`.
pub open spec fn is_printable_ascii(c: char) -> bool {
    0x20 <= (c as u32) <= 0x7e
}

/// Whether interactive insertion lets `c` through its first gate: printable
/// ASCII, or `'\n'` on a multi-line field.
pub open spec fn passes_ascii_gate(c: char, multi_line: bool) -> bool {
    is_printable_ascii(c) || (c == '\n' && multi_line)
}

/// `i` clamped into `0..=len`.
pub open spec fn clamp_index(i: int, len: int) -> int {
    if i <= len { i } else { len }
}

/// `s` with `c` inserted before position `k`.
pub open spec fn inserted(s: Seq<char>, k: int, c: char) -> Seq<char> {
    s.take(k).push(c) + s.skip(k)
}

/// `s` with the character at position `k` removed.
pub open spec fn removed(s: Seq<char>, k: int) -> Seq<char> {
    s.take(k) + s.skip(k + 1)
}

/// Number of `'\n'` characters in `s`.
pub open spec fn newline_count(s: Seq<char>) -> int
    decreases s.len(),
{
    if s.len() == 0 {
        0
    } else {
        newline_count(s.drop_last()) + if s.last() == '\n' { 1int } else { 0int }
    }
}

/// Number of characters after the last `'\n'` of `s` (all of `s` if it has none).
pub open spec fn trailing_line_len(s: Seq<char>) -> int
    decreases s.len(),
{
    if s.len() == 0 {
        0
    } else if s.last() == '\n' {
        0
    } else {
        trailing_line_len(s.drop_last()) + 1
    }
}

/// UTF-8 encoding of a concatenation is the concatenation of the encodings.
pub proof fn lemma_encode_utf8_concat(a: Seq<char>, b: Seq<char>)
    ensures
        encode_utf8(a + b) == encode_utf8(a) + encode_utf8(b),
    decreases a.len(),
{
    if a.len() == 0 {
        assert(a + b =~= b);
        assert(encode_utf8(a) =~= Seq::<u8>::empty());
        assert(encode_utf8(a) + encode_utf8(b) =~= encode_utf8(b));
    } else {
        assert((a + b).drop_first() =~= a.drop_first() + b);
        assert((a + b)[0] == a[0]);
        lemma_encode_utf8_concat(a.drop_first(), b);
        assert(encode_utf8(a + b) =~= encode_scalar(a[0] as u32) + (encode_utf8(a.drop_first())
            + encode_utf8(b)));
        assert(encode_utf8(a) + encode_utf8(b) =~= encode_scalar(a[0] as u32) + (encode_utf8(
            a.drop_first(),
        ) + encode_utf8(b)));
    }
}

/// Byte length of a prefix grows by the width of the next character.
pub(crate) proof fn lemma_encode_take_step(s: Seq<char>, i: int)
    requires
        0 <= i < s.len(),
    ensures
        encode_utf8(s.take(i + 1)).len() == encode_utf8(s.take(i)).len() + encode_scalar(
            s[i] as u32,
        ).len(),
        encode_utf8(s.take(i + 1)).len() <= encode_utf8(s).len(),
{
    let one = seq![s[i]];
    assert(s.take(i + 1) =~= s.take(i) + one);
    lemma_encode_utf8_concat(s.take(i), one);
    assert(one.drop_first() =~= Seq::<char>::empty());
    assert(encode_utf8(one.drop_first()) =~= Seq::<u8>::empty());
    assert(one[0] == s[i]);
    assert(encode_utf8(one) =~= encode_scalar(s[i] as u32));
    assert(s =~= s.take(i + 1) + s.skip(i + 1));
    lemma_encode_utf8_concat(s.take(i + 1), s.skip(i + 1));
}

/// Number of bytes in the UTF-8 encoding of `c`.
pub(crate) fn utf8_width(c: char) -> (w: usize)
    ensures
        w == encode_scalar(c as u32).len(),
{
    proof {
        char_is_scalar(c);
    }
    let v = c as u32;
    if v <= 0x7f {
        1
    } else if v <= 0x7ff {
        2
    } else if v <= 0xffff {
        3
    } else {
        4
    }
}

/// Append `c` to the end of `s`.
///
/// Calls `String::push`, documented as appending the given `char` to the
/// end of the string; the contract claims exactly that of the characters.
#[verifier::external_body]
fn push_char(s: &mut String, c: char)
    ensures
        final(s)@ == old(s)@.push(c),
{
    s.push(c);
}

/// Shared edit-state machine for single-line and multi-line text fields.
///
/// `caret` is a character index into `buffer`; it is meant to stay in
/// `0..=char_count()`. Interactive insertion is limited to printable ASCII
/// plus `'\n'` on multi-line fields, while [`EditCore::set_text`] may store
/// arbitrary Unicode.
pub struct EditCore {
    /// Text bounds used for caret geometry and derived rendering.
    pub bounds: Rect,
    /// Edit buffer.
    pub buffer: String,
    /// Caret position as a char index in `0..=char_count()`.
    pub caret: usize,
    /// Whether this field is currently consuming keyboard events.
    pub active: bool,
    /// Whether Enter inserts a newline (`true`) or signals submit (`false`).
    pub multi_line: bool,
    /// Optional cap on the number of characters in the buffer.
    pub max_len: Option<usize>,
    /// Optional accepted-charset predicate (applied after the ASCII gate).
    pub accept: Option<AcceptFn>,
    /// Optional change callback invoked after every committed edit.
    pub on_change: Option<ChangeCallback>,
    /// Nominal character advance used for caret geometry (pixels).
    pub char_width: i32,
    /// Nominal line height used for caret geometry and line pitch (pixels).
    pub line_height: i32,
}

impl EditCore {
    /// The caret clamped to the buffer: where edits take effect.
    pub open spec fn caret_pos(self) -> int {
        clamp_index(self.caret as int, self.buffer@.len() as int)
    }

    /// Byte offset in the UTF-8 buffer of character index `char_index`,
    /// or the buffer's byte length past its end.
    pub open spec fn byte_offset(self, char_index: int) -> int {
        encode_utf8(self.buffer@.take(clamp_index(char_index, self.buffer@.len() as int))).len()
            as int
    }

    /// Insertion is refused whatever the filter says: the ASCII gate or the
    /// `max_len` cap rejects `c`.
    pub open spec fn insert_refused(self, c: char) -> bool {
        ||| !passes_ascii_gate(c, self.multi_line)
        ||| (self.max_len matches Some(m) && self.buffer@.len() >= m)
    }

    /// The `accept` predicate is consulted for `c`.
    pub open spec fn filter_consulted(self, c: char) -> bool {
        c != '\n' && self.accept is Some
    }

    /// Interactive insertion lets `c` through every gate: printable ASCII
    /// (or `'\n'` on a multi-line field), the `accept` predicate (not asked
    /// about `'\n'`), and the `max_len` cap.
    pub open spec fn insert_accepted(self, c: char) -> bool {
        &&& !self.insert_refused(c)
        &&& self.filter_consulted(c) ==> (self.accept matches Some(f) && f.accepts(c))
    }

    /// Every field except the buffer, the caret and the change callback is
    /// the same in `self` and `other`.
    pub open spec fn same_settings(self, other: EditCore) -> bool {
        &&& other.bounds == self.bounds
        &&& other.active == self.active
        &&& other.multi_line == self.multi_line
        &&& other.max_len == self.max_len
        &&& other.accept == self.accept
        &&& other.char_width == self.char_width
        &&& other.line_height == self.line_height
    }

    /// Create an `EditCore` with `text` pre-loaded and the caret at the end.
    pub fn new(text: &str, bounds: Rect, multi_line: bool) -> (r: Self)
        ensures
            r.buffer@ == text@,
            r.caret == text@.len(),
            r.bounds == bounds,
            !r.active,
            r.multi_line == multi_line,
            r.max_len is None,
            r.accept is None,
            r.on_change is None,
            r.char_width == DEFAULT_CHAR_WIDTH,
            r.line_height == DEFAULT_LINE_HEIGHT,
    {
        let buffer = String::from_str(text);
        let caret = buffer.as_str().unicode_len();
        EditCore {
            bounds,
            buffer,
            caret,
            active: false,
            multi_line,
            max_len: None,
            accept: None,
            on_change: None,
            char_width: DEFAULT_CHAR_WIDTH,
            line_height: DEFAULT_LINE_HEIGHT,
        }
    }

    /// Fire the change callback, if any, with the current buffer.
    fn notify(&mut self)
        ensures
            final(self).buffer@ == old(self).buffer@,
            final(self).caret == old(self).caret,
            old(self).same_settings(*final(self)),
            reported(old(self).on_change, final(self).on_change, old(self).buffer@),
    {
        match &mut self.on_change {
            Some(cb) => cb.changed(self.buffer.as_str()),
            None => {},
        }
    }

    /// Replace the buffer with `text`, clamp the caret and fire `on_change`.
    ///
    /// This is the programmatic path; it bypasses the ASCII gate and the
    /// `accept` predicate.
    pub fn set_text(&mut self, text: &str)
        ensures
            final(self).buffer@ == text@,
            final(self).caret == clamp_index(old(self).caret as int, text@.len() as int),
            old(self).same_settings(*final(self)),
            final(self).caret <= final(self).buffer@.len(),
            reported(old(self).on_change, final(self).on_change, text@),
    {
        self.buffer = String::from_str(text);
        let n = self.buffer.as_str().unicode_len();
        if n < self.caret {
            self.caret = n;
        }
        self.notify();
    }

    /// Fire `on_change` after a committed edit.
    pub fn committed(&mut self)
        ensures
            final(self).buffer@ == old(self).buffer@,
            final(self).caret == old(self).caret,
            old(self).same_settings(*final(self)),
            reported(old(self).on_change, final(self).on_change, old(self).buffer@),
    {
        self.notify();
    }

    /// Convert a char index to a byte offset in the buffer; char indices
    /// past the end give the buffer's byte length.
    pub fn byte_index(&self, char_index: usize) -> (r: usize)
        ensures
            r == self.byte_offset(char_index as int),
    {
        let s = self.buffer.as_str();
        let total = s.as_bytes().len();
        let n = s.unicode_len();
        let k = if char_index <= n { char_index } else { n };
        let mut i: usize = 0;
        let mut acc: usize = 0;
        while i < k
            invariant
                s@ == self.buffer@,
                n == s@.len(),
                total == encode_utf8(s@).len(),
                k <= n,
                i <= k,
                acc == encode_utf8(s@.take(i as int)).len(),
            decreases k - i,
        {
            proof {
                lemma_encode_take_step(s@, i as int);
            }
            let c = s.get_char(i);
            acc = acc + utf8_width(c);
            i = i + 1;
        }
        acc
    }

    /// Number of chars currently in the buffer.
    pub fn char_count(&self) -> (r: usize)
        ensures
            r == self.buffer@.len(),
    {
        self.buffer.as_str().unicode_len()
    }

    /// Attempt to insert `c` at the caret; `true` when the edit was applied.
    ///
    /// Gate order: printable ASCII (plus `'\n'` on multi-line fields), then
    /// the `accept` predicate (skipped for `'\n'`), then the `max_len` cap.
    /// A refused insertion leaves buffer and caret untouched and does not
    /// fire `on_change`.
    pub fn try_insert(&mut self, c: char) -> (r: bool)
        requires
            old(self).caret < usize::MAX,
        ensures
            old(self).same_settings(*final(self)),
            r ==> final(self).buffer@ == inserted(old(self).buffer@, old(self).caret_pos(), c),
            r ==> final(self).caret == old(self).caret + 1,
            !r ==> final(self).buffer@ == old(self).buffer@ && final(self).caret == old(self).caret,
            r == old(self).insert_accepted(c),
            r ==> reported(old(self).on_change, final(self).on_change, final(self).buffer@),
            !r ==> final(self).on_change == old(self).on_change,
            old(self).caret <= old(self).buffer@.len() ==> final(self).caret <= final(self).buffer@.len(),
    {
        let printable = '\u{20}' <= c && c <= '\u{7e}';
        if !(printable || (c == '\n' && self.multi_line)) {
            return false;
        }
        if c != '\n' {
            match &self.accept {
                Some(f) => {
                    if !f.accept(c) {
                        return false;
                    }
                },
                None => {},
            }
        }
        let n = self.buffer.as_str().unicode_len();
        match self.max_len {
            Some(max) => {
                if n >= max {
                    return false;
                }
            },
            None => {},
        }
        let k = if self.caret <= n { self.caret } else { n };
        let ghost before = self.buffer@;
        let mut next = String::from_str(self.buffer.as_str().substring_char(0, k));
        push_char(&mut next, c);
        next.append(self.buffer.as_str().substring_char(k, n));
        self.buffer = next;
        proof {
            assert(before.subrange(0, k as int) =~= before.take(k as int));
            assert(before.subrange(k as int, n as int) =~= before.skip(k as int));
        }
        self.caret = self.caret + 1;
        self.notify();
        true
    }

    /// Delete the character before the caret; `true` if one was removed.
    /// Does nothing at position 0.
    pub fn try_backspace(&mut self) -> (r: bool)
        requires
            old(self).caret <= old(self).buffer@.len(),
        ensures
            old(self).same_settings(*final(self)),
            r == (old(self).caret > 0),
            r ==> final(self).buffer@ == removed(old(self).buffer@, old(self).caret - 1),
            r ==> final(self).caret == old(self).caret - 1,
            !r ==> final(self).buffer@ == old(self).buffer@ && final(self).caret == old(self).caret,
            r ==> reported(old(self).on_change, final(self).on_change, final(self).buffer@),
            !r ==> final(self).on_change == old(self).on_change,
            final(self).caret <= final(self).buffer@.len(),
    {
        if self.caret == 0 {
            return false;
        }
        let n = self.buffer.as_str().unicode_len();
        let k = self.caret - 1;
        let ghost before = self.buffer@;
        let mut next = String::from_str(self.buffer.as_str().substring_char(0, k));
        next.append(self.buffer.as_str().substring_char(k + 1, n));
        self.buffer = next;
        proof {
            assert(before.subrange(0, k as int) =~= before.take(k as int));
            assert(before.subrange(k + 1, n as int) =~= before.skip(k + 1));
        }
        self.caret = k;
        self.notify();
        true
    }

    /// Handle a raw key while the field is active; `true` when consumed.
    ///
    /// Characters and Space go through [`EditCore::try_insert`] (and are
    /// consumed even when refused), Backspace through
    /// [`EditCore::try_backspace`]; the arrows move the caret, clamped to
    /// `0..=char_count()`. Enter is left to the embedding widget.
    pub fn handle_key(&mut self, key: &Key) -> (r: bool)
        requires
            (key is Character || key is Space || key is ArrowRight) ==> old(self).caret
                < usize::MAX,
            key is Backspace ==> old(self).caret <= old(self).buffer@.len(),
        ensures
            r == (key is Character || key is Space || key is Backspace || key is ArrowLeft
                || key is ArrowRight),
            old(self).same_settings(*final(self)),
            !r ==> final(self).buffer@ == old(self).buffer@ && final(self).caret == old(self).caret,
            key is ArrowLeft ==> final(self).buffer@ == old(self).buffer@ && final(self).caret
                == if old(self).caret > 0 {
                old(self).caret - 1
            } else {
                0
            },
            key is ArrowRight ==> final(self).buffer@ == old(self).buffer@ && final(self).caret
                == clamp_index(old(self).caret + 1, old(self).buffer@.len() as int),
            key is Backspace ==> if old(self).caret > 0 {
                final(self).buffer@ == removed(old(self).buffer@, old(self).caret - 1)
                    && final(self).caret == old(self).caret - 1
            } else {
                final(self).buffer@ == old(self).buffer@ && final(self).caret == old(self).caret
            },
            *key matches Key::Character(c) ==> if old(self).insert_accepted(c) {
                &&& final(self).buffer@ == inserted(old(self).buffer@, old(self).caret_pos(), c)
                &&& final(self).caret == old(self).caret + 1
                &&& reported(old(self).on_change, final(self).on_change, final(self).buffer@)
            } else {
                &&& final(self).buffer@ == old(self).buffer@
                &&& final(self).caret == old(self).caret
                &&& final(self).on_change == old(self).on_change
            },
            key is Space ==> if old(self).insert_accepted(' ') {
                &&& final(self).buffer@ == inserted(old(self).buffer@, old(self).caret_pos(), ' ')
                &&& final(self).caret == old(self).caret + 1
                &&& reported(old(self).on_change, final(self).on_change, final(self).buffer@)
            } else {
                &&& final(self).buffer@ == old(self).buffer@
                &&& final(self).caret == old(self).caret
                &&& final(self).on_change == old(self).on_change
            },
            key is Backspace ==> if old(self).caret > 0 {
                reported(old(self).on_change, final(self).on_change, final(self).buffer@)
            } else {
                final(self).on_change == old(self).on_change
            },
            !(key is Character || key is Space || key is Backspace) ==> final(self).on_change == old(self).on_change,
            old(self).caret <= old(self).buffer@.len() ==> final(self).caret <= final(self).buffer@.len(),
    {
        match key {
            Key::Character(c) => {
                self.try_insert(*c);
                true
            },
            Key::Space => {
                self.try_insert(' ');
                true
            },
            Key::Backspace => {
                self.try_backspace();
                true
            },
            Key::ArrowLeft => {
                self.caret = if self.caret > 0 { self.caret - 1 } else { 0 };
                true
            },
            Key::ArrowRight => {
                let n = self.char_count();
                let next = self.caret + 1;
                self.caret = if next <= n { next } else { n };
                true
            },
            _ => false,
        }
    }

    /// The `(row, col)` of the caret in `'\n'`-split line space: row 0 is
    /// the first line, col 0 the start of a line.
    pub fn caret_row_col(&self) -> (r: (i32, i32))
        requires
            self.caret_pos() <= i32::MAX,
        ensures
            r.0 == newline_count(self.buffer@.take(self.caret_pos())),
            r.1 == trailing_line_len(self.buffer@.take(self.caret_pos())),
    {
        let s = self.buffer.as_str();
        let n = s.unicode_len();
        let k = if self.caret <= n { self.caret } else { n };
        let mut row: i32 = 0;
        let mut col: i32 = 0;
        let mut i: usize = 0;
        while i < k
            invariant
                s@ == self.buffer@,
                n == s@.len(),
                k == self.caret_pos(),
                k <= i32::MAX,
                i <= k,
                row == newline_count(s@.take(i as int)),
                col == trailing_line_len(s@.take(i as int)),
                0 <= row <= i,
                0 <= col <= i,
            decreases k - i,
        {
            let c = s.get_char(i);
            proof {
                assert(s@.take(i + 1).drop_last() =~= s@.take(i as int));
                assert(s@.take(i + 1).last() == c);
            }
            if c == '\n' {
                row = row + 1;
                col = 0;
            } else {
                col = col + 1;
            }
            i = i + 1;
        }
        (row, col)
    }
}

/// Backspace right after an accepted insertion gives back the text before it.
pub proof fn lemma_backspace_undoes_insert(s: Seq<char>, k: int, c: char)
    requires
        0 <= k <= s.len(),
    ensures
        removed(inserted(s, k, c), k) == s,
        inserted(s, k, c).len() == s.len() + 1,
        inserted(s, k, c)[k] == c,
{
    let t = inserted(s, k, c);
    assert(t.take(k) =~= s.take(k));
    assert(t.skip(k + 1) =~= s.skip(k));
    assert(s.take(k) + s.skip(k) =~= s);
}

} // verus!
