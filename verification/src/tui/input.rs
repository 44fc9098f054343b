//! A one-line text input with a cursor that sits at a byte offset between
//! characters, as in a `String`.
use vstd::prelude::*;
use crate::text::{
    byte_len, chars_of, char_index, index_of_offset, is_boundary, lemma_boundary_unique,
    lemma_byte_len_concat, lemma_byte_len_push, len_utf8, prefix_bytes, string_of, sub_text, utf8_len,
    utf8_width,
};

verus! {

/// The offset of the character before the cursor, if there is one.
pub open spec fn previous_boundary(s: Seq<char>, cursor: int) -> Option<nat> {
    let k = char_index(s, cursor);
    if k == 0 {
        None
    } else {
        Some(byte_len(s.take(k - 1)))
    }
}

/// The offset after the character at the cursor, or the end.
pub open spec fn next_boundary(s: Seq<char>, cursor: int) -> nat {
    let k = char_index(s, cursor);
    if k >= s.len() {
        byte_len(s)
    } else {
        byte_len(s.take(k + 1))
    }
}

proof fn lemma_char_index_of(s: Seq<char>, k: int)
    requires
        0 <= k <= s.len(),
    ensures
        is_boundary(s, byte_len(s.take(k)) as int),
        char_index(s, byte_len(s.take(k)) as int) == k,
{
    let b = byte_len(s.take(k)) as int;
    assert(is_boundary(s, b));
    let j = char_index(s, b);
    lemma_boundary_unique(s, j, k);
}

proof fn lemma_take_all_bytes(s: Seq<char>)
    ensures
        byte_len(s.take(s.len() as int)) == byte_len(s),
{
    assert(s.take(s.len() as int) =~= s);
}

pub fn previous_char_boundary(value: &str, cursor: usize) -> (r: Option<usize>)
    requires
        is_boundary(value@, cursor as int),
    ensures
        r matches Some(b) ==> previous_boundary(value@, cursor as int) == Some(b as nat),
        r is None ==> previous_boundary(value@, cursor as int) is None,
{
    let v = chars_of(value);
    let k = index_of_offset(&v, cursor);
    if k == 0 {
        None
    } else {
        proof {
            lemma_byte_len_concat(v@.take(k - 1), v@.skip(k - 1));
            assert(v@.take(k - 1) + v@.skip(k - 1) =~= v@.take(k as int) + v@.skip(k as int));
            lemma_byte_len_concat(v@.take(k as int), v@.skip(k as int));
            assert(v@.take(k as int) + v@.skip(k as int) =~= v@);
        }
        Some(prefix_bytes_below(&v, k - 1, cursor))
    }
}

/// The byte length of the first `k` characters, where a later prefix is
/// known to take `bound` bytes.
fn prefix_bytes_below(v: &Vec<char>, k: usize, bound: usize) -> (b: usize)
    requires
        k < v.len(),
        byte_len(v@.take(k + 1)) <= bound,
    ensures
        b == byte_len(v@.take(k as int)),
{
    let mut i: usize = 0;
    let mut acc: usize = 0;
    assert(v@.take(0) =~= Seq::<char>::empty());
    while i < k
        invariant
            i <= k < v.len(),
            byte_len(v@.take(k + 1)) <= bound,
            acc == byte_len(v@.take(i as int)),
        decreases k - i,
    {
        proof {
            lemma_byte_len_push(v@.take(i as int), v@[i as int]);
            assert(v@.take(i as int).push(v@[i as int]) =~= v@.take(i + 1));
            lemma_byte_len_concat(v@.take(i + 1), v@.subrange(i + 1, k + 1));
            assert(v@.take(i + 1) + v@.subrange(i + 1, k + 1) =~= v@.take(k + 1));
        }
        acc = acc + len_utf8(v[i]);
        i = i + 1;
    }
    acc
}

pub fn next_char_boundary(value: &str, cursor: usize) -> (r: usize)
    requires
        is_boundary(value@, cursor as int),
    ensures
        r == next_boundary(value@, cursor as int),
{
    // `str::len` gives the byte length as a `usize`, so it fits one.
    let _total = utf8_len(value);
    let v = chars_of(value);
    let k = index_of_offset(&v, cursor);
    if k >= v.len() {
        proof {
            lemma_take_all_bytes(v@);
        }
        cursor
    } else {
        proof {
            lemma_byte_len_push(v@.take(k as int), v@[k as int]);
            assert(v@.take(k as int).push(v@[k as int]) =~= v@.take(k + 1));
            lemma_byte_len_concat(v@.take(k + 1), v@.skip(k + 1));
            assert(v@.take(k + 1) + v@.skip(k + 1) =~= v@);
        }
        cursor + len_utf8(v[k])
    }
}

/// A text input as plain values: `caret` counts the characters before
/// the cursor, whose byte offset is `cursor`.
pub struct InputView {
    pub placeholder: Seq<char>,
    pub value: Seq<char>,
    pub cursor: nat,
    pub caret: int,
}

/// The cursor sits between characters, at the byte offset of the first
/// `caret` characters.
pub open spec fn input_ok(i: InputView) -> bool {
    &&& 0 <= i.caret <= i.value.len()
    &&& i.cursor == byte_len(i.value.take(i.caret))
    &&& byte_len(i.value) <= usize::MAX
}

/// An input whose value is `value`, with the cursor after `caret`
/// characters.
pub open spec fn input_at(placeholder: Seq<char>, value: Seq<char>, caret: int) -> InputView {
    InputView { placeholder, value, cursor: byte_len(value.take(caret)), caret }
}

/// What each editing key does to an input.
#[derive(Clone, Copy, Debug, PartialEq, Eq, Structural)]
pub enum InputEdit {
    Insert(char),
    Backspace,
    Delete,
    Left,
    Right,
    Home,
    End,
}

/// The input after an edit: insert at the cursor, delete before or at
/// it, or move it by one character or to either end.
pub open spec fn edited(i: InputView, e: InputEdit) -> InputView {
    let k = i.caret;
    let s = i.value;
    match e {
        InputEdit::Insert(c) => input_at(i.placeholder, s.take(k).push(c) + s.skip(k), k + 1),
        InputEdit::Backspace => if k > 0 {
            input_at(i.placeholder, s.take(k - 1) + s.skip(k), k - 1)
        } else {
            i
        },
        InputEdit::Delete => if k < s.len() {
            input_at(i.placeholder, s.take(k) + s.skip(k + 1), k)
        } else {
            i
        },
        InputEdit::Left => if k > 0 {
            input_at(i.placeholder, s, k - 1)
        } else {
            i
        },
        InputEdit::Right => if k < s.len() {
            input_at(i.placeholder, s, k + 1)
        } else {
            i
        },
        InputEdit::Home => input_at(i.placeholder, s, 0),
        InputEdit::End => input_at(i.placeholder, s, s.len() as int),
    }
}

pub struct TextInput {
    placeholder: &'static str,
    value: String,
    cursor: usize,
}

impl View for TextInput {
    type V = InputView;

    closed spec fn view(&self) -> InputView {
        InputView {
            placeholder: self.placeholder@,
            value: self.value@,
            cursor: self.cursor as nat,
            caret: char_index(self.value@, self.cursor as int),
        }
    }
}

impl TextInput {
    #[verifier::type_invariant]
    spec fn cursor_between_chars(self) -> bool {
        is_boundary(self.value@, self.cursor as int) && byte_len(self.value@) <= usize::MAX
    }

    /// The input is always well formed.
    pub fn check(&self)
        ensures
            input_ok(self@),
    {
        proof {
            use_type_invariant(self);
            let k = char_index(self.value@, self.cursor as int);
            assert(0 <= k <= self.value@.len() && byte_len(self.value@.take(k)) == self.cursor);
        }
    }

    pub fn new(placeholder: &'static str) -> (r: TextInput)
        ensures
            r@ == input_at(placeholder@, Seq::empty(), 0),
    {
        let value = String::new();
        proof {
            assert(Seq::<char>::empty().take(0) =~= Seq::<char>::empty());
            assert(byte_len(value@.take(0)) == 0);
            assert(byte_len(value@) == 0);
            lemma_char_index_of(Seq::<char>::empty(), 0);
        }
        TextInput { placeholder, value, cursor: 0 }
    }

    /// An input holding `value`, with the cursor at its end.
    pub fn with_value(placeholder: &'static str, value: String) -> (r: TextInput)
        ensures
            r@ == input_at(placeholder@, value@, value@.len() as int),
    {
        // `str::len` gives the byte length as a `usize`, so it fits one.
        let _total = utf8_len(value.as_str());
        let v = chars_of(value.as_str());
        proof {
            lemma_take_all_bytes(v@);
        }
        let cursor = prefix_bytes(&v, v.len());
        proof {
            lemma_char_index_of(v@, v@.len() as int);
        }
        TextInput { placeholder, value, cursor }
    }

    pub fn placeholder(&self) -> (r: &'static str)
        ensures
            r@ == self@.placeholder,
    {
        self.placeholder
    }

    pub fn value(&self) -> (r: &String)
        ensures
            r@ == self@.value,
    {
        &self.value
    }

    /// The cursor's byte offset.
    pub fn cursor(&self) -> (r: usize)
        ensures
            r == self@.cursor,
            input_ok(self@),
    {
        self.check();
        self.cursor
    }

    /// Builds the input for `value` with the cursor after `caret`
    /// characters.
    fn placed(placeholder: &'static str, v: Vec<char>, caret: usize) -> (r: TextInput)
        requires
            caret <= v.len(),
        ensures
            r@ == input_at(placeholder@, v@, caret as int),
    {
        let value = string_of(&v);
        // `str::len` gives the byte length as a `usize`, so it fits one.
        let _total = utf8_len(value.as_str());
        let cursor = prefix_bytes(&v, caret);
        proof {
            lemma_char_index_of(v@, caret as int);
        }
        TextInput { placeholder, value, cursor }
    }

    fn caret_chars(&self) -> (r: (Vec<char>, usize))
        ensures
            r.0@ == self@.value,
            r.1 == self@.caret,
            input_ok(self@),
            r.1 <= r.0.len(),
    {
        self.check();
        proof {
            use_type_invariant(self);
        }
        let v = chars_of(self.value.as_str());
        let k = index_of_offset(&v, self.cursor);
        (v, k)
    }

    /// The text before the cursor and the text after it, as the input is
    /// drawn around its caret.
    pub fn split_at_cursor(&self) -> (r: (String, String))
        ensures
            r.0@ == self@.value.take(self@.caret),
            r.1@ == self@.value.skip(self@.caret),
            r.0@ + r.1@ == self@.value,
    {
        let (v, k) = self.caret_chars();
        let before = sub_text(&v, 0, k);
        let after = sub_text(&v, k, v.len());
        proof {
            assert(before@ =~= self@.value.take(self@.caret));
            assert(after@ =~= self@.value.skip(self@.caret));
            assert(before@ + after@ =~= self@.value);
        }
        (before, after)
    }

    /// Applies an edit.
    pub fn apply(&mut self, e: InputEdit)
        requires
        ensures
            final(self)@ == edited(old(self)@, e),
    {
        let (v, k) = self.caret_chars();
        let ghost s = v@;
        let n = v.len();
        let next = match e {
            InputEdit::Insert(c) => {
                let mut w: Vec<char> = Vec::new();
                let mut i: usize = 0;
                while i < k
                    invariant
                        i <= k <= n,
                        n == v.len(),
                        s == v@,
                        w@ == s.take(i as int),
                    decreases k - i,
                {
                    w.push(v[i]);
                    assert(s.take(i + 1) =~= s.take(i as int).push(s[i as int]));
                    i = i + 1;
                }
                w.push(c);
                while i < n
                    invariant
                        k <= i <= n,
                        n == v.len(),
                        s == v@,
                        w@ == s.take(k as int).push(c) + s.subrange(k as int, i as int),
                    decreases n - i,
                {
                    w.push(v[i]);
                    assert(s.take(k as int).push(c) + s.subrange(k as int, i + 1) =~= (s.take(
                        k as int,
                    ).push(c) + s.subrange(k as int, i as int)).push(s[i as int]));
                    i = i + 1;
                }
                assert(w@ =~= s.take(k as int).push(c) + s.skip(k as int));
                proof {
                    lemma_byte_len_concat(s.take(k as int).push(c), s.skip(k as int));
                    lemma_byte_len_push(s.take(k as int), c);
                    lemma_byte_len_concat(s.take(k as int), s.skip(k as int));
                    assert(s.take(k as int) + s.skip(k as int) =~= s);
                }
                let m = w.len();
                assert(k < m);
                TextInput::placed(self.placeholder, w, k + 1)
            },
            InputEdit::Backspace => {
                if k == 0 {
                    return;
                }
                let w = without_at(&v, k - 1);
                proof {
                    lemma_without_shorter(s, k - 1);
                }
                TextInput::placed(self.placeholder, w, k - 1)
            },
            InputEdit::Delete => {
                if k >= n {
                    return;
                }
                let w = without_at(&v, k);
                proof {
                    lemma_without_shorter(s, k as int);
                }
                TextInput::placed(self.placeholder, w, k)
            },
            InputEdit::Left => {
                if k == 0 {
                    return;
                }
                TextInput::placed(self.placeholder, v, k - 1)
            },
            InputEdit::Right => {
                if k >= n {
                    return;
                }
                TextInput::placed(self.placeholder, v, k + 1)
            },
            InputEdit::Home => TextInput::placed(self.placeholder, v, 0),
            InputEdit::End => TextInput::placed(self.placeholder, v, n),
        };
        *self = next;
    }

    pub fn insert(&mut self, character: char)
        ensures
            final(self)@ == edited(old(self)@, InputEdit::Insert(character)),
    {
        self.apply(InputEdit::Insert(character));
    }

    pub fn backspace(&mut self)
        ensures
            final(self)@ == edited(old(self)@, InputEdit::Backspace),
    {
        self.apply(InputEdit::Backspace);
    }

    pub fn delete(&mut self)
        ensures
            final(self)@ == edited(old(self)@, InputEdit::Delete),
    {
        self.apply(InputEdit::Delete);
    }

    pub fn move_left(&mut self)
        ensures
            final(self)@ == edited(old(self)@, InputEdit::Left),
    {
        self.apply(InputEdit::Left);
    }

    pub fn move_right(&mut self)
        ensures
            final(self)@ == edited(old(self)@, InputEdit::Right),
    {
        self.apply(InputEdit::Right);
    }

    pub fn move_home(&mut self)
        ensures
            final(self)@ == edited(old(self)@, InputEdit::Home),
    {
        self.apply(InputEdit::Home);
    }

    pub fn move_end(&mut self)
        ensures
            final(self)@ == edited(old(self)@, InputEdit::End),
    {
        self.apply(InputEdit::End);
    }
}

proof fn lemma_without_shorter(s: Seq<char>, at: int)
    requires
        0 <= at < s.len(),
    ensures
        byte_len(s.take(at) + s.skip(at + 1)) <= byte_len(s),
{
    lemma_byte_len_concat(s.take(at), s.skip(at + 1));
    lemma_byte_len_concat(s.take(at + 1), s.skip(at + 1));
    assert(s.take(at + 1) + s.skip(at + 1) =~= s);
    lemma_byte_len_push(s.take(at), s[at]);
    assert(s.take(at).push(s[at]) =~= s.take(at + 1));
}

/// `v` without the character at `at`.
fn without_at(v: &Vec<char>, at: usize) -> (w: Vec<char>)
    requires
        at < v.len(),
    ensures
        w@ == v@.take(at as int) + v@.skip(at + 1),
{
    let mut w: Vec<char> = Vec::new();
    let mut i: usize = 0;
    while i < v.len()
        invariant
            at < v.len(),
            i <= v.len(),
            i <= at ==> w@ == v@.take(i as int),
            i > at ==> w@ == v@.take(at as int) + v@.subrange(at + 1, i as int),
        decreases v.len() - i,
    {
        if i != at {
            let ghost before = w@;
            w.push(v[i]);
            if i < at {
                assert(w@ =~= v@.take(i + 1));
            } else {
                assert(w@ =~= v@.take(at as int) + v@.subrange(at + 1, i + 1));
            }
        } else {
            assert(w@ =~= v@.take(at as int) + v@.subrange(at + 1, i + 1));
        }
        i = i + 1;
    }
    assert(v@.subrange(at + 1, v.len() as int) =~= v@.skip(at + 1));
    w
}

/// Backspace undoes a typed character: typing `c` and then erasing it
/// gives back the input as it was, value and cursor.
pub proof fn lemma_backspace_undoes_insert(i: InputView, c: char)
    requires
        input_ok(i),
    ensures
        edited(edited(i, InputEdit::Insert(c)), InputEdit::Backspace) == i,
{
    let k = i.caret;
    let s = i.value;
    let typed = s.take(k).push(c) + s.skip(k);
    assert(typed.take(k) =~= s.take(k));
    assert(typed.skip(k + 1) =~= s.skip(k));
    assert(typed.take(k) + typed.skip(k + 1) =~= s);
}

} // verus!
