//! The AFNS GUI command API for Flutter: a manager of windows, buttons,
//! text fields, list boxes and dialogs, driven by AFNS command lines such
//! as `create_window(id::string = "main", title::string = "Hi", ...)`.
//!
//! A command names its arguments by `name::type = value`; a string value is
//! the text between the first two double quotes after the `=`, a number is
//! the run of digits and minus signs right after it, and an array is the
//! comma-separated text between `[` and `]`.

use vstd::prelude::*;
use crate::text::{find_between, 
    append_int, chars_of, find_char, find_text, find_from, first_index_of, int_decimal,
    join_strings, join_with, lemma_first_index_of, parse_i32, parse_i32_text, skip_whitespace,
    drop_whitespace, string_of, trim_start_ws, trim_ws, trim_end_ws, views, decimal,
    append_decimal,
};

verus! {

/// The text after the first `=` that follows the first occurrence of
/// `pattern`, its leading whitespace taken off; None when either is missing.
pub open spec fn value_text(text: Seq<char>, pattern: Seq<char>) -> Option<Seq<char>> {
    let at = find_from(text, pattern, 0);
    if at < 0 {
        None
    } else {
        let eq = find_from(text, "="@, at);
        if eq < 0 {
            None
        } else {
            Some(trim_start_ws(text.subrange(eq + 1, text.len() as int)))
        }
    }
}

/// The message of an argument that a command does not hold.
pub open spec fn not_found(pattern: Seq<char>, text: Seq<char>) -> Seq<char> {
    "Could not find "@ + pattern + " in: "@ + text
}

/// The string argument `pattern` of a command: the text between the first
/// two double quotes of its value.
pub open spec fn string_value(text: Seq<char>, pattern: Seq<char>) -> Result<Seq<char>, Seq<char>> {
    match value_text(text, pattern) {
        None => Err(not_found(pattern, text)),
        Some(rem) => {
            let open = first_index_of(rem, '"');
            if open < 0 {
                Err(not_found(pattern, text))
            } else {
                let rest = rem.subrange(open + 1, rem.len() as int);
                let close = first_index_of(rest, '"');
                if close < 0 {
                    Err(not_found(pattern, text))
                } else {
                    Ok(rest.subrange(0, close))
                }
            }
        },
    }
}

/// The length of the run of digits and minus signs that starts text.
pub open spec fn number_run(s: Seq<char>) -> nat
    decreases s.len(),
{
    if s.len() > 0 && (('0' <= s[0] <= '9') || s[0] == '-') {
        1 + number_run(s.drop_first())
    } else {
        0
    }
}

/// The integer argument `pattern` of a command: the run of digits and
/// minus signs that starts its value, parsed as an `i32`.
pub open spec fn i32_value(text: Seq<char>, pattern: Seq<char>) -> Result<i32, Seq<char>> {
    match value_text(text, pattern) {
        None => Err(not_found(pattern, text)),
        Some(rem) => if number_run(rem) == 0 {
            Err(not_found(pattern, text))
        } else {
            parse_i32_text(rem.subrange(0, number_run(rem) as int))
        },
    }
}

/// Text with its double quotes taken out.
pub open spec fn unquoted(s: Seq<char>) -> Seq<char>
    decreases s.len(),
{
    if s.len() == 0 {
        s
    } else if s.last() == '"' {
        unquoted(s.drop_last())
    } else {
        unquoted(s.drop_last()).push(s.last())
    }
}

/// An array item as kept: trimmed, unquoted, and dropped when empty.
pub open spec fn kept(part: Seq<char>) -> Seq<Seq<char>> {
    let item = unquoted(trim_ws(part));
    if item.len() == 0 { Seq::empty() } else { seq![item] }
}

/// The items of an array's text, split at its commas.
pub open spec fn array_items(content: Seq<char>) -> Seq<Seq<char>>
    decreases content.len(),
{
    let comma = first_index_of(content, ',');
    if comma < 0 || comma >= content.len() {
        kept(content)
    } else {
        kept(content.subrange(0, comma)) + array_items(content.subrange(comma + 1, content.len() as int))
    }
}

/// The array argument `pattern` of a command: the items between the first
/// `[` of its value and the `]` after it.
pub open spec fn array_value(text: Seq<char>, pattern: Seq<char>) -> Result<Seq<Seq<char>>, Seq<char>> {
    match value_text(text, pattern) {
        None => Err(not_found(pattern, text)),
        Some(rem) => {
            let open = first_index_of(rem, '[');
            if open < 0 {
                Err(not_found(pattern, text))
            } else {
                let rest = rem.subrange(open + 1, rem.len() as int);
                let close = first_index_of(rest, ']');
                if close < 0 {
                    Err(not_found(pattern, text))
                } else {
                    Ok(array_items(rest.subrange(0, close)))
                }
            }
        },
    }
}

/// The message of an argument that a command does not hold.
fn not_found_message(pattern: &str, text: &str) -> (s: String)
    ensures
        s@ == not_found(pattern@, text@),
{
    let mut s = String::from_str("Could not find ");
    s.append(pattern);
    s.append(" in: ");
    s.append(text);
    s
}

/// Where the value of `pattern` starts in `c`, once leading whitespace is
/// skipped; None when the pattern or the `=` after it is missing.
fn value_start(c: &Vec<char>, pattern: &str) -> (r: Option<usize>)
    ensures
        match value_text(c@, pattern@) {
            None => r is None,
            Some(rem) => r matches Some(a) && a <= c@.len() && rem == c@.subrange(a as int, c@.len() as int),
        },
{
    let p = chars_of(pattern);
    let eq = chars_of("=");
    match find_text(c, &p, 0) {
        None => None,
        Some(at) => {
            proof {
                crate::text::lemma_find_from(c@, p@, 0);
            }
            match find_text(c, &eq, at) {
                None => None,
                Some(e) => {
                    proof {
                        crate::text::lemma_find_from(c@, eq@, at as int);
                        reveal_strlit("=");
                        assert(c@.len() == c.len());
                    }
                    Some(skip_whitespace(c, e + 1, c.len()))
                },
            }
        },
    }
}

/// The first position of `ch` in `c` from `from` on, with its relation to
/// the first index in the rest of the text.
fn find_after(c: &Vec<char>, from: usize, ch: char) -> (r: Option<usize>)
    requires
        from <= c@.len(),
    ensures
        match r {
            Some(i) => from <= i < c@.len() && first_index_of(c@.subrange(from as int, c@.len() as int), ch) == i - from,
            None => first_index_of(c@.subrange(from as int, c@.len() as int), ch) < 0,
        },
{
    proof {
        assert(c@.skip(from as int) =~= c@.subrange(from as int, c@.len() as int));
    }
    find_char(c, from, ch)
}

/// The string argument `pattern` of a command
pub fn extract_string_value(text: &str, pattern: &str) -> (r: Result<String, String>)
    ensures
        match string_value(text@, pattern@) {
            Ok(v) => r matches Ok(s) && s@ == v,
            Err(m) => r matches Err(e) && e@ == m,
        },
{
    let c = chars_of(text);
    let a = match value_start(&c, pattern) {
        Some(a) => a,
        None => return Err(not_found_message(pattern, text)),
    };
    let ghost rem = c@.subrange(a as int, c@.len() as int);
    let open = match find_after(&c, a, '"') {
        Some(i) => i,
        None => return Err(not_found_message(pattern, text)),
    };
    proof {
        assert(c@.len() == c.len());
        assert(rem.subrange(open - a + 1, rem.len() as int) =~= c@.subrange(open + 1, c@.len() as int));
    }
    let close = match find_after(&c, open + 1, '"') {
        Some(i) => i,
        None => return Err(not_found_message(pattern, text)),
    };
    proof {
        let rest = c@.subrange(open + 1, c@.len() as int);
        assert(rest.subrange(0, close - open - 1) =~= c@.subrange(open + 1, close as int));
    }
    Ok(string_of(&c, open + 1, close))
}

/// The integer argument `pattern` of a command
pub fn extract_i32_value(text: &str, pattern: &str) -> (r: Result<i32, String>)
    ensures
        match i32_value(text@, pattern@) {
            Ok(v) => r == Ok::<i32, String>(v),
            Err(m) => r matches Err(e) && e@ == m,
        },
{
    let c = chars_of(text);
    let a = match value_start(&c, pattern) {
        Some(a) => a,
        None => return Err(not_found_message(pattern, text)),
    };
    let ghost rem = c@.subrange(a as int, c@.len() as int);
    let mut end = a;
    while end < c.len() && (('0' <= c[end] && c[end] <= '9') || c[end] == '-')
        invariant
            a <= end <= c@.len() == c.len(),
            rem == c@.subrange(a as int, c@.len() as int),
            number_run(rem) == (end - a) + number_run(c@.subrange(end as int, c@.len() as int)),
        decreases c@.len() - end,
    {
        proof {
            assert(c@.subrange(end as int, c@.len() as int).drop_first() =~= c@.subrange(end + 1, c@.len() as int));
        }
        end = end + 1;
    }
    if end == a {
        return Err(not_found_message(pattern, text));
    }
    proof {
        assert(rem.subrange(0, end - a) =~= c@.subrange(a as int, end as int));
    }
    parse_i32(&c, a, end)
}


/// The item that `c[from..to]` holds, trimmed and unquoted, added to
/// `out` unless empty.
fn keep_item(out: &mut Vec<String>, c: &Vec<char>, from: usize, to: usize)
    requires
        from <= to <= c@.len(),
    ensures
        views(final(out)@) == views(old(out)@) + kept(c@.subrange(from as int, to as int)),
{
    let a = skip_whitespace(c, from, to);
    let b = drop_whitespace(c, a, to);
    let mut item = String::new();
    let mut i = a;
    proof {
        assert(c@.subrange(a as int, a as int) =~= Seq::<char>::empty());
    }
    while i < b
        invariant
            a <= i <= b <= c@.len(),
            item@ == unquoted(c@.subrange(a as int, i as int)),
        decreases b - i,
    {
        proof {
            assert(c@.subrange(a as int, i + 1).drop_last() =~= c@.subrange(a as int, i as int));
        }
        if c[i] != '"' {
            crate::text::push_char(&mut item, c[i]);
        }
        i = i + 1;
    }
    let ghost before = views(out@);
    if !item.as_str().is_empty() {
        let ghost text = item@;
        out.push(item);
        proof {
            assert(views(out@) =~= before + seq![text]);
        }
    } else {
        proof {
            assert(views(out@) =~= before + Seq::<Seq<char>>::empty());
        }
    }
}

/// The items of the array text `c[from..to]`
fn split_items(c: &Vec<char>, from: usize, to: usize) -> (v: Vec<String>)
    requires
        from <= to <= c@.len(),
    ensures
        views(v@) == array_items(c@.subrange(from as int, to as int)),
{
    let mut out: Vec<String> = Vec::new();
    let mut start = from;
    proof {
        assert(views(out@) =~= Seq::<Seq<char>>::empty());
    }
    loop
        invariant
            from <= start <= to <= c@.len(),
            array_items(c@.subrange(from as int, to as int)) == views(out@) + array_items(c@.subrange(start as int, to as int)),
        decreases to - start,
    {
        match find_between(c, start, to, ',') {
            None => {
                let ghost before = views(out@);
                keep_item(&mut out, c, start, to);
                return out;
            },
            Some(k) => {
                let ghost before = views(out@);
                proof {
                    let t = c@.subrange(start as int, to as int);
                    assert(t.subrange(0, k - start) =~= c@.subrange(start as int, k as int));
                    assert(t.subrange(k - start + 1, t.len() as int) =~= c@.subrange(k + 1, to as int));
                }
                keep_item(&mut out, c, start, k);
                proof {
                    let mid = kept(c@.subrange(start as int, k as int));
                    let tail = array_items(c@.subrange(k + 1, to as int));
                    assert(before + (mid + tail) =~= (before + mid) + tail);
                }
                start = k + 1;
            },
        }
    }
}

/// The array argument `pattern` of a command
pub fn extract_string_array(text: &str, pattern: &str) -> (r: Result<Vec<String>, String>)
    ensures
        match array_value(text@, pattern@) {
            Ok(items) => r matches Ok(v) && views(v@) == items,
            Err(m) => r matches Err(e) && e@ == m,
        },
{
    let c = chars_of(text);
    let a = match value_start(&c, pattern) {
        Some(a) => a,
        None => return Err(not_found_message(pattern, text)),
    };
    let ghost rem = c@.subrange(a as int, c@.len() as int);
    let open = match find_after(&c, a, '[') {
        Some(i) => i,
        None => return Err(not_found_message(pattern, text)),
    };
    proof {
        assert(c@.len() == c.len());
        assert(rem.subrange(open - a + 1, rem.len() as int) =~= c@.subrange(open + 1, c@.len() as int));
    }
    let close = match find_after(&c, open + 1, ']') {
        Some(i) => i,
        None => return Err(not_found_message(pattern, text)),
    };
    proof {
        let rest = c@.subrange(open + 1, c@.len() as int);
        assert(rest.subrange(0, close - open - 1) =~= c@.subrange(open + 1, close as int));
    }
    Ok(split_items(&c, open + 1, close))
}

/// A window.
#[derive(Debug, Clone)]
pub struct AFNSFlutterWindow {
    pub title: String,
    pub width: i32,
    pub height: i32,
    pub visible: bool,
}

/// A button.
#[derive(Debug, Clone)]
pub struct AFNSFlutterButton {
    pub text: String,
    pub x: i32,
    pub y: i32,
    pub width: i32,
    pub height: i32,
    pub enabled: bool,
}

/// A text field.
#[derive(Debug, Clone)]
pub struct AFNSFlutterTextField {
    pub placeholder: String,
    pub value: String,
    pub x: i32,
    pub y: i32,
    pub width: i32,
    pub focused: bool,
}

/// A list box.
#[derive(Debug, Clone)]
pub struct AFNSFlutterListBox {
    pub items: Vec<String>,
    pub x: i32,
    pub y: i32,
    pub width: i32,
    pub height: i32,
    pub selected_index: Option<usize>,
}

/// A dialog.
#[derive(Debug, Clone)]
pub struct AFNSFlutterDialog {
    pub title: String,
    pub message: String,
    pub modal: bool,
}

/// A window by its values.
pub struct WindowV {
    pub title: Seq<char>,
    pub width: i32,
    pub height: i32,
    pub visible: bool,
}

/// A button by its values.
pub struct ButtonV {
    pub text: Seq<char>,
    pub x: i32,
    pub y: i32,
    pub width: i32,
    pub height: i32,
    pub enabled: bool,
}

/// A text field by its values.
pub struct TextFieldV {
    pub placeholder: Seq<char>,
    pub value: Seq<char>,
    pub x: i32,
    pub y: i32,
    pub width: i32,
    pub focused: bool,
}

/// A list box by its values.
pub struct ListBoxV {
    pub items: Seq<Seq<char>>,
    pub x: i32,
    pub y: i32,
    pub width: i32,
    pub height: i32,
    pub selected_index: Option<usize>,
}

/// A dialog by its values.
pub struct DialogV {
    pub title: Seq<char>,
    pub message: Seq<char>,
    pub modal: bool,
}

impl View for AFNSFlutterWindow {
    type V = WindowV;

    open spec fn view(&self) -> WindowV {
        WindowV { title: self.title@, width: self.width, height: self.height, visible: self.visible }
    }
}

impl View for AFNSFlutterButton {
    type V = ButtonV;

    open spec fn view(&self) -> ButtonV {
        ButtonV {
            text: self.text@,
            x: self.x,
            y: self.y,
            width: self.width,
            height: self.height,
            enabled: self.enabled,
        }
    }
}

impl View for AFNSFlutterTextField {
    type V = TextFieldV;

    open spec fn view(&self) -> TextFieldV {
        TextFieldV {
            placeholder: self.placeholder@,
            value: self.value@,
            x: self.x,
            y: self.y,
            width: self.width,
            focused: self.focused,
        }
    }
}

impl View for AFNSFlutterListBox {
    type V = ListBoxV;

    open spec fn view(&self) -> ListBoxV {
        ListBoxV {
            items: views(self.items@),
            x: self.x,
            y: self.y,
            width: self.width,
            height: self.height,
            selected_index: self.selected_index,
        }
    }
}

impl View for AFNSFlutterDialog {
    type V = DialogV;

    open spec fn view(&self) -> DialogV {
        DialogV { title: self.title@, message: self.message@, modal: self.modal }
    }
}

/// The position of the entry with key `k`, the last if several, or -1.
pub open spec fn key_pos<V>(s: Seq<(Seq<char>, V)>, k: Seq<char>) -> int
    decreases s.len(),
{
    if s.len() == 0 {
        -1
    } else if s.last().0 == k {
        s.len() - 1
    } else {
        key_pos(s.drop_last(), k)
    }
}

/// The entries with `v` under key `k`: in place of the entry with that key,
/// or at the end when there is none (a map's insert, in insertion order).
pub open spec fn upsert<V>(s: Seq<(Seq<char>, V)>, k: Seq<char>, v: V) -> Seq<(Seq<char>, V)> {
    if key_pos(s, k) >= 0 {
        s.update(key_pos(s, k), (k, v))
    } else {
        s.push((k, v))
    }
}

proof fn lemma_key_pos<V>(s: Seq<(Seq<char>, V)>, k: Seq<char>)
    ensures
        -1 <= key_pos(s, k) < s.len(),
        key_pos(s, k) >= 0 ==> s[key_pos(s, k)].0 == k,
        forall|j: int| key_pos(s, k) < j < s.len() ==> s[j].0 != k,
    decreases s.len(),
{
    if s.len() > 0 && s.last().0 != k {
        lemma_key_pos(s.drop_last(), k);
        assert forall|j: int| key_pos(s, k) < j < s.len() implies s[j].0 != k by {
            if j < s.len() - 1 {
                assert(s[j] == s.drop_last()[j]);
            }
        }
    }
}

proof fn lemma_key_pos_at<V>(s: Seq<(Seq<char>, V)>, k: Seq<char>, j: int)
    requires
        -1 <= j < s.len(),
        j >= 0 ==> s[j].0 == k,
        forall|m: int| j < m < s.len() ==> (#[trigger] s[m]).0 != k,
    ensures
        key_pos(s, k) == j,
    decreases s.len(),
{
    if s.len() > 0 && j < s.len() - 1 {
        let p = s.drop_last();
        assert forall|m: int| j < m < p.len() implies (#[trigger] p[m]).0 != k by {
            assert(p[m] == s[m]);
        }
        lemma_key_pos_at(p, k, j);
    }
}

/// Components keyed by their ids, in the order the ids were first used.
pub struct Table<X> {
    entries: Vec<(String, X)>,
}

/// The entries of a table by their values.
pub open spec fn entry_values<X: View>(e: Seq<(String, X)>) -> Seq<(Seq<char>, X::V)> {
    e.map_values(|p: (String, X)| (p.0@, p.1@))
}

impl<X: View> View for Table<X> {
    type V = Seq<(Seq<char>, X::V)>;

    closed spec fn view(&self) -> Seq<(Seq<char>, X::V)> {
        entry_values(self.entries@)
    }
}

impl<X: View> Table<X> {
    /// An empty table
    pub fn new() -> (t: Self)
        ensures
            t@ == Seq::<(Seq<char>, X::V)>::empty(),
    {
        let t = Table { entries: Vec::new() };
        assert(t@ =~= Seq::<(Seq<char>, X::V)>::empty());
        t
    }

    /// The number of entries
    pub fn len(&self) -> (n: usize)
        ensures
            n == self@.len(),
    {
        self.entries.len()
    }

    /// Puts `x` under key `k`, in place of what the key held
    pub fn insert(&mut self, k: String, x: X)
        ensures
            final(self)@ == upsert(old(self)@, k@, x@),
    {
        let kc = chars_of(k.as_str());
        let mut i = self.entries.len();
        while i > 0
            invariant
                i <= self@.len(),
                self@ == old(self)@,
                self@.len() == self.entries@.len(),
                kc@ == k@,
                forall|j: int| i <= j < self@.len() ==> (#[trigger] self@[j]).0 != k@,
            decreases i,
        {
            let e = chars_of(self.entries[i - 1].0.as_str());
            if crate::text::chars_equal(&e, &kc) {
                proof {
                    assert(self@[i - 1].0 == k@);
                    lemma_key_pos_at(self@, k@, i - 1);
                }
                let ghost before = self@;
                let ghost xv = x@;
                self.entries.set(i - 1, (k, x));
                proof {
                    assert(self@ =~= before.update(i - 1, (kc@, xv)));
                }
                return;
            }
            i = i - 1;
        }
        proof {
            lemma_key_pos_at(self@, k@, -1);
        }
        let ghost before = self@;
        let ghost kv = k@;
        let ghost xv = x@;
        self.entries.push((k, x));
        proof {
            assert(self@ =~= before.push((kv, xv)));
        }
    }

    /// The value under key `k`
    pub fn get(&self, k: &str) -> (r: Option<&X>)
        ensures
            key_pos(self@, k@) >= 0 ==> (r matches Some(x) && x@ == self@[key_pos(self@, k@)].1),
            key_pos(self@, k@) < 0 ==> r is None,
    {
        let kc = chars_of(k);
        let mut i = self.entries.len();
        while i > 0
            invariant
                i <= self@.len(),
                self@.len() == self.entries@.len(),
                kc@ == k@,
                forall|j: int| i <= j < self@.len() ==> (#[trigger] self@[j]).0 != k@,
            decreases i,
        {
            let e = chars_of(self.entries[i - 1].0.as_str());
            if crate::text::chars_equal(&e, &kc) {
                proof {
                    assert(self@[i - 1].0 == k@);
                    lemma_key_pos_at(self@, k@, i - 1);
                }
                return Some(&self.entries[i - 1].1);
            }
            i = i - 1;
        }
        proof {
            lemma_key_pos_at(self@, k@, -1);
        }
        None
    }
}

/// A manager by its values.
pub struct ManagerV {
    pub windows: Seq<(Seq<char>, WindowV)>,
    pub buttons: Seq<(Seq<char>, ButtonV)>,
    pub text_fields: Seq<(Seq<char>, TextFieldV)>,
    pub list_boxes: Seq<(Seq<char>, ListBoxV)>,
    pub dialogs: Seq<DialogV>,
    pub ui_state: Seq<char>,
}

/// The reply to a window's creation.
pub open spec fn window_reply(id: Seq<char>, title: Seq<char>, width: i32, height: i32) -> Seq<char> {
    "FlutterWindow(id::string = \""@ + id + "\", title::string = \""@ + title + "\", width::i32 = "@
        + int_decimal(width as int) + ", height::i32 = "@ + int_decimal(height as int)
        + ", visible::bool = true)"@
}

/// The reply to a button's creation.
pub open spec fn button_reply(id: Seq<char>, text: Seq<char>, x: i32, y: i32) -> Seq<char> {
    "FlutterButton(id::string = \""@ + id + "\", text::string = \""@ + text + "\", x::i32 = "@
        + int_decimal(x as int) + ", y::i32 = "@ + int_decimal(y as int) + ", enabled::bool = true)"@
}

/// The reply to a text field's creation.
pub open spec fn text_field_reply(id: Seq<char>, placeholder: Seq<char>, x: i32, y: i32, width: i32) -> Seq<char> {
    "FlutterTextField(id::string = \""@ + id + "\", placeholder::string = \""@ + placeholder
        + "\", x::i32 = "@ + int_decimal(x as int) + ", y::i32 = "@ + int_decimal(y as int)
        + ", width::i32 = "@ + int_decimal(width as int) + ", focused::bool = false)"@
}

/// Items each in double quotes, separated by ", ".
pub open spec fn quoted_texts(items: Seq<Seq<char>>) -> Seq<char> {
    join_with(items.map_values(|t: Seq<char>| "\""@ + t + "\""@), ", "@)
}

/// The reply to a list box's creation.
pub open spec fn list_box_reply(
    id: Seq<char>,
    items: Seq<Seq<char>>,
    x: i32,
    y: i32,
    width: i32,
    height: i32,
) -> Seq<char> {
    "FlutterListBox(id::string = \""@ + id + "\", items::Array<string> = ["@ + quoted_texts(items)
        + "], x::i32 = "@ + int_decimal(x as int) + ", y::i32 = "@ + int_decimal(y as int)
        + ", width::i32 = "@ + int_decimal(width as int) + ", height::i32 = "@ + int_decimal(
        height as int,
    ) + ")"@
}

/// The reply to a dialog being shown.
pub open spec fn dialog_reply(title: Seq<char>, message: Seq<char>) -> Seq<char> {
    "FlutterDialog(title::string = \""@ + title + "\", message::string = \""@ + message
        + "\", modal::bool = true)"@
}

/// The manager with a window put under `id`.
pub open spec fn with_window(m: ManagerV, id: Seq<char>, title: Seq<char>, width: i32, height: i32) -> ManagerV {
    ManagerV {
        windows: upsert(m.windows, id, WindowV { title, width, height, visible: true }),
        buttons: m.buttons,
        text_fields: m.text_fields,
        list_boxes: m.list_boxes,
        dialogs: m.dialogs,
        ui_state: "Window created: "@ + id,
    }
}

/// The manager with a button put under `id`.
pub open spec fn with_button(m: ManagerV, id: Seq<char>, text: Seq<char>, x: i32, y: i32) -> ManagerV {
    ManagerV {
        windows: m.windows,
        buttons: upsert(m.buttons, id, ButtonV { text, x, y, width: 100, height: 40, enabled: true }),
        text_fields: m.text_fields,
        list_boxes: m.list_boxes,
        dialogs: m.dialogs,
        ui_state: "Button created: "@ + id,
    }
}

/// The manager with a text field put under `id`.
pub open spec fn with_text_field(m: ManagerV, id: Seq<char>, placeholder: Seq<char>, x: i32, y: i32, width: i32) -> ManagerV {
    ManagerV {
        windows: m.windows,
        buttons: m.buttons,
        text_fields: upsert(
            m.text_fields,
            id,
            TextFieldV { placeholder, value: Seq::empty(), x, y, width, focused: false },
        ),
        list_boxes: m.list_boxes,
        dialogs: m.dialogs,
        ui_state: "TextField created: "@ + id,
    }
}

/// The manager with a list box put under `id`.
pub open spec fn with_list_box(
    m: ManagerV,
    id: Seq<char>,
    items: Seq<Seq<char>>,
    x: i32,
    y: i32,
    width: i32,
    height: i32,
) -> ManagerV {
    ManagerV {
        windows: m.windows,
        buttons: m.buttons,
        text_fields: m.text_fields,
        list_boxes: upsert(m.list_boxes, id, ListBoxV { items, x, y, width, height, selected_index: None }),
        dialogs: m.dialogs,
        ui_state: "ListBox created: "@ + id,
    }
}

/// The manager with one more dialog shown.
pub open spec fn with_dialog(m: ManagerV, title: Seq<char>, message: Seq<char>) -> ManagerV {
    ManagerV {
        windows: m.windows,
        buttons: m.buttons,
        text_fields: m.text_fields,
        list_boxes: m.list_boxes,
        dialogs: m.dialogs.push(DialogV { title, message, modal: true }),
        ui_state: "Dialog shown: "@ + decimal(m.dialogs.len() + 1),
    }
}

/// The manager's status report.
pub open spec fn status_report(m: ManagerV) -> Seq<char> {
    "AFNS Flutter Manager Status:\n- Windows: "@ + decimal(m.windows.len()) + "\n- Buttons: "@
        + decimal(m.buttons.len()) + "\n- TextFields: "@ + decimal(m.text_fields.len())
        + "\n- ListBoxes: "@ + decimal(m.list_boxes.len()) + "\n- Dialogs: "@ + decimal(
        m.dialogs.len(),
    ) + "\n- UI State: "@ + m.ui_state
}

/// The manager's performance report.
pub open spec fn metrics_report(m: ManagerV) -> Seq<char> {
    "AFNS Flutter Performance:\n- Component Count: "@ + decimal(
        m.windows.len() + m.buttons.len() + m.text_fields.len() + m.list_boxes.len(),
    ) + "\n- Memory Usage: Optimized\n- Creation Time: < 5ms\n- Platform Support: Complete\n- Integration Speed: Native"@
}

/// The manager of AFNS GUI components.
pub struct AFNSFlutterManager {
    windows: Table<AFNSFlutterWindow>,
    buttons: Table<AFNSFlutterButton>,
    text_fields: Table<AFNSFlutterTextField>,
    list_boxes: Table<AFNSFlutterListBox>,
    dialogs: Vec<AFNSFlutterDialog>,
    ui_state: String,
}

impl View for AFNSFlutterManager {
    type V = ManagerV;

    closed spec fn view(&self) -> ManagerV {
        ManagerV {
            windows: self.windows@,
            buttons: self.buttons@,
            text_fields: self.text_fields@,
            list_boxes: self.list_boxes@,
            dialogs: self.dialogs@.map_values(|d: AFNSFlutterDialog| d@),
            ui_state: self.ui_state@,
        }
    }
}

/// A manager with no component, whose state says it is initialized.
pub open spec fn fresh_manager() -> ManagerV {
    ManagerV {
        windows: Seq::empty(),
        buttons: Seq::empty(),
        text_fields: Seq::empty(),
        list_boxes: Seq::empty(),
        dialogs: Seq::empty(),
        ui_state: "AFNS Flutter Manager Initialized"@,
    }
}

impl Default for AFNSFlutterManager {
    fn default() -> (m: Self)
        ensures
            m@ == fresh_manager(),
    {
        Self::new()
    }
}

impl AFNSFlutterManager {
    /// A manager with no component
    pub fn new() -> (m: Self)
        ensures
            m@ == fresh_manager(),
    {
        let m = AFNSFlutterManager {
            windows: Table::new(),
            buttons: Table::new(),
            text_fields: Table::new(),
            list_boxes: Table::new(),
            dialogs: Vec::new(),
            ui_state: String::from_str("AFNS Flutter Manager Initialized"),
        };
        assert(m@.dialogs =~= Seq::<DialogV>::empty());
        m
    }

    /// Creates (or replaces) the window `id`; its description
    pub fn create_window(&mut self, id: String, title: String, width: i32, height: i32) -> (r: Result<String, String>)
        ensures
            final(self)@ == with_window(old(self)@, id@, title@, width, height),
            r matches Ok(s) && s@ == window_reply(id@, title@, width, height),
    {
        let mut reply = String::from_str("FlutterWindow(id::string = \"");
        reply.append(id.as_str());
        reply.append("\", title::string = \"");
        reply.append(title.as_str());
        reply.append("\", width::i32 = ");
        append_int(&mut reply, width as i64);
        reply.append(", height::i32 = ");
        append_int(&mut reply, height as i64);
        reply.append(", visible::bool = true)");
        let mut state = String::from_str("Window created: ");
        state.append(id.as_str());
        let ghost before = self@;
        self.windows.insert(id, AFNSFlutterWindow { title, width, height, visible: true });
        self.ui_state = state;
        proof {
            assert(self@.dialogs == before.dialogs);
        }
        Ok(reply)
    }

    /// Creates (or replaces) the button `id`; its description
    pub fn create_button(&mut self, id: String, text: String, x: i32, y: i32) -> (r: Result<String, String>)
        ensures
            final(self)@ == with_button(old(self)@, id@, text@, x, y),
            r matches Ok(s) && s@ == button_reply(id@, text@, x, y),
    {
        let mut reply = String::from_str("FlutterButton(id::string = \"");
        reply.append(id.as_str());
        reply.append("\", text::string = \"");
        reply.append(text.as_str());
        reply.append("\", x::i32 = ");
        append_int(&mut reply, x as i64);
        reply.append(", y::i32 = ");
        append_int(&mut reply, y as i64);
        reply.append(", enabled::bool = true)");
        let mut state = String::from_str("Button created: ");
        state.append(id.as_str());
        let ghost before = self@;
        self.buttons.insert(id, AFNSFlutterButton { text, x, y, width: 100, height: 40, enabled: true });
        self.ui_state = state;
        proof {
            assert(self@.dialogs == before.dialogs);
        }
        Ok(reply)
    }

    /// Creates (or replaces) the text field `id`; its description
    pub fn create_text_field(&mut self, id: String, placeholder: String, x: i32, y: i32, width: i32) -> (r: Result<String, String>)
        ensures
            final(self)@ == with_text_field(old(self)@, id@, placeholder@, x, y, width),
            r matches Ok(s) && s@ == text_field_reply(id@, placeholder@, x, y, width),
    {
        let mut reply = String::from_str("FlutterTextField(id::string = \"");
        reply.append(id.as_str());
        reply.append("\", placeholder::string = \"");
        reply.append(placeholder.as_str());
        reply.append("\", x::i32 = ");
        append_int(&mut reply, x as i64);
        reply.append(", y::i32 = ");
        append_int(&mut reply, y as i64);
        reply.append(", width::i32 = ");
        append_int(&mut reply, width as i64);
        reply.append(", focused::bool = false)");
        let mut state = String::from_str("TextField created: ");
        state.append(id.as_str());
        let ghost before = self@;
        let value = String::new();
        self.text_fields.insert(id, AFNSFlutterTextField { placeholder, value, x, y, width, focused: false });
        self.ui_state = state;
        proof {
            assert(self@.dialogs == before.dialogs);
        }
        Ok(reply)
    }

    /// Creates (or replaces) the list box `id`; its description
    pub fn create_list_box(
        &mut self,
        id: String,
        items: Vec<String>,
        x: i32,
        y: i32,
        width: i32,
        height: i32,
    ) -> (r: Result<String, String>)
        ensures
            final(self)@ == with_list_box(old(self)@, id@, views(items@), x, y, width, height),
            r matches Ok(s) && s@ == list_box_reply(id@, views(items@), x, y, width, height),
    {
        let mut quoted: Vec<String> = Vec::new();
        let mut i: usize = 0;
        while i < items.len()
            invariant
                i <= items@.len(),
                views(quoted@) == views(items@).take(i as int).map_values(|t: Seq<char>| "\""@ + t + "\""@),
            decreases items@.len() - i,
        {
            let mut q = String::from_str("\"");
            q.append(items[i].as_str());
            q.append("\"");
            let ghost before = views(quoted@);
            quoted.push(q);
            proof {
                assert(views(quoted@) =~= before.push(q@));
                let t = views(items@).take(i + 1);
                assert(t.drop_last() =~= views(items@).take(i as int));
                assert(t[i as int] == items@[i as int]@);
                assert(views(quoted@) =~= t.map_values(|t: Seq<char>| "\""@ + t + "\""@));
            }
            i = i + 1;
        }
        proof {
            assert(views(items@).take(i as int) =~= views(items@));
        }
        let joined = join_strings(&quoted, ", ");
        let mut reply = String::from_str("FlutterListBox(id::string = \"");
        reply.append(id.as_str());
        reply.append("\", items::Array<string> = [");
        reply.append(joined.as_str());
        reply.append("], x::i32 = ");
        append_int(&mut reply, x as i64);
        reply.append(", y::i32 = ");
        append_int(&mut reply, y as i64);
        reply.append(", width::i32 = ");
        append_int(&mut reply, width as i64);
        reply.append(", height::i32 = ");
        append_int(&mut reply, height as i64);
        reply.append(")");
        let mut state = String::from_str("ListBox created: ");
        state.append(id.as_str());
        let ghost before = self@;
        self.list_boxes.insert(id, AFNSFlutterListBox { items, x, y, width, height, selected_index: None });
        self.ui_state = state;
        proof {
            assert(self@.dialogs == before.dialogs);
        }
        Ok(reply)
    }

    /// Shows a dialog; its description
    pub fn show_dialog(&mut self, title: String, message: String) -> (r: Result<String, String>)
        ensures
            final(self)@ == with_dialog(old(self)@, title@, message@),
            r matches Ok(s) && s@ == dialog_reply(title@, message@),
    {
        let mut reply = String::from_str("FlutterDialog(title::string = \"");
        reply.append(title.as_str());
        reply.append("\", message::string = \"");
        reply.append(message.as_str());
        reply.append("\", modal::bool = true)");
        let ghost before = self@;
        self.dialogs.push(AFNSFlutterDialog { title, message, modal: true });
        let mut state = String::from_str("Dialog shown: ");
        append_decimal(&mut state, self.dialogs.len() as u64);
        self.ui_state = state;
        proof {
            assert(self@.dialogs =~= before.dialogs.push(DialogV { title: title@, message: message@, modal: true }));
        }
        Ok(reply)
    }

    /// The status report
    pub fn get_status(&self) -> (s: String)
        ensures
            s@ == status_report(self@),
    {
        let mut s = String::from_str("AFNS Flutter Manager Status:\n- Windows: ");
        append_decimal(&mut s, self.windows.len() as u64);
        s.append("\n- Buttons: ");
        append_decimal(&mut s, self.buttons.len() as u64);
        s.append("\n- TextFields: ");
        append_decimal(&mut s, self.text_fields.len() as u64);
        s.append("\n- ListBoxes: ");
        append_decimal(&mut s, self.list_boxes.len() as u64);
        s.append("\n- Dialogs: ");
        append_decimal(&mut s, self.dialogs.len() as u64);
        s.append("\n- UI State: ");
        s.append(self.ui_state.as_str());
        s
    }

    /// The performance report
    pub fn get_performance_metrics(&self) -> (s: String)
        ensures
            s@ == metrics_report(self@),
    {
        let total: u128 = self.windows.len() as u128 + self.buttons.len() as u128
            + self.text_fields.len() as u128 + self.list_boxes.len() as u128;
        let mut s = String::from_str("AFNS Flutter Performance:\n- Component Count: ");
        crate::text::append_wide_decimal(&mut s, total);
        s.append("\n- Memory Usage: Optimized\n- Creation Time: < 5ms\n- Platform Support: Complete\n- Integration Speed: Native");
        s
    }
}

/// The arguments of a window command: id, title, width, height.
pub open spec fn window_args(cmd: Seq<char>) -> Result<(Seq<char>, Seq<char>, i32, i32), Seq<char>> {
    match string_value(cmd, "id::string"@) {
        Err(e) => Err(e),
        Ok(id) => match string_value(cmd, "title::string"@) {
            Err(e) => Err(e),
            Ok(title) => match i32_value(cmd, "width::i32"@) {
                Err(e) => Err(e),
                Ok(w) => match i32_value(cmd, "height::i32"@) {
                    Err(e) => Err(e),
                    Ok(h) => Ok((id, title, w, h)),
                },
            },
        },
    }
}

/// The arguments of a button command: id, text, x, y.
pub open spec fn button_args(cmd: Seq<char>) -> Result<(Seq<char>, Seq<char>, i32, i32), Seq<char>> {
    match string_value(cmd, "id::string"@) {
        Err(e) => Err(e),
        Ok(id) => match string_value(cmd, "text::string"@) {
            Err(e) => Err(e),
            Ok(text) => match i32_value(cmd, "x::i32"@) {
                Err(e) => Err(e),
                Ok(x) => match i32_value(cmd, "y::i32"@) {
                    Err(e) => Err(e),
                    Ok(y) => Ok((id, text, x, y)),
                },
            },
        },
    }
}

/// The arguments of a text field command: id, placeholder, x, y, width.
pub open spec fn text_field_args(cmd: Seq<char>) -> Result<(Seq<char>, Seq<char>, i32, i32, i32), Seq<char>> {
    match string_value(cmd, "id::string"@) {
        Err(e) => Err(e),
        Ok(id) => match string_value(cmd, "placeholder::string"@) {
            Err(e) => Err(e),
            Ok(p) => match i32_value(cmd, "x::i32"@) {
                Err(e) => Err(e),
                Ok(x) => match i32_value(cmd, "y::i32"@) {
                    Err(e) => Err(e),
                    Ok(y) => match i32_value(cmd, "width::i32"@) {
                        Err(e) => Err(e),
                        Ok(w) => Ok((id, p, x, y, w)),
                    },
                },
            },
        },
    }
}

/// The arguments of a list box command: id, items, x, y, width, height.
pub open spec fn list_box_args(cmd: Seq<char>) -> Result<(Seq<char>, Seq<Seq<char>>, i32, i32, i32, i32), Seq<char>> {
    match string_value(cmd, "id::string"@) {
        Err(e) => Err(e),
        Ok(id) => match array_value(cmd, "items::Array<string>"@) {
            Err(e) => Err(e),
            Ok(items) => match i32_value(cmd, "x::i32"@) {
                Err(e) => Err(e),
                Ok(x) => match i32_value(cmd, "y::i32"@) {
                    Err(e) => Err(e),
                    Ok(y) => match i32_value(cmd, "width::i32"@) {
                        Err(e) => Err(e),
                        Ok(w) => match i32_value(cmd, "height::i32"@) {
                            Err(e) => Err(e),
                            Ok(h) => Ok((id, items, x, y, w, h)),
                        },
                    },
                },
            },
        },
    }
}

/// The arguments of a dialog command: title, message.
pub open spec fn dialog_args(cmd: Seq<char>) -> Result<(Seq<char>, Seq<char>), Seq<char>> {
    match string_value(cmd, "title::string"@) {
        Err(e) => Err(e),
        Ok(title) => match string_value(cmd, "message::string"@) {
            Err(e) => Err(e),
            Ok(message) => Ok((title, message)),
        },
    }
}

/// What a command does to the manager, and its reply or error. A command
/// is recognised by the first of `create_window`, `create_button`,
/// `create_textfield`, `create_listbox` and `show_dialog` that it holds;
/// one holding none is acknowledged and changes nothing.
pub open spec fn command_outcome(m: ManagerV, cmd: Seq<char>) -> (ManagerV, Result<Seq<char>, Seq<char>>) {
    if crate::text::contains_text(cmd, "create_window"@) {
        match window_args(cmd) {
            Ok((id, title, w, h)) => (with_window(m, id, title, w, h), Ok(window_reply(id, title, w, h))),
            Err(e) => (m, Err(e)),
        }
    } else if crate::text::contains_text(cmd, "create_button"@) {
        match button_args(cmd) {
            Ok((id, text, x, y)) => (with_button(m, id, text, x, y), Ok(button_reply(id, text, x, y))),
            Err(e) => (m, Err(e)),
        }
    } else if crate::text::contains_text(cmd, "create_textfield"@) {
        match text_field_args(cmd) {
            Ok((id, p, x, y, w)) => (with_text_field(m, id, p, x, y, w), Ok(text_field_reply(id, p, x, y, w))),
            Err(e) => (m, Err(e)),
        }
    } else if crate::text::contains_text(cmd, "create_listbox"@) {
        match list_box_args(cmd) {
            Ok((id, items, x, y, w, h)) => (
                with_list_box(m, id, items, x, y, w, h),
                Ok(list_box_reply(id, items, x, y, w, h)),
            ),
            Err(e) => (m, Err(e)),
        }
    } else if crate::text::contains_text(cmd, "show_dialog"@) {
        match dialog_args(cmd) {
            Ok((title, message)) => (with_dialog(m, title, message), Ok(dialog_reply(title, message))),
            Err(e) => (m, Err(e)),
        }
    } else {
        (m, Ok("Command executed: "@ + cmd))
    }
}

/// A result by the texts it holds.
pub open spec fn result_text(r: Result<String, String>) -> Result<Seq<char>, Seq<char>> {
    match r {
        Ok(s) => Ok(s@),
        Err(e) => Err(e@),
    }
}

/// Whether `pattern` occurs in `text` (std's `str::contains`)
fn has_text(text: &str, pattern: &str) -> (b: bool)
    ensures
        b == crate::text::contains_text(text@, pattern@),
{
    let t = chars_of(text);
    let p = chars_of(pattern);
    find_text(&t, &p, 0).is_some()
}

struct ParsedWindowCommand {
    id: String,
    title: String,
    width: i32,
    height: i32,
}

struct ParsedButtonCommand {
    id: String,
    text: String,
    x: i32,
    y: i32,
}

struct ParsedTextFieldCommand {
    id: String,
    placeholder: String,
    x: i32,
    y: i32,
    width: i32,
}

struct ParsedListBoxCommand {
    id: String,
    items: Vec<String>,
    x: i32,
    y: i32,
    width: i32,
    height: i32,
}

struct ParsedDialogCommand {
    title: String,
    message: String,
}

impl AFNSFlutterManager {
    fn parse_create_window_command(&self, command: &str) -> (r: Result<ParsedWindowCommand, String>)
        ensures
            match window_args(command@) {
                Ok((id, title, w, h)) => r matches Ok(p) && p.id@ == id && p.title@ == title && p.width == w && p.height == h,
                Err(m) => r matches Err(e) && e@ == m,
            },
    {
        let id = match extract_string_value(command, "id::string") { Ok(v) => v, Err(e) => return Err(e) };
        let title = match extract_string_value(command, "title::string") { Ok(v) => v, Err(e) => return Err(e) };
        let width = match extract_i32_value(command, "width::i32") { Ok(v) => v, Err(e) => return Err(e) };
        let height = match extract_i32_value(command, "height::i32") { Ok(v) => v, Err(e) => return Err(e) };
        Ok(ParsedWindowCommand { id, title, width, height })
    }

    fn parse_create_button_command(&self, command: &str) -> (r: Result<ParsedButtonCommand, String>)
        ensures
            match button_args(command@) {
                Ok((id, text, x, y)) => r matches Ok(p) && p.id@ == id && p.text@ == text && p.x == x && p.y == y,
                Err(m) => r matches Err(e) && e@ == m,
            },
    {
        let id = match extract_string_value(command, "id::string") { Ok(v) => v, Err(e) => return Err(e) };
        let text = match extract_string_value(command, "text::string") { Ok(v) => v, Err(e) => return Err(e) };
        let x = match extract_i32_value(command, "x::i32") { Ok(v) => v, Err(e) => return Err(e) };
        let y = match extract_i32_value(command, "y::i32") { Ok(v) => v, Err(e) => return Err(e) };
        Ok(ParsedButtonCommand { id, text, x, y })
    }

    fn parse_create_textfield_command(&self, command: &str) -> (r: Result<ParsedTextFieldCommand, String>)
        ensures
            match text_field_args(command@) {
                Ok((id, pl, x, y, w)) => r matches Ok(p) && p.id@ == id && p.placeholder@ == pl && p.x == x && p.y == y && p.width == w,
                Err(m) => r matches Err(e) && e@ == m,
            },
    {
        let id = match extract_string_value(command, "id::string") { Ok(v) => v, Err(e) => return Err(e) };
        let placeholder = match extract_string_value(command, "placeholder::string") { Ok(v) => v, Err(e) => return Err(e) };
        let x = match extract_i32_value(command, "x::i32") { Ok(v) => v, Err(e) => return Err(e) };
        let y = match extract_i32_value(command, "y::i32") { Ok(v) => v, Err(e) => return Err(e) };
        let width = match extract_i32_value(command, "width::i32") { Ok(v) => v, Err(e) => return Err(e) };
        Ok(ParsedTextFieldCommand { id, placeholder, x, y, width })
    }

    fn parse_create_listbox_command(&self, command: &str) -> (r: Result<ParsedListBoxCommand, String>)
        ensures
            match list_box_args(command@) {
                Ok((id, items, x, y, w, h)) => r matches Ok(p) && p.id@ == id && views(p.items@) == items && p.x == x && p.y == y && p.width == w && p.height == h,
                Err(m) => r matches Err(e) && e@ == m,
            },
    {
        let id = match extract_string_value(command, "id::string") { Ok(v) => v, Err(e) => return Err(e) };
        let items = match extract_string_array(command, "items::Array<string>") { Ok(v) => v, Err(e) => return Err(e) };
        let x = match extract_i32_value(command, "x::i32") { Ok(v) => v, Err(e) => return Err(e) };
        let y = match extract_i32_value(command, "y::i32") { Ok(v) => v, Err(e) => return Err(e) };
        let width = match extract_i32_value(command, "width::i32") { Ok(v) => v, Err(e) => return Err(e) };
        let height = match extract_i32_value(command, "height::i32") { Ok(v) => v, Err(e) => return Err(e) };
        Ok(ParsedListBoxCommand { id, items, x, y, width, height })
    }

    fn parse_show_dialog_command(&self, command: &str) -> (r: Result<ParsedDialogCommand, String>)
        ensures
            match dialog_args(command@) {
                Ok((title, message)) => r matches Ok(p) && p.title@ == title && p.message@ == message,
                Err(m) => r matches Err(e) && e@ == m,
            },
    {
        let title = match extract_string_value(command, "title::string") { Ok(v) => v, Err(e) => return Err(e) };
        let message = match extract_string_value(command, "message::string") { Ok(v) => v, Err(e) => return Err(e) };
        Ok(ParsedDialogCommand { title, message })
    }

    /// Runs one AFNS GUI command; its reply or error
    pub fn execute_afns_command(&mut self, command: &str) -> (r: Result<String, String>)
        ensures
            (final(self)@, result_text(r)) == command_outcome(old(self)@, command@),
    {
        if has_text(command, "create_window") {
            let p = match self.parse_create_window_command(command) { Ok(p) => p, Err(e) => return Err(e) };
            return self.create_window(p.id, p.title, p.width, p.height);
        }
        if has_text(command, "create_button") {
            let p = match self.parse_create_button_command(command) { Ok(p) => p, Err(e) => return Err(e) };
            return self.create_button(p.id, p.text, p.x, p.y);
        }
        if has_text(command, "create_textfield") {
            let p = match self.parse_create_textfield_command(command) { Ok(p) => p, Err(e) => return Err(e) };
            return self.create_text_field(p.id, p.placeholder, p.x, p.y, p.width);
        }
        if has_text(command, "create_listbox") {
            let p = match self.parse_create_listbox_command(command) { Ok(p) => p, Err(e) => return Err(e) };
            return self.create_list_box(p.id, p.items, p.x, p.y, p.width, p.height);
        }
        if has_text(command, "show_dialog") {
            let p = match self.parse_show_dialog_command(command) { Ok(p) => p, Err(e) => return Err(e) };
            return self.show_dialog(p.title, p.message);
        }
        let mut reply = String::from_str("Command executed: ");
        reply.append(command);
        Ok(reply)
    }
}

/// The pieces of a text between its line feeds.
pub open spec fn lines_of(s: Seq<char>) -> Seq<Seq<char>>
    decreases s.len(),
{
    let i = first_index_of(s, '\n');
    if i < 0 || i >= s.len() {
        seq![s]
    } else {
        seq![s.subrange(0, i)] + lines_of(s.subrange(i + 1, s.len() as int))
    }
}

/// Whether a trimmed line is a command: not empty, and no `//` comment.
pub open spec fn is_command_line(l: Seq<char>) -> bool {
    l.len() > 0 && !(l.len() >= 2 && l[0] == '/' && l[1] == '/')
}

/// The report line of a command's outcome.
pub open spec fn result_line(r: Result<Seq<char>, Seq<char>>) -> Seq<char> {
    match r {
        Ok(s) => "✅ "@ + s,
        Err(e) => "❌ Error: "@ + e,
    }
}

/// The manager after running the command lines in order, with the report
/// line of each command.
pub open spec fn run_lines(m: ManagerV, lines: Seq<Seq<char>>) -> (ManagerV, Seq<Seq<char>>)
    decreases lines.len(),
{
    if lines.len() == 0 {
        (m, Seq::empty())
    } else {
        let (m1, out) = run_lines(m, lines.drop_last());
        let line = trim_ws(lines.last());
        if is_command_line(line) {
            let (m2, r) = command_outcome(m1, line);
            (m2, out.push(result_line(r)))
        } else {
            (m1, out)
        }
    }
}

/// The manager after a workflow, with its report: one line per command.
pub open spec fn workflow_outcome(m: ManagerV, code: Seq<char>) -> (ManagerV, Seq<char>) {
    let (m2, out) = run_lines(m, lines_of(code));
    (m2, join_with(out, "\n"@))
}

/// A manager behind the FFI.
pub struct AFNSFlutterFFI {
    manager: AFNSFlutterManager,
}

impl View for AFNSFlutterFFI {
    type V = ManagerV;

    closed spec fn view(&self) -> ManagerV {
        self.manager@
    }
}

impl AFNSFlutterFFI {
    /// A fresh manager
    pub fn new() -> (f: Self)
        ensures
            f@ == fresh_manager(),
    {
        AFNSFlutterFFI { manager: AFNSFlutterManager::new() }
    }

    /// Runs each command line of an AFNS GUI workflow; the report
    pub fn execute_workflow(&mut self, afns_code: &str) -> (s: String)
        ensures
            (final(self)@, s@) == workflow_outcome(old(self)@, afns_code@),
    {
        let c = chars_of(afns_code);
        let mut results: Vec<String> = Vec::new();
        let mut start: usize = 0;
        let ghost mut done: Seq<Seq<char>> = Seq::empty();
        proof {
            assert(c@.subrange(0, c@.len() as int) =~= c@);
            assert(done + lines_of(c@) =~= lines_of(c@));
            assert(views(results@) =~= Seq::<Seq<char>>::empty());
        }
        loop
            invariant
                start <= c@.len() == c.len(),
                c@ == afns_code@,
                lines_of(c@) == done + lines_of(c@.subrange(start as int, c@.len() as int)),
                (self@, views(results@)) == run_lines(old(self)@, done),
            decreases c@.len() - start,
        {
            let end = match find_after(&c, start, '\n') {
                Some(k) => k,
                None => c.len(),
            };
            let ghost rest = c@.subrange(start as int, c@.len() as int);
            let ghost piece = c@.subrange(start as int, end as int);
            proof {
                if end < c@.len() {
                    assert(rest.subrange(0, end - start) =~= piece);
                    assert(rest.subrange(end - start + 1, rest.len() as int) =~= c@.subrange(end + 1, c@.len() as int));
                    assert(lines_of(rest) == seq![piece] + lines_of(c@.subrange(end + 1, c@.len() as int)));
                } else {
                    assert(piece =~= rest);
                }
            }
            let a = skip_whitespace(&c, start, end);
            let b = drop_whitespace(&c, a, end);
            let line = string_of(&c, a, b);
            proof {
                assert(line@ == trim_ws(piece));
            }
            let ghost before = views(results@);
            if b > a && !(b - a >= 2 && c[a] == '/' && c[a + 1] == '/') {
                let outcome = self.manager.execute_afns_command(line.as_str());
                let report = match outcome {
                    Ok(reply) => {
                        let mut t = String::from_str("✅ ");
                        t.append(reply.as_str());
                        t
                    },
                    Err(err) => {
                        let mut t = String::from_str("❌ Error: ");
                        t.append(err.as_str());
                        t
                    },
                };
                let ghost rl = report@;
                results.push(report);
                proof {
                    assert(views(results@) =~= before.push(rl));
                }
            }
            proof {
                assert((done.push(piece)).drop_last() =~= done);
                done = done.push(piece);
            }
            if end == c.len() {
                proof {
                    assert(lines_of(rest) == seq![rest]);
                    assert(lines_of(c@) =~= done);
                }
                let report = join_strings(&results, "\n");
                return report;
            }
            proof {
                let tail = lines_of(c@.subrange(end + 1, c@.len() as int));
                assert(done.drop_last() + (seq![piece] + tail) =~= done + tail);
            }
            start = end + 1;
        }
    }

    /// The manager's status report
    pub fn get_manager_status(&self) -> (s: String)
        ensures
            s@ == status_report(self@),
    {
        self.manager.get_status()
    }

    /// The manager's performance report
    pub fn get_performance_metrics(&self) -> (s: String)
        ensures
            s@ == metrics_report(self@),
    {
        self.manager.get_performance_metrics()
    }
}

/// The message of a call made before the manager was initialized.
pub open spec fn not_initialized() -> Seq<char> {
    "AFNS Flutter Manager not initialized"@
}

/// Sets up the global manager: a fresh one in place of any other
pub fn initialize_afns_flutter(state: &mut Option<AFNSFlutterFFI>) -> (r: Result<(), String>)
    ensures
        r is Ok,
        *final(state) matches Some(f) && f@ == fresh_manager(),
{
    *state = Some(AFNSFlutterFFI::new());
    Ok(())
}

/// Runs a workflow on the global manager; an error when there is none
pub fn execute_afns_gui_global(state: &mut Option<AFNSFlutterFFI>, afns_code: &str) -> (r: Result<String, String>)
    ensures
        match *old(state) {
            None => *final(state) is None && (r matches Err(e) && e@ == not_initialized()),
            Some(f) => *final(state) matches Some(g) && (r matches Ok(s) && (g@, s@) == workflow_outcome(f@, afns_code@)),
        },
{
    match state {
        Some(manager) => Ok(manager.execute_workflow(afns_code)),
        None => Err(String::from_str("AFNS Flutter Manager not initialized")),
    }
}

/// The status report of the global manager; an error when there is none
pub fn get_afns_flutter_status(state: &Option<AFNSFlutterFFI>) -> (r: Result<String, String>)
    ensures
        match *state {
            None => r matches Err(e) && e@ == not_initialized(),
            Some(f) => r matches Ok(s) && s@ == status_report(f@),
        },
{
    match state {
        Some(manager) => Ok(manager.get_manager_status()),
        None => Err(String::from_str("AFNS Flutter Manager not initialized")),
    }
}

} // verus!
