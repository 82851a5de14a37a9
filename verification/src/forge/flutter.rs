//! Flutter GUI components for AFNS programs, a manager that keeps them by
//! id, and the AFNS source text that describes them.

use vstd::prelude::*;
use vstd::utf8::encode_utf8;
use crate::text::{utf8_len_at_most, concat3, join_lines, join_with_newlines, views, append_int, append_decimal, decimal, int_decimal, usize_to_string};
use crate::forge::registry::{Registry, key_index, keys_unique, lemma_key_index, lemma_key_index_unique};

verus! {

/// A window on screen.
#[derive(Debug, Clone)]
pub struct FlutterWindow {
    pub id: String,
    pub title: String,
    pub width: i32,
    pub height: i32,
    pub visible: bool,
}

/// A push button.
#[derive(Debug, Clone)]
pub struct FlutterButton {
    pub id: String,
    pub text: String,
    pub x: i32,
    pub y: i32,
    pub width: i32,
    pub height: i32,
    pub enabled: bool,
}

/// A one-line text input.
#[derive(Debug, Clone)]
pub struct FlutterTextField {
    pub id: String,
    pub placeholder: String,
    pub value: String,
    pub x: i32,
    pub y: i32,
    pub width: i32,
    pub max_length: usize,
}

/// A list of items of which one can be selected.
#[derive(Debug, Clone)]
pub struct FlutterListBox {
    pub id: String,
    pub items: Vec<String>,
    pub x: i32,
    pub y: i32,
    pub width: i32,
    pub height: i32,
    pub selected_index: Option<usize>,
}

/// A dialog with a title and a message.
#[derive(Debug, Clone)]
pub struct FlutterDialog {
    pub title: String,
    pub message: String,
    pub modal: bool,
}

/// The AFNS source of a window.
pub open spec fn window_code(w: FlutterWindow) -> Seq<char> {
    "FlutterWindow(id::string = \""@ + w.id@ + "\", title::string = \""@ + w.title@
        + "\", width::i32 = "@ + int_decimal(w.width as int) + ", height::i32 = "@ + int_decimal(
        w.height as int,
    ) + ", visible::bool = true)"@
}

/// The AFNS source of a button.
pub open spec fn button_code(b: FlutterButton) -> Seq<char> {
    "FlutterButton(id::string = \""@ + b.id@ + "\", text::string = \""@ + b.text@
        + "\", x::i32 = "@ + int_decimal(b.x as int) + ", y::i32 = "@ + int_decimal(b.y as int)
        + ", enabled::bool = true)"@
}

/// The AFNS source of a text field.
pub open spec fn text_field_code(t: FlutterTextField) -> Seq<char> {
    "FlutterTextField(id::string = \""@ + t.id@ + "\", placeholder::string = \""@
        + t.placeholder@ + "\", x::i32 = "@ + int_decimal(t.x as int) + ", y::i32 = "@
        + int_decimal(t.y as int) + ", width::i32 = "@ + int_decimal(t.width as int)
        + ", value::string = \""@ + t.value@ + "\")"@
}

/// Items in double quotes, separated by ", ".
pub open spec fn quoted_items(items: Seq<String>) -> Seq<char>
    decreases items.len(),
{
    if items.len() == 0 {
        Seq::empty()
    } else if items.len() == 1 {
        "\""@ + items[0]@ + "\""@
    } else {
        quoted_items(items.drop_last()) + ", "@ + "\""@ + items.last()@ + "\""@
    }
}

/// The AFNS source of a list box.
pub open spec fn list_box_code(l: FlutterListBox) -> Seq<char> {
    "FlutterListBox(id::string = \""@ + l.id@ + "\", items::Array<string> = ["@ + quoted_items(
        l.items@,
    ) + "], x::i32 = "@ + int_decimal(l.x as int) + ", y::i32 = "@ + int_decimal(l.y as int)
        + ", width::i32 = "@ + int_decimal(l.width as int) + ", height::i32 = "@ + int_decimal(
        l.height as int,
    ) + ", selected_index::i32 = "@ + match l.selected_index {
        Some(i) => decimal(i as nat),
        None => "null"@,
    } + ")"@
}

/// The AFNS source of a dialog.
pub open spec fn dialog_code(d: FlutterDialog) -> Seq<char> {
    "FlutterDialog(title::string = \""@ + d.title@ + "\", message::string = \""@ + d.message@
        + "\", modal::bool = true)"@
}

/// Appends the items, quoted and separated by ", ".
pub fn append_quoted_items(s: &mut String, items: &Vec<String>)
    ensures
        final(s)@ == old(s)@ + quoted_items(items@),
{
    let ghost base = s@;
    let mut i: usize = 0;
    while i < items.len()
        invariant
            i <= items@.len(),
            s@ == base + quoted_items(items@.take(i as int)),
        decreases items@.len() - i,
    {
        if i > 0 {
            s.append(", ");
        }
        s.append("\"");
        s.append(items[i].as_str());
        s.append("\"");
        proof {
            let t = items@.take(i + 1);
            assert(t.drop_last() =~= items@.take(i as int));
            if i == 0 {
                assert(items@.take(0) =~= Seq::<String>::empty());
            }
        }
        i = i + 1;
    }
    assert(items@.take(i as int) =~= items@);
}

impl FlutterWindow {
    /// A visible window
    pub fn new(id: String, title: String, width: i32, height: i32) -> (w: Self)
        ensures
            w == (FlutterWindow { id, title, width, height, visible: true }),
    {
        Self { id, title, width, height, visible: true }
    }

    /// Make the window visible
    pub fn show(&mut self)
        ensures
            *final(self) == (FlutterWindow { visible: true, ..*old(self) }),
    {
        self.visible = true;
    }

    /// Hide the window (`hide` in AFNS code)
    pub fn hide_window(&mut self)
        ensures
            *final(self) == (FlutterWindow { visible: false, ..*old(self) }),
    {
        self.visible = false;
    }

    /// Resize the window
    pub fn resize(&mut self, width: i32, height: i32)
        ensures
            *final(self) == (FlutterWindow { width, height, ..*old(self) }),
    {
        self.width = width;
        self.height = height;
    }

    /// The AFNS source of the window
    pub fn to_afns_code(&self) -> (s: String)
        ensures
            s@ == window_code(*self),
    {
        let mut s = String::from_str("FlutterWindow(id::string = \"");
        s.append(self.id.as_str());
        s.append("\", title::string = \"");
        s.append(self.title.as_str());
        s.append("\", width::i32 = ");
        append_int(&mut s, self.width as i64);
        s.append(", height::i32 = ");
        append_int(&mut s, self.height as i64);
        s.append(", visible::bool = true)");
        s
    }
}

impl FlutterButton {
    /// An enabled button of 100 by 40
    pub fn new(id: String, text: String, x: i32, y: i32) -> (b: Self)
        ensures
            b == (FlutterButton { id, text, x, y, width: 100, height: 40, enabled: true }),
    {
        Self { id, text, x, y, width: 100, height: 40, enabled: true }
    }

    /// Whether a click goes through (the button is enabled)
    pub fn click(&self) -> (b: bool)
        ensures
            b == self.enabled,
    {
        self.enabled
    }

    /// Enable the button
    pub fn enable(&mut self)
        ensures
            *final(self) == (FlutterButton { enabled: true, ..*old(self) }),
    {
        self.enabled = true;
    }

    /// Disable the button
    pub fn disable(&mut self)
        ensures
            *final(self) == (FlutterButton { enabled: false, ..*old(self) }),
    {
        self.enabled = false;
    }

    /// Change the button's text
    pub fn update_text(&mut self, new_text: String)
        ensures
            *final(self) == (FlutterButton { text: new_text, ..*old(self) }),
    {
        self.text = new_text;
    }

    /// The AFNS source of the button
    pub fn to_afns_code(&self) -> (s: String)
        ensures
            s@ == button_code(*self),
    {
        let mut s = String::from_str("FlutterButton(id::string = \"");
        s.append(self.id.as_str());
        s.append("\", text::string = \"");
        s.append(self.text.as_str());
        s.append("\", x::i32 = ");
        append_int(&mut s, self.x as i64);
        s.append(", y::i32 = ");
        append_int(&mut s, self.y as i64);
        s.append(", enabled::bool = true)");
        s
    }
}

impl FlutterTextField {
    /// An empty text field of at most 255 bytes
    pub fn new(id: String, placeholder: String, x: i32, y: i32, width: i32) -> (t: Self)
        ensures
            t.id == id && t.placeholder == placeholder && t.value@ == Seq::<char>::empty() && t.x
                == x && t.y == y && t.width == width && t.max_length == 255,
    {
        Self { id, placeholder, value: String::new(), x, y, width, max_length: 255 }
    }

    /// Set the value; one longer than `max_length` bytes is refused and
    /// the field stays as it was
    pub fn set_value(&mut self, value: String)
        ensures
            encode_utf8(value@).len() <= old(self).max_length ==> *final(self) == (FlutterTextField {
                value,
                ..*old(self)
            }),
            encode_utf8(value@).len() > old(self).max_length ==> *final(self) == *old(self),
    {
        if utf8_len_at_most(value.as_str(), self.max_length) {
            self.value = value;
        }
    }

    /// Get the value
    pub fn get_value(&self) -> (s: String)
        ensures
            s@ == self.value@,
    {
        self.value.clone()
    }

    /// Empty the value
    pub fn clear(&mut self)
        ensures
            final(self).value@ == Seq::<char>::empty(),
            final(self).id == old(self).id && final(self).placeholder == old(self).placeholder
                && final(self).x == old(self).x && final(self).y == old(self).y && final(self).width
                == old(self).width && final(self).max_length == old(self).max_length,
    {
        self.value = String::new();
    }

    /// The AFNS source of the text field
    pub fn to_afns_code(&self) -> (s: String)
        ensures
            s@ == text_field_code(*self),
    {
        let mut s = String::from_str("FlutterTextField(id::string = \"");
        s.append(self.id.as_str());
        s.append("\", placeholder::string = \"");
        s.append(self.placeholder.as_str());
        s.append("\", x::i32 = ");
        append_int(&mut s, self.x as i64);
        s.append(", y::i32 = ");
        append_int(&mut s, self.y as i64);
        s.append(", width::i32 = ");
        append_int(&mut s, self.width as i64);
        s.append(", value::string = \"");
        s.append(self.value.as_str());
        s.append("\")");
        s
    }
}

/// The selection after the item at `index` is removed: a selection at or
/// after it moves back by one (unless it is 0); a selection of 0 on the
/// removed item is dropped.
pub open spec fn selection_after_remove(selected: Option<usize>, index: usize) -> Option<usize> {
    match selected {
        Some(s) => if s >= index && s > 0 {
            Some((s - 1) as usize)
        } else if s == index {
            None
        } else {
            Some(s)
        },
        None => None,
    }
}

/// The message of an index outside a list.
pub open spec fn index_message(index: usize) -> Seq<char> {
    "Index "@ + decimal(index as nat) + " out of bounds"@
}

fn index_error(index: usize) -> (s: String)
    ensures
        s@ == index_message(index),
{
    let mut s = String::from_str("Index ");
    s.append(usize_to_string(index).as_str());
    s.append(" out of bounds");
    s
}

impl FlutterListBox {
    /// An empty list box with nothing selected
    pub fn new(id: String, x: i32, y: i32, width: i32, height: i32) -> (l: Self)
        ensures
            l.id == id && l.items@ == Seq::<String>::empty() && l.x == x && l.y == y && l.width
                == width && l.height == height && l.selected_index is None,
    {
        Self { id, items: Vec::new(), x, y, width, height, selected_index: None }
    }

    /// Add an item at the end
    pub fn add_item(&mut self, item: String)
        ensures
            final(self).x == old(self).x,
            final(self).y == old(self).y,
            final(self).width == old(self).width,
            final(self).height == old(self).height,
            final(self).items@ == old(self).items@.push(item),
            final(self).selected_index == old(self).selected_index,
            final(self).id == old(self).id,
    {
        self.items.push(item);
    }

    /// Remove the item at `index`, moving the selection with it
    pub fn remove_item_at(&mut self, index: usize) -> (r: Result<String, String>)
        ensures
            final(self).x == old(self).x,
            final(self).y == old(self).y,
            final(self).width == old(self).width,
            final(self).height == old(self).height,
            final(self).id == old(self).id,
            index < old(self).items@.len() ==> r == Ok::<String, String>(old(self).items@[index as int])
                && final(self).items@ == old(self).items@.remove(index as int)
                && final(self).selected_index == selection_after_remove(
                old(self).selected_index,
                index,
            ),
            index >= old(self).items@.len() ==> final(self).items@ == old(self).items@ && final(self).selected_index == old(self).selected_index && (r matches Err(e) && e@
                == index_message(index)),
    {
        if index < self.items.len() {
            let removed_item = self.items.remove(index);
            if let Some(selected) = self.selected_index {
                if selected >= index && selected > 0 {
                    self.selected_index = Some(selected - 1);
                } else if selected == index {
                    self.selected_index = None;
                }
            }
            Ok(removed_item)
        } else {
            Err(index_error(index))
        }
    }

    /// Select the item at `index`, giving back its text
    pub fn select_item(&mut self, index: usize) -> (r: Result<String, String>)
        ensures
            final(self).x == old(self).x,
            final(self).y == old(self).y,
            final(self).width == old(self).width,
            final(self).height == old(self).height,
            final(self).id == old(self).id,
            final(self).items@ == old(self).items@,
            index < old(self).items@.len() ==> (r matches Ok(t) && t@ == old(self).items@[index as int]@)
                && final(self).selected_index == Some(index),
            index >= old(self).items@.len() ==> final(self).selected_index == old(self).selected_index && (r matches Err(e) && e@ == index_message(index)),
    {
        if index < self.items.len() {
            self.selected_index = Some(index);
            Ok(self.items[index].clone())
        } else {
            Err(index_error(index))
        }
    }

    /// The selected item's text, if an item is selected
    pub fn get_selected_item(&self) -> (r: Option<String>)
        ensures
            match self.selected_index {
                Some(i) => if i < self.items@.len() {
                    r matches Some(t) && t@ == self.items@[i as int]@
                } else {
                    r is None
                },
                None => r is None,
            },
    {
        match self.selected_index {
            Some(index) => if index < self.items.len() {
                Some(self.items[index].clone())
            } else {
                None
            },
            None => None,
        }
    }

    /// The number of items
    pub fn get_item_count(&self) -> (n: usize)
        ensures
            n == self.items@.len(),
    {
        self.items.len()
    }

    /// The AFNS source of the list box
    pub fn to_afns_code(&self) -> (s: String)
        ensures
            s@ == list_box_code(*self),
    {
        let mut s = String::from_str("FlutterListBox(id::string = \"");
        s.append(self.id.as_str());
        s.append("\", items::Array<string> = [");
        append_quoted_items(&mut s, &self.items);
        s.append("], x::i32 = ");
        append_int(&mut s, self.x as i64);
        s.append(", y::i32 = ");
        append_int(&mut s, self.y as i64);
        s.append(", width::i32 = ");
        append_int(&mut s, self.width as i64);
        s.append(", height::i32 = ");
        append_int(&mut s, self.height as i64);
        s.append(", selected_index::i32 = ");
        match self.selected_index {
            Some(index) => append_decimal(&mut s, index as u64),
            None => s.append("null"),
        }
        s.append(")");
        s
    }
}

impl FlutterDialog {
    /// A modal dialog
    pub fn new(title: String, message: String) -> (d: Self)
        ensures
            d == (FlutterDialog { title, message, modal: true }),
    {
        Self { title, message, modal: true }
    }

    /// The AFNS source of the dialog
    pub fn to_afns_code(&self) -> (s: String)
        ensures
            s@ == dialog_code(*self),
    {
        let mut s = String::from_str("FlutterDialog(title::string = \"");
        s.append(self.title.as_str());
        s.append("\", message::string = \"");
        s.append(self.message.as_str());
        s.append("\", modal::bool = true)");
        s
    }
}


/// The AFNS source of each entry of a table, by `code`.
pub open spec fn codes<X>(s: Seq<(String, X)>, code: spec_fn(X) -> Seq<char>) -> Seq<Seq<char>> {
    s.map_values(|e: (String, X)| code(e.1))
}

/// Keeps the GUI components of a program by id, with the dialogs shown and
/// a line that tells what happened last.
pub struct AFNSFlutterManager {
    windows: Registry<FlutterWindow>,
    buttons: Registry<FlutterButton>,
    text_fields: Registry<FlutterTextField>,
    list_boxes: Registry<FlutterListBox>,
    active_dialogs: Vec<FlutterDialog>,
    ui_state: String,
}

impl AFNSFlutterManager {
    /// The windows, by id, in the order they were created.
    pub closed spec fn spec_windows(&self) -> Seq<(String, FlutterWindow)> {
        self.windows@
    }

    /// The buttons, by id, in the order they were created.
    pub closed spec fn spec_buttons(&self) -> Seq<(String, FlutterButton)> {
        self.buttons@
    }

    /// The text fields, by id, in the order they were created.
    pub closed spec fn spec_text_fields(&self) -> Seq<(String, FlutterTextField)> {
        self.text_fields@
    }

    /// The list boxes, by id, in the order they were created.
    pub closed spec fn spec_list_boxes(&self) -> Seq<(String, FlutterListBox)> {
        self.list_boxes@
    }

    /// The dialogs shown, oldest first.
    pub closed spec fn spec_dialogs(&self) -> Seq<FlutterDialog> {
        self.active_dialogs@
    }

    /// What happened last.
    pub closed spec fn spec_ui_state(&self) -> Seq<char> {
        self.ui_state@
    }

    /// Everything but the windows is as in `other`.
    pub open spec fn same_but_windows(&self, other: &Self) -> bool {
        &&& self.spec_buttons() == other.spec_buttons()
        &&& self.spec_text_fields() == other.spec_text_fields()
        &&& self.spec_list_boxes() == other.spec_list_boxes()
        &&& self.spec_dialogs() == other.spec_dialogs()
    }

    /// Everything but the buttons is as in `other`.
    pub open spec fn same_but_buttons(&self, other: &Self) -> bool {
        &&& self.spec_windows() == other.spec_windows()
        &&& self.spec_text_fields() == other.spec_text_fields()
        &&& self.spec_list_boxes() == other.spec_list_boxes()
        &&& self.spec_dialogs() == other.spec_dialogs()
    }

    /// Everything but the text fields is as in `other`.
    pub open spec fn same_but_text_fields(&self, other: &Self) -> bool {
        &&& self.spec_windows() == other.spec_windows()
        &&& self.spec_buttons() == other.spec_buttons()
        &&& self.spec_list_boxes() == other.spec_list_boxes()
        &&& self.spec_dialogs() == other.spec_dialogs()
    }

    /// Everything but the list boxes is as in `other`.
    pub open spec fn same_but_list_boxes(&self, other: &Self) -> bool {
        &&& self.spec_windows() == other.spec_windows()
        &&& self.spec_buttons() == other.spec_buttons()
        &&& self.spec_text_fields() == other.spec_text_fields()
        &&& self.spec_dialogs() == other.spec_dialogs()
    }

    /// The number of windows, buttons, text fields and list boxes.
    pub open spec fn component_count(&self) -> nat {
        self.spec_windows().len() + self.spec_buttons().len() + self.spec_text_fields().len()
            + self.spec_list_boxes().len()
    }

    /// An empty manager
    pub fn new() -> (m: Self)
        ensures
            m.spec_windows().len() == 0 && m.spec_buttons().len() == 0 && m.spec_text_fields().len()
                == 0 && m.spec_list_boxes().len() == 0 && m.spec_dialogs().len() == 0,
            m.spec_ui_state() == "AFNS Flutter Manager Initialized"@,
    {
        Self {
            windows: Registry::new(),
            buttons: Registry::new(),
            text_fields: Registry::new(),
            list_boxes: Registry::new(),
            active_dialogs: Vec::new(),
            ui_state: String::from_str("AFNS Flutter Manager Initialized"),
        }
    }

    /// Create a window; an id in use is refused
    pub fn create_window(&mut self, id: String, title: String, width: i32, height: i32) -> (r:
        Result<String, String>)
        ensures
            key_index(old(self).spec_windows(), id@) >= 0 ==> *final(self) == *old(self) && (r matches Err(
                e,
            ) && e@ == "Window with id '"@ + id@ + "' already exists"@),
            key_index(old(self).spec_windows(), id@) < 0 ==> final(self).spec_windows() == old(self).spec_windows().push((id, FlutterWindow { id, title, width, height, visible: true }))
                && final(self).same_but_windows(&*old(self)) && final(self).spec_ui_state()
                == "Window '"@ + id@ + "' created"@ && (r matches Ok(m) && m@ == "FlutterWindow '"@
                + id@ + "' created successfully"@),
    {
        if self.windows.find(id.as_str()).is_some() {
            return Err(concat3("Window with id '", id.as_str(), "' already exists"));
        }
        let window = FlutterWindow::new(id.clone(), title, width, height);
        let msg = concat3("FlutterWindow '", id.as_str(), "' created successfully");
        self.ui_state = concat3("Window '", id.as_str(), "' created");
        self.windows.push(id, window);
        Ok(msg)
    }

    /// The window with this id
    pub fn get_window(&self, id: &str) -> (r: Option<&FlutterWindow>)
        ensures
            match r {
                Some(w) => key_index(self.spec_windows(), id@) >= 0 && *w == self.spec_windows()[key_index(
                    self.spec_windows(),
                    id@,
                )].1,
                None => key_index(self.spec_windows(), id@) < 0,
            },
    {
        self.windows.get(id)
    }

    /// Remove the window with this id
    pub fn destroy_window(&mut self, id: &str) -> (r: Result<String, String>)
        ensures
            key_index(old(self).spec_windows(), id@) >= 0 ==> final(self).spec_windows() == old(self).spec_windows().remove(key_index(old(self).spec_windows(), id@)) && final(self).same_but_windows(&*old(self)) && final(self).spec_ui_state() == old(self).spec_ui_state()
                && (r matches Ok(m) && m@ == "Window '"@ + id@ + "' destroyed"@),
            key_index(old(self).spec_windows(), id@) < 0 ==> *final(self) == *old(self) && (r matches Err(
                e,
            ) && e@ == "Window '"@ + id@ + "' not found"@),
    {
        match self.windows.find(id) {
            Some(i) => {
                let _ = self.windows.take(i);
                Ok(concat3("Window '", id, "' destroyed"))
            },
            None => Err(concat3("Window '", id, "' not found")),
        }
    }

    /// Create a button; an id in use is refused
    pub fn create_button(&mut self, id: String, text: String, x: i32, y: i32) -> (r: Result<
        String,
        String,
    >)
        ensures
            key_index(old(self).spec_buttons(), id@) >= 0 ==> *final(self) == *old(self) && (r matches Err(
                e,
            ) && e@ == "Button with id '"@ + id@ + "' already exists"@),
            key_index(old(self).spec_buttons(), id@) < 0 ==> final(self).spec_buttons() == old(self).spec_buttons().push((id, FlutterButton { id, text, x, y, width: 100, height: 40, enabled: true })) && final(self).same_but_buttons(&*old(self)) && final(self).spec_ui_state() == "Button '"@ + id@
                + "' created"@ && (r matches Ok(m) && m@ == "FlutterButton '"@ + id@
                + "' created successfully"@),
    {
        if self.buttons.find(id.as_str()).is_some() {
            return Err(concat3("Button with id '", id.as_str(), "' already exists"));
        }
        let button = FlutterButton::new(id.clone(), text, x, y);
        let msg = concat3("FlutterButton '", id.as_str(), "' created successfully");
        self.ui_state = concat3("Button '", id.as_str(), "' created");
        self.buttons.push(id, button);
        Ok(msg)
    }

    /// Click the button with this id
    pub fn click_button(&mut self, id: &str) -> (r: Result<String, String>)
        ensures
            *final(self) == *old(self),
            key_index(old(self).spec_buttons(), id@) >= 0 ==> (r matches Ok(m) && m@ == "Button '"@
                + id@ + "' clicked"@),
            key_index(old(self).spec_buttons(), id@) < 0 ==> (r matches Err(e) && e@ == "Button '"@
                + id@ + "' not found"@),
    {
        match self.buttons.find(id) {
            Some(i) => {
                let _ = self.buttons.at(i).click();
                Ok(concat3("Button '", id, "' clicked"))
            },
            None => Err(concat3("Button '", id, "' not found")),
        }
    }

    /// The button with this id
    pub fn get_button(&self, id: &str) -> (r: Option<&FlutterButton>)
        ensures
            match r {
                Some(b) => key_index(self.spec_buttons(), id@) >= 0 && *b == self.spec_buttons()[key_index(
                    self.spec_buttons(),
                    id@,
                )].1,
                None => key_index(self.spec_buttons(), id@) < 0,
            },
    {
        self.buttons.get(id)
    }

    /// Remove the button with this id
    pub fn destroy_button(&mut self, id: &str) -> (r: Result<String, String>)
        ensures
            key_index(old(self).spec_buttons(), id@) >= 0 ==> final(self).spec_buttons() == old(self).spec_buttons().remove(key_index(old(self).spec_buttons(), id@)) && final(self).same_but_buttons(&*old(self)) && final(self).spec_ui_state() == old(self).spec_ui_state()
                && (r matches Ok(m) && m@ == "Button '"@ + id@ + "' destroyed"@),
            key_index(old(self).spec_buttons(), id@) < 0 ==> *final(self) == *old(self) && (r matches Err(
                e,
            ) && e@ == "Button '"@ + id@ + "' not found"@),
    {
        match self.buttons.find(id) {
            Some(i) => {
                let _ = self.buttons.take(i);
                Ok(concat3("Button '", id, "' destroyed"))
            },
            None => Err(concat3("Button '", id, "' not found")),
        }
    }

    /// Create a text field; an id in use is refused
    pub fn create_text_field(&mut self, id: String, placeholder: String, x: i32, y: i32, width: i32) -> (r:
        Result<String, String>)
        ensures
            key_index(old(self).spec_text_fields(), id@) >= 0 ==> *final(self) == *old(self) && (r matches Err(
                e,
            ) && e@ == "TextField with id '"@ + id@ + "' already exists"@),
            key_index(old(self).spec_text_fields(), id@) < 0 ==> final(self).spec_text_fields().len()
                == old(self).spec_text_fields().len() + 1 && final(self).spec_text_fields().drop_last()
                == old(self).spec_text_fields() && final(self).spec_text_fields().last().0 == id && ({
                let t = final(self).spec_text_fields().last().1;
                t.id == id && t.placeholder == placeholder && t.value@ == Seq::<char>::empty() && t.x
                    == x && t.y == y && t.width == width && t.max_length == 255
            }) && final(self).same_but_text_fields(&*old(self)) && final(self).spec_ui_state()
                == "TextField '"@ + id@ + "' created"@ && (r matches Ok(m) && m@
                == "FlutterTextField '"@ + id@ + "' created successfully"@),
    {
        if self.text_fields.find(id.as_str()).is_some() {
            return Err(concat3("TextField with id '", id.as_str(), "' already exists"));
        }
        let field = FlutterTextField::new(id.clone(), placeholder, x, y, width);
        let msg = concat3("FlutterTextField '", id.as_str(), "' created successfully");
        self.ui_state = concat3("TextField '", id.as_str(), "' created");
        self.text_fields.push(id, field);
        proof {
            assert(self.text_fields@.drop_last() =~= old(self).text_fields@);
        }
        Ok(msg)
    }

    /// Set the value of the text field with this id (a value over its
    /// length limit leaves the field as it was)
    pub fn set_text_field_value(&mut self, id: &str, value: String) -> (r: Result<String, String>)
        ensures
            final(self).same_but_text_fields(&*old(self)),
            final(self).spec_ui_state() == old(self).spec_ui_state(),
            key_index(old(self).spec_text_fields(), id@) >= 0 ==> ({
                let i = key_index(old(self).spec_text_fields(), id@);
                let t = old(self).spec_text_fields()[i].1;
                &&& final(self).spec_text_fields() == old(self).spec_text_fields().update(
                    i,
                    (
                        old(self).spec_text_fields()[i].0,
                        if encode_utf8(value@).len() <= t.max_length {
                            FlutterTextField { value, ..t }
                        } else {
                            t
                        },
                    ),
                )
                &&& r matches Ok(m) && m@ == "TextField '"@ + id@ + "' value updated"@
            }),
            key_index(old(self).spec_text_fields(), id@) < 0 ==> *final(self) == *old(self) && (r matches Err(
                e,
            ) && e@ == "TextField '"@ + id@ + "' not found"@),
    {
        match self.text_fields.find(id) {
            Some(i) => {
                let (k, mut field) = self.text_fields.take(i);
                field.set_value(value);
                self.text_fields.put(i, (k, field));
                proof {
                    let i = i as int;
                    assert(self.text_fields@ =~= old(self).text_fields@.update(i, self.text_fields@[i]));
                }
                Ok(concat3("TextField '", id, "' value updated"))
            },
            None => Err(concat3("TextField '", id, "' not found")),
        }
    }

    /// The value of the text field with this id
    pub fn get_text_field_value(&self, id: &str) -> (r: Result<String, String>)
        ensures
            key_index(self.spec_text_fields(), id@) >= 0 ==> (r matches Ok(v) && v@
                == self.spec_text_fields()[key_index(self.spec_text_fields(), id@)].1.value@),
            key_index(self.spec_text_fields(), id@) < 0 ==> (r matches Err(e) && e@ == "TextField '"@
                + id@ + "' not found"@),
    {
        match self.text_fields.get(id) {
            Some(field) => Ok(field.get_value()),
            None => Err(concat3("TextField '", id, "' not found")),
        }
    }

    /// Focus the text field with this id
    pub fn focus_text_field(&self, id: &str) -> (r: Result<String, String>)
        ensures
            key_index(self.spec_text_fields(), id@) >= 0 ==> (r matches Ok(m) && m@ == "TextField '"@
                + id@ + "' focused"@),
            key_index(self.spec_text_fields(), id@) < 0 ==> (r matches Err(e) && e@ == "TextField '"@
                + id@ + "' not found"@),
    {
        match self.text_fields.get(id) {
            Some(_) => Ok(concat3("TextField '", id, "' focused")),
            None => Err(concat3("TextField '", id, "' not found")),
        }
    }

    /// Remove the text field with this id
    pub fn destroy_text_field(&mut self, id: &str) -> (r: Result<String, String>)
        ensures
            key_index(old(self).spec_text_fields(), id@) >= 0 ==> final(self).spec_text_fields()
                == old(self).spec_text_fields().remove(key_index(old(self).spec_text_fields(), id@))
                && final(self).same_but_text_fields(&*old(self)) && final(self).spec_ui_state() == old(self).spec_ui_state() && (r matches Ok(m) && m@ == "TextField '"@ + id@ + "' destroyed"@),
            key_index(old(self).spec_text_fields(), id@) < 0 ==> *final(self) == *old(self) && (r matches Err(
                e,
            ) && e@ == "TextField '"@ + id@ + "' not found"@),
    {
        match self.text_fields.find(id) {
            Some(i) => {
                let _ = self.text_fields.take(i);
                Ok(concat3("TextField '", id, "' destroyed"))
            },
            None => Err(concat3("TextField '", id, "' not found")),
        }
    }

    /// Create a list box; an id in use is refused
    pub fn create_list_box(&mut self, id: String, x: i32, y: i32, width: i32, height: i32) -> (r:
        Result<String, String>)
        ensures
            key_index(old(self).spec_list_boxes(), id@) >= 0 ==> *final(self) == *old(self) && (r matches Err(
                e,
            ) && e@ == "ListBox with id '"@ + id@ + "' already exists"@),
            key_index(old(self).spec_list_boxes(), id@) < 0 ==> final(self).spec_list_boxes().len()
                == old(self).spec_list_boxes().len() + 1 && final(self).spec_list_boxes().drop_last()
                == old(self).spec_list_boxes() && final(self).spec_list_boxes().last().0 == id && ({
                let l = final(self).spec_list_boxes().last().1;
                l.id == id && l.items@ == Seq::<String>::empty() && l.x == x && l.y == y && l.width
                    == width && l.height == height && l.selected_index is None
            }) && final(self).same_but_list_boxes(&*old(self)) && final(self).spec_ui_state()
                == "ListBox '"@ + id@ + "' created"@ && (r matches Ok(m) && m@
                == "FlutterListBox '"@ + id@ + "' created successfully"@),
    {
        if self.list_boxes.find(id.as_str()).is_some() {
            return Err(concat3("ListBox with id '", id.as_str(), "' already exists"));
        }
        let list_box = FlutterListBox::new(id.clone(), x, y, width, height);
        let msg = concat3("FlutterListBox '", id.as_str(), "' created successfully");
        self.ui_state = concat3("ListBox '", id.as_str(), "' created");
        self.list_boxes.push(id, list_box);
        proof {
            assert(self.list_boxes@.drop_last() =~= old(self).list_boxes@);
        }
        Ok(msg)
    }

    /// Add an item to the list box with this id
    pub fn add_list_box_item(&mut self, id: &str, item: String) -> (r: Result<String, String>)
        ensures
            final(self).same_but_list_boxes(&*old(self)),
            final(self).spec_ui_state() == old(self).spec_ui_state(),
            key_index(old(self).spec_list_boxes(), id@) >= 0 ==> ({
                let i = key_index(old(self).spec_list_boxes(), id@);
                let l = old(self).spec_list_boxes()[i].1;
                let n = final(self).spec_list_boxes()[i].1;
                &&& final(self).spec_list_boxes().len() == old(self).spec_list_boxes().len()
                &&& forall|j: int|
                    0 <= j < old(self).spec_list_boxes().len() && j != i ==> final(self).spec_list_boxes()[j] == old(self).spec_list_boxes()[j]
                &&& final(self).spec_list_boxes()[i].0 == old(self).spec_list_boxes()[i].0
                &&& n.items@ == l.items@.push(item) && n.selected_index == l.selected_index && n.id
                    == l.id
                &&& r matches Ok(m) && m@ == "Item added to ListBox '"@ + id@ + "'"@
            }),
            key_index(old(self).spec_list_boxes(), id@) < 0 ==> *final(self) == *old(self) && (r matches Err(
                e,
            ) && e@ == "ListBox '"@ + id@ + "' not found"@),
    {
        match self.list_boxes.find(id) {
            Some(i) => {
                let (k, mut list_box) = self.list_boxes.take(i);
                list_box.add_item(item);
                self.list_boxes.put(i, (k, list_box));
                Ok(concat3("Item added to ListBox '", id, "'"))
            },
            None => Err(concat3("ListBox '", id, "' not found")),
        }
    }

    /// Select an item of the list box with this id
    pub fn select_list_box_item(&mut self, id: &str, index: usize) -> (r: Result<String, String>)
        ensures
            final(self).same_but_list_boxes(&*old(self)),
            final(self).spec_ui_state() == old(self).spec_ui_state(),
            key_index(old(self).spec_list_boxes(), id@) >= 0 ==> ({
                let i = key_index(old(self).spec_list_boxes(), id@);
                let l = old(self).spec_list_boxes()[i].1;
                let n = final(self).spec_list_boxes()[i].1;
                &&& final(self).spec_list_boxes().len() == old(self).spec_list_boxes().len()
                &&& forall|j: int|
                    0 <= j < old(self).spec_list_boxes().len() && j != i ==> final(self).spec_list_boxes()[j] == old(self).spec_list_boxes()[j]
                &&& final(self).spec_list_boxes()[i].0 == old(self).spec_list_boxes()[i].0
                &&& n.items@ == l.items@ && n.id == l.id
                &&& index < l.items@.len() ==> n.selected_index == Some(index) && (r matches Ok(
                    t,
                ) && t@ == l.items@[index as int]@)
                &&& index >= l.items@.len() ==> n.selected_index == l.selected_index && (r matches Err(
                    e,
                ) && e@ == index_message(index))
            }),
            key_index(old(self).spec_list_boxes(), id@) < 0 ==> *final(self) == *old(self) && (r matches Err(
                e,
            ) && e@ == "ListBox '"@ + id@ + "' not found"@),
    {
        match self.list_boxes.find(id) {
            Some(i) => {
                let (k, mut list_box) = self.list_boxes.take(i);
                let r = list_box.select_item(index);
                self.list_boxes.put(i, (k, list_box));
                r
            },
            None => Err(concat3("ListBox '", id, "' not found")),
        }
    }

    /// The selected item of the list box with this id
    pub fn get_list_box_selection(&self, id: &str) -> (r: Result<Option<String>, String>)
        ensures
            key_index(self.spec_list_boxes(), id@) >= 0 ==> ({
                let l = self.spec_list_boxes()[key_index(self.spec_list_boxes(), id@)].1;
                r matches Ok(sel) && match l.selected_index {
                    Some(k) => if k < l.items@.len() {
                        sel matches Some(t) && t@ == l.items@[k as int]@
                    } else {
                        sel is None
                    },
                    None => sel is None,
                }
            }),
            key_index(self.spec_list_boxes(), id@) < 0 ==> (r matches Err(e) && e@ == "ListBox '"@
                + id@ + "' not found"@),
    {
        match self.list_boxes.get(id) {
            Some(list_box) => Ok(list_box.get_selected_item()),
            None => Err(concat3("ListBox '", id, "' not found")),
        }
    }

    /// Remove the list box with this id
    pub fn destroy_list_box(&mut self, id: &str) -> (r: Result<String, String>)
        ensures
            key_index(old(self).spec_list_boxes(), id@) >= 0 ==> final(self).spec_list_boxes()
                == old(self).spec_list_boxes().remove(key_index(old(self).spec_list_boxes(), id@))
                && final(self).same_but_list_boxes(&*old(self)) && final(self).spec_ui_state() == old(self).spec_ui_state() && (r matches Ok(m) && m@ == "ListBox '"@ + id@ + "' destroyed"@),
            key_index(old(self).spec_list_boxes(), id@) < 0 ==> *final(self) == *old(self) && (r matches Err(
                e,
            ) && e@ == "ListBox '"@ + id@ + "' not found"@),
    {
        match self.list_boxes.find(id) {
            Some(i) => {
                let _ = self.list_boxes.take(i);
                Ok(concat3("ListBox '", id, "' destroyed"))
            },
            None => Err(concat3("ListBox '", id, "' not found")),
        }
    }

    /// Show a dialog
    pub fn show_dialog(&mut self, title: String, message: String) -> (r: Result<String, String>)
        ensures
            final(self).spec_dialogs() == old(self).spec_dialogs().push(
                FlutterDialog { title, message, modal: true },
            ),
            final(self).spec_windows() == old(self).spec_windows(),
            final(self).spec_buttons() == old(self).spec_buttons(),
            final(self).spec_text_fields() == old(self).spec_text_fields(),
            final(self).spec_list_boxes() == old(self).spec_list_boxes(),
            final(self).spec_ui_state() == "Dialog '"@ + title@ + "' shown"@,
            r matches Ok(m) && m@ == "Dialog '"@ + title@ + "' shown successfully"@,
    {
        let msg = concat3("Dialog '", title.as_str(), "' shown successfully");
        self.ui_state = concat3("Dialog '", title.as_str(), "' shown");
        let dialog = FlutterDialog::new(title, message);
        self.active_dialogs.push(dialog);
        Ok(msg)
    }

    /// Close every dialog
    pub fn hide_all_dialogs(&mut self)
        ensures
            final(self).spec_dialogs().len() == 0,
            final(self).spec_windows() == old(self).spec_windows(),
            final(self).spec_buttons() == old(self).spec_buttons(),
            final(self).spec_text_fields() == old(self).spec_text_fields(),
            final(self).spec_list_boxes() == old(self).spec_list_boxes(),
            final(self).spec_ui_state() == old(self).spec_ui_state(),
    {
        self.active_dialogs.clear();
    }

    /// The number of windows, buttons, text fields and list boxes; a count
    /// past the largest `usize` is outside what this accepts
    pub fn get_component_count(&self) -> (n: usize)
        requires
            self.component_count() <= usize::MAX,
        ensures
            n == self.component_count(),
    {
        self.windows.len() + self.buttons.len() + self.text_fields.len() + self.list_boxes.len()
    }

    /// A report of how many components there are and what happened last
    pub fn get_status(&self) -> (s: String)
        ensures
            s@ == status_text(
                self.spec_windows().len(),
                self.spec_buttons().len(),
                self.spec_text_fields().len(),
                self.spec_list_boxes().len(),
                self.spec_dialogs().len(),
                self.spec_ui_state(),
            ),
    {
        let mut s = String::from_str("AFNS Flutter Manager Status:\n- Windows: ");
        append_decimal(&mut s, self.windows.len() as u64);
        s.append("\n- Buttons: ");
        append_decimal(&mut s, self.buttons.len() as u64);
        s.append("\n- TextFields: ");
        append_decimal(&mut s, self.text_fields.len() as u64);
        s.append("\n- ListBoxes: ");
        append_decimal(&mut s, self.list_boxes.len() as u64);
        s.append("\n- Active Dialogs: ");
        append_decimal(&mut s, self.active_dialogs.len() as u64);
        s.append("\n- UI State: ");
        s.append(self.ui_state.as_str());
        s
    }

    /// The AFNS source of every component: a heading line, then the
    /// windows, buttons, text fields, list boxes and dialogs, each group
    /// after an empty line
    pub fn generate_afns_code(&self) -> (s: String)
        ensures
            s@ == join_lines(generated_lines(
                self.spec_windows(),
                self.spec_buttons(),
                self.spec_text_fields(),
                self.spec_list_boxes(),
                self.spec_dialogs(),
            )),
    {
        let mut code: Vec<String> = Vec::new();
        code.push(String::from_str("// Generated AFNS Flutter GUI Code"));
        code.push(String::new());
        let ghost mut lines: Seq<Seq<char>> = seq!["// Generated AFNS Flutter GUI Code"@, Seq::empty()];
        assert(views(code@) =~= lines);
        let mut i: usize = 0;
        while i < self.windows.len()
            invariant
                i <= self.windows@.len(),
                views(code@) == lines + codes(self.windows@.take(i as int), |w: FlutterWindow| window_code(w)),
            decreases self.windows@.len() - i,
        {
            let ghost before = views(code@);
            code.push(self.windows.at(i).to_afns_code());
            assert(self.windows@.take(i + 1) =~= self.windows@.take(i as int).push(self.windows@[i as int]));
            assert(views(code@) =~= before.push(code@.last()@));
            assert(views(code@) =~= lines + codes(self.windows@.take(i + 1), |w: FlutterWindow| window_code(w)));
            i = i + 1;
        }
        assert(self.windows@.take(i as int) =~= self.windows@);
        proof {
            lines = lines + codes(self.windows@, |w: FlutterWindow| window_code(w));
        }
        code.push(String::new());
        proof {
            assert(views(code@) =~= lines.push(Seq::empty()));
            lines = lines.push(Seq::empty());
        }
        let mut i: usize = 0;
        while i < self.buttons.len()
            invariant
                i <= self.buttons@.len(),
                views(code@) == lines + codes(self.buttons@.take(i as int), |b: FlutterButton| button_code(b)),
            decreases self.buttons@.len() - i,
        {
            let ghost before = views(code@);
            code.push(self.buttons.at(i).to_afns_code());
            assert(self.buttons@.take(i + 1) =~= self.buttons@.take(i as int).push(self.buttons@[i as int]));
            assert(views(code@) =~= before.push(code@.last()@));
            assert(views(code@) =~= lines + codes(self.buttons@.take(i + 1), |b: FlutterButton| button_code(b)));
            i = i + 1;
        }
        assert(self.buttons@.take(i as int) =~= self.buttons@);
        proof {
            lines = lines + codes(self.buttons@, |b: FlutterButton| button_code(b));
        }
        code.push(String::new());
        proof {
            assert(views(code@) =~= lines.push(Seq::empty()));
            lines = lines.push(Seq::empty());
        }
        let mut i: usize = 0;
        while i < self.text_fields.len()
            invariant
                i <= self.text_fields@.len(),
                views(code@) == lines + codes(self.text_fields@.take(i as int), |t: FlutterTextField| text_field_code(t)),
            decreases self.text_fields@.len() - i,
        {
            let ghost before = views(code@);
            code.push(self.text_fields.at(i).to_afns_code());
            assert(self.text_fields@.take(i + 1) =~= self.text_fields@.take(i as int).push(self.text_fields@[i as int]));
            assert(views(code@) =~= before.push(code@.last()@));
            assert(views(code@) =~= lines + codes(self.text_fields@.take(i + 1), |t: FlutterTextField| text_field_code(t)));
            i = i + 1;
        }
        assert(self.text_fields@.take(i as int) =~= self.text_fields@);
        proof {
            lines = lines + codes(self.text_fields@, |t: FlutterTextField| text_field_code(t));
        }
        code.push(String::new());
        proof {
            assert(views(code@) =~= lines.push(Seq::empty()));
            lines = lines.push(Seq::empty());
        }
        let mut i: usize = 0;
        while i < self.list_boxes.len()
            invariant
                i <= self.list_boxes@.len(),
                views(code@) == lines + codes(self.list_boxes@.take(i as int), |l: FlutterListBox| list_box_code(l)),
            decreases self.list_boxes@.len() - i,
        {
            let ghost before = views(code@);
            code.push(self.list_boxes.at(i).to_afns_code());
            assert(self.list_boxes@.take(i + 1) =~= self.list_boxes@.take(i as int).push(self.list_boxes@[i as int]));
            assert(views(code@) =~= before.push(code@.last()@));
            assert(views(code@) =~= lines + codes(self.list_boxes@.take(i + 1), |l: FlutterListBox| list_box_code(l)));
            i = i + 1;
        }
        assert(self.list_boxes@.take(i as int) =~= self.list_boxes@);
        proof {
            lines = lines + codes(self.list_boxes@, |l: FlutterListBox| list_box_code(l));
        }
        code.push(String::new());
        proof {
            assert(views(code@) =~= lines.push(Seq::empty()));
            lines = lines.push(Seq::empty());
        }
        let mut i: usize = 0;
        while i < self.active_dialogs.len()
            invariant
                i <= self.active_dialogs@.len(),
                views(code@) == lines + self.active_dialogs@.take(i as int).map_values(|d: FlutterDialog| dialog_code(d)),
            decreases self.active_dialogs@.len() - i,
        {
            let ghost before = views(code@);
            code.push(self.active_dialogs[i].to_afns_code());
            assert(self.active_dialogs@.take(i + 1) =~= self.active_dialogs@.take(i as int).push(self.active_dialogs@[i as int]));
            assert(views(code@) =~= before.push(code@.last()@));
            assert(views(code@) =~= lines + self.active_dialogs@.take(i + 1).map_values(|d: FlutterDialog| dialog_code(d)));
            i = i + 1;
        }
        assert(self.active_dialogs@.take(i as int) =~= self.active_dialogs@);
        assert(views(code@) =~= generated_lines(
            self.windows@,
            self.buttons@,
            self.text_fields@,
            self.list_boxes@,
            self.active_dialogs@,
        ));
        join_with_newlines(&code)
    }

    /// Remove every component and dialog
    pub fn clear_all(&mut self)
        ensures
            final(self).spec_windows().len() == 0 && final(self).spec_buttons().len() == 0 && final(self).spec_text_fields().len() == 0 && final(self).spec_list_boxes().len() == 0 && final(self).spec_dialogs().len() == 0,
            final(self).spec_ui_state() == "All components cleared"@,
    {
        self.windows.clear();
        self.buttons.clear();
        self.text_fields.clear();
        self.list_boxes.clear();
        self.active_dialogs.clear();
        self.ui_state = String::from_str("All components cleared");
    }

    /// A report of the component counts; a total past the largest `usize`
    /// is outside what this accepts
    pub fn get_performance_metrics(&self) -> (s: String)
        requires
            self.component_count() <= usize::MAX,
        ensures
            s@ == metrics_text(
                self.component_count(),
                self.spec_windows().len(),
                self.spec_buttons().len(),
                self.spec_text_fields().len(),
                self.spec_list_boxes().len(),
            ),
    {
        let mut s = String::from_str("AFNS Flutter Performance Metrics:\n- Total Components: ");
        append_decimal(&mut s, self.get_component_count() as u64);
        s.append("\n- Windows: ");
        append_decimal(&mut s, self.windows.len() as u64);
        s.append("\n- Buttons: ");
        append_decimal(&mut s, self.buttons.len() as u64);
        s.append("\n- TextFields: ");
        append_decimal(&mut s, self.text_fields.len() as u64);
        s.append("\n- ListBoxes: ");
        append_decimal(&mut s, self.list_boxes.len() as u64);
        s.append("\n- Memory Usage: Optimized\n- Creation Time: < 5ms\n- Platform Support: Complete");
        s
    }
}

/// The status report of a manager.
pub open spec fn status_text(w: nat, b: nat, t: nat, l: nat, d: nat, ui: Seq<char>) -> Seq<char> {
    "AFNS Flutter Manager Status:\n- Windows: "@ + decimal(w) + "\n- Buttons: "@ + decimal(b)
        + "\n- TextFields: "@ + decimal(t) + "\n- ListBoxes: "@ + decimal(l)
        + "\n- Active Dialogs: "@ + decimal(d) + "\n- UI State: "@ + ui
}

/// The metrics report of a manager.
pub open spec fn metrics_text(total: nat, w: nat, b: nat, t: nat, l: nat) -> Seq<char> {
    "AFNS Flutter Performance Metrics:\n- Total Components: "@ + decimal(total)
        + "\n- Windows: "@ + decimal(w) + "\n- Buttons: "@ + decimal(b) + "\n- TextFields: "@
        + decimal(t) + "\n- ListBoxes: "@ + decimal(l)
        + "\n- Memory Usage: Optimized\n- Creation Time: < 5ms\n- Platform Support: Complete"@
}

/// The lines of the generated AFNS source.
pub open spec fn generated_lines(
    windows: Seq<(String, FlutterWindow)>,
    buttons: Seq<(String, FlutterButton)>,
    text_fields: Seq<(String, FlutterTextField)>,
    list_boxes: Seq<(String, FlutterListBox)>,
    dialogs: Seq<FlutterDialog>,
) -> Seq<Seq<char>> {
    seq!["// Generated AFNS Flutter GUI Code"@, Seq::empty()] + codes(
        windows,
        |w: FlutterWindow| window_code(w),
    ) + seq![Seq::empty()] + codes(buttons, |b: FlutterButton| button_code(b)) + seq![Seq::empty()]
        + codes(text_fields, |t: FlutterTextField| text_field_code(t)) + seq![Seq::empty()] + codes(
        list_boxes,
        |l: FlutterListBox| list_box_code(l),
    ) + seq![Seq::empty()] + dialogs.map_values(|d: FlutterDialog| dialog_code(d))
}

/// The text of an outcome: the message either way.
pub open spec fn outcome_text(r: Result<String, String>) -> Seq<char> {
    match r {
        Ok(m) => m@,
        Err(e) => e@,
    }
}

fn outcome(r: Result<String, String>) -> (s: String)
    ensures
        s@ == outcome_text(r),
{
    match r {
        Ok(m) => m,
        Err(e) => e,
    }
}

/// The answer when no manager has been set up.
pub open spec fn not_initialized() -> Seq<char> {
    "ERROR: Manager not initialized"@
}

/// Create a window in the program's manager, answering with the outcome's
/// message. The manager must be set up first: the shared manager of AFNS
/// programs waits forever otherwise.
pub fn afns_create_window(
    state: &mut Option<AFNSFlutterManager>,
    id: String,
    title: String,
    width: i32,
    height: i32,
) -> (s: String)
    requires
        (*old(state)) is Some,
    ensures
        (*final(state)) is Some,
        ({
            let m = (*old(state)).unwrap();
            let n = (*final(state)).unwrap();
            &&& key_index(m.spec_windows(), id@) >= 0 ==> n == m && s@ == "Window with id '"@ + id@
                + "' already exists"@
            &&& key_index(m.spec_windows(), id@) < 0 ==> n.spec_windows() == m.spec_windows().push(
                (id, FlutterWindow { id, title, width, height, visible: true }),
            ) && n.same_but_windows(&m) && n.spec_ui_state() == "Window '"@ + id@ + "' created"@
                && s@ == "FlutterWindow '"@ + id@ + "' created successfully"@
        }),
{
    match state {
        Some(manager) => outcome(manager.create_window(id, title, width, height)),
        None => String::new(),
    }
}

/// Create a button in the program's manager, answering with the outcome's
/// message. The manager must be set up first.
pub fn afns_create_button(state: &mut Option<AFNSFlutterManager>, id: String, text: String, x: i32, y: i32) -> (s:
    String)
    requires
        (*old(state)) is Some,
    ensures
        (*final(state)) is Some,
        ({
            let m = (*old(state)).unwrap();
            let n = (*final(state)).unwrap();
            &&& key_index(m.spec_buttons(), id@) >= 0 ==> n == m && s@ == "Button with id '"@ + id@
                + "' already exists"@
            &&& key_index(m.spec_buttons(), id@) < 0 ==> n.spec_buttons() == m.spec_buttons().push(
                (id, FlutterButton { id, text, x, y, width: 100, height: 40, enabled: true }),
            ) && n.same_but_buttons(&m) && n.spec_ui_state() == "Button '"@ + id@ + "' created"@
                && s@ == "FlutterButton '"@ + id@ + "' created successfully"@
        }),
{
    match state {
        Some(manager) => outcome(manager.create_button(id, text, x, y)),
        None => String::new(),
    }
}

/// Create a text field in the program's manager, answering with the
/// outcome's message. The manager must be set up first.
pub fn afns_create_text_field(
    state: &mut Option<AFNSFlutterManager>,
    id: String,
    placeholder: String,
    x: i32,
    y: i32,
    width: i32,
) -> (s: String)
    requires
        (*old(state)) is Some,
    ensures
        (*final(state)) is Some,
        ({
            let m = (*old(state)).unwrap();
            let n = (*final(state)).unwrap();
            &&& key_index(m.spec_text_fields(), id@) >= 0 ==> n == m && s@ == "TextField with id '"@
                + id@ + "' already exists"@
            &&& key_index(m.spec_text_fields(), id@) < 0 ==> n.spec_text_fields().drop_last()
                == m.spec_text_fields() && n.spec_text_fields().len() == m.spec_text_fields().len()
                + 1 && n.spec_text_fields().last().0 == id && n.spec_text_fields().last().1.placeholder
                == placeholder && n.same_but_text_fields(&m) && s@ == "FlutterTextField '"@ + id@
                + "' created successfully"@
        }),
{
    match state {
        Some(manager) => outcome(manager.create_text_field(id, placeholder, x, y, width)),
        None => String::new(),
    }
}

/// Create a list box in the program's manager, answering with the
/// outcome's message. The manager must be set up first.
pub fn afns_create_list_box(
    state: &mut Option<AFNSFlutterManager>,
    id: String,
    x: i32,
    y: i32,
    width: i32,
    height: i32,
) -> (s: String)
    requires
        (*old(state)) is Some,
    ensures
        (*final(state)) is Some,
        ({
            let m = (*old(state)).unwrap();
            let n = (*final(state)).unwrap();
            &&& key_index(m.spec_list_boxes(), id@) >= 0 ==> n == m && s@ == "ListBox with id '"@
                + id@ + "' already exists"@
            &&& key_index(m.spec_list_boxes(), id@) < 0 ==> n.spec_list_boxes().drop_last()
                == m.spec_list_boxes() && n.spec_list_boxes().len() == m.spec_list_boxes().len() + 1
                && n.spec_list_boxes().last().0 == id && n.same_but_list_boxes(&m) && s@
                == "FlutterListBox '"@ + id@ + "' created successfully"@
        }),
{
    match state {
        Some(manager) => outcome(manager.create_list_box(id, x, y, width, height)),
        None => String::new(),
    }
}

/// Click a button of the program's manager
pub fn afns_click_button(state: &mut Option<AFNSFlutterManager>, id: String) -> (s: String)
    ensures
        (*final(state)) == (*old(state)),
        match (*old(state)) {
            Some(m) => if key_index(m.spec_buttons(), id@) >= 0 {
                s@ == "Button '"@ + id@ + "' clicked"@
            } else {
                s@ == "Button '"@ + id@ + "' not found"@
            },
            None => s@ == not_initialized(),
        },
{
    match state {
        Some(manager) => outcome(manager.click_button(id.as_str())),
        None => String::from_str("ERROR: Manager not initialized"),
    }
}

/// Set the value of a text field of the program's manager
pub fn afns_set_text_value(state: &mut Option<AFNSFlutterManager>, id: String, value: String) -> (s:
    String)
    ensures
        (*old(state)) is None ==> (*final(state)) is None && s@ == not_initialized(),
        (*old(state)) is Some ==> (*final(state)) is Some && ({
            let m = (*old(state)).unwrap();
            let n = (*final(state)).unwrap();
            &&& n.same_but_text_fields(&m)
            &&& key_index(m.spec_text_fields(), id@) >= 0 ==> s@ == "TextField '"@ + id@
                + "' value updated"@ && ({
                let i = key_index(m.spec_text_fields(), id@);
                let t = m.spec_text_fields()[i].1;
                n.spec_text_fields() == m.spec_text_fields().update(
                    i,
                    (
                        m.spec_text_fields()[i].0,
                        if encode_utf8(value@).len() <= t.max_length {
                            FlutterTextField { value, ..t }
                        } else {
                            t
                        },
                    ),
                )
            })
            &&& key_index(m.spec_text_fields(), id@) < 0 ==> n == m && s@ == "TextField '"@ + id@
                + "' not found"@
        }),
{
    match state {
        Some(manager) => outcome(manager.set_text_field_value(id.as_str(), value)),
        None => String::from_str("ERROR: Manager not initialized"),
    }
}

/// The value of a text field of the program's manager
pub fn afns_get_text_value(state: &Option<AFNSFlutterManager>, id: String) -> (s: String)
    ensures
        match *state {
            Some(m) => if key_index(m.spec_text_fields(), id@) >= 0 {
                s@ == m.spec_text_fields()[key_index(m.spec_text_fields(), id@)].1.value@
            } else {
                s@ == "TextField '"@ + id@ + "' not found"@
            },
            None => s@ == not_initialized(),
        },
{
    match state {
        Some(manager) => outcome(manager.get_text_field_value(id.as_str())),
        None => String::from_str("ERROR: Manager not initialized"),
    }
}

/// Select an item of a list box of the program's manager
pub fn afns_select_list_item(state: &mut Option<AFNSFlutterManager>, id: String, index: usize) -> (s:
    String)
    ensures
        (*old(state)) is None ==> (*final(state)) is None && s@ == not_initialized(),
        (*old(state)) is Some ==> (*final(state)) is Some && ({
            let m = (*old(state)).unwrap();
            let n = (*final(state)).unwrap();
            &&& n.same_but_list_boxes(&m)
            &&& key_index(m.spec_list_boxes(), id@) >= 0 ==> ({
                let i = key_index(m.spec_list_boxes(), id@);
                let l = m.spec_list_boxes()[i].1;
                let nl = n.spec_list_boxes()[i].1;
                &&& n.spec_list_boxes().len() == m.spec_list_boxes().len()
                &&& forall|j: int|
                    0 <= j < m.spec_list_boxes().len() && j != i ==> n.spec_list_boxes()[j]
                        == m.spec_list_boxes()[j]
                &&& index < l.items@.len() ==> nl.selected_index == Some(index) && s@
                    == l.items@[index as int]@
                &&& index >= l.items@.len() ==> nl.selected_index == l.selected_index && s@
                    == index_message(index)
            })
            &&& key_index(m.spec_list_boxes(), id@) < 0 ==> n == m && s@ == "ListBox '"@ + id@
                + "' not found"@
        }),
{
    match state {
        Some(manager) => outcome(manager.select_list_box_item(id.as_str(), index)),
        None => String::from_str("ERROR: Manager not initialized"),
    }
}

/// Show a dialog through the program's manager
pub fn afns_show_dialog(state: &mut Option<AFNSFlutterManager>, title: String, message: String) -> (s:
    String)
    ensures
        (*old(state)) is None ==> (*final(state)) is None && s@ == not_initialized(),
        (*old(state)) is Some ==> (*final(state)) is Some && (*final(state)).unwrap().spec_dialogs() == (*old(state)).unwrap().spec_dialogs().push(FlutterDialog { title, message, modal: true }) && (*final(state)).unwrap().component_count() == (*old(state)).unwrap().component_count() && s@ == "Dialog '"@
            + title@ + "' shown successfully"@,
{
    match state {
        Some(manager) => outcome(manager.show_dialog(title, message)),
        None => String::from_str("ERROR: Manager not initialized"),
    }
}

/// The status report of the program's manager
pub fn afns_get_status(state: &Option<AFNSFlutterManager>) -> (s: String)
    ensures
        match *state {
            Some(m) => s@ == status_text(
                m.spec_windows().len(),
                m.spec_buttons().len(),
                m.spec_text_fields().len(),
                m.spec_list_boxes().len(),
                m.spec_dialogs().len(),
                m.spec_ui_state(),
            ),
            None => s@ == not_initialized(),
        },
{
    match state {
        Some(manager) => manager.get_status(),
        None => String::from_str("ERROR: Manager not initialized"),
    }
}

/// The AFNS source of the program's components
pub fn afns_generate_code(state: &Option<AFNSFlutterManager>) -> (s: String)
    ensures
        match *state {
            Some(m) => s@ == join_lines(
                generated_lines(
                    m.spec_windows(),
                    m.spec_buttons(),
                    m.spec_text_fields(),
                    m.spec_list_boxes(),
                    m.spec_dialogs(),
                ),
            ),
            None => s@ == not_initialized(),
        },
{
    match state {
        Some(manager) => manager.generate_afns_code(),
        None => String::from_str("ERROR: Manager not initialized"),
    }
}

/// The metrics report of the program's manager; a component count past the
/// largest `usize` is outside what this accepts
pub fn afns_get_performance_metrics(state: &Option<AFNSFlutterManager>) -> (s: String)
    requires
        state matches Some(m) ==> m.component_count() <= usize::MAX,
    ensures
        match *state {
            Some(m) => s@ == metrics_text(
                m.component_count(),
                m.spec_windows().len(),
                m.spec_buttons().len(),
                m.spec_text_fields().len(),
                m.spec_list_boxes().len(),
            ),
            None => s@ == not_initialized(),
        },
{
    match state {
        Some(manager) => manager.get_performance_metrics(),
        None => String::from_str("ERROR: Manager not initialized"),
    }
}

/// Clear every component of the program's manager
pub fn afns_clear_all(state: &mut Option<AFNSFlutterManager>) -> (s: String)
    ensures
        (*old(state)) is None ==> (*final(state)) is None && s@ == not_initialized(),
        (*old(state)) is Some ==> (*final(state)) is Some && (*final(state)).unwrap().component_count() == 0
            && (*final(state)).unwrap().spec_dialogs().len() == 0 && (*final(state)).unwrap().spec_ui_state() == "All components cleared"@ && s@
            == "All Flutter components cleared"@,
{
    match state {
        Some(manager) => {
            manager.clear_all();
            String::from_str("All Flutter components cleared")
        },
        None => String::from_str("ERROR: Manager not initialized"),
    }
}

} // verus!
