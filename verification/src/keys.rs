//! What can be done to a terminal: typing, pasting, keys, the mouse, and its size.
use crate::json;
use crate::json::{Json, JsonView};
use crate::numbers;
use crate::text;
use vstd::prelude::*;
use vstd::string::*;

verus! {

/// A key.
#[derive(Clone, Copy, Debug, PartialEq, Eq, Structural)]
pub enum KeyCode {
    Char(char),
    Enter,
    Escape,
    Tab,
    Backspace,
    Delete,
    Insert,
    UpArrow,
    DownArrow,
    LeftArrow,
    RightArrow,
    Home,
    End,
    PageUp,
    PageDown,
    Function(u8),
}

/// The keys that are held down with another.
#[derive(Clone, Copy, Debug, PartialEq, Eq, Structural)]
pub struct KeyModifiers {
    pub shift: bool,
    pub alt: bool,
    pub ctrl: bool,
    pub command: bool,
}

/// A button of the mouse.
#[derive(Clone, Copy, Debug, PartialEq, Eq, Structural)]
pub enum MouseButton {
    Left,
    Middle,
    Right,
    Nothing,
    WheelUp,
    WheelDown,
}

/// What the mouse does.
#[derive(Clone, Copy, Debug, PartialEq, Eq, Structural)]
pub enum MouseEventKind {
    Press,
    Release,
    Move,
}

/// Why something cannot be done to a terminal.
#[derive(Debug)]
pub enum ActionError {
    /// A text is missing.
    MissingText(String),
    /// A number is missing.
    MissingNumber(String),
    EmptyCharacter,
    ManyCharacters,
    /// No function key is called so: the name, and what is wrong with its number.
    FunctionKey(String, String),
    FunctionRange,
    UnknownKey(String),
    ModifiersNoArray,
    ModifierNoText,
    UnknownModifier(String),
    UnknownButton(String),
    UnknownMouseAction(String),
    MouseUnavailable,
    MouseOutside { row: usize, column: usize, rows: usize, columns: usize },
    Dimensions,
    UnknownAction(String),
}

/// Why something cannot be done to a terminal.
pub enum ActionFault {
    MissingText(Seq<char>),
    MissingNumber(Seq<char>),
    EmptyCharacter,
    ManyCharacters,
    FunctionKey(Seq<char>, Seq<char>),
    FunctionRange,
    UnknownKey(Seq<char>),
    ModifiersNoArray,
    ModifierNoText,
    UnknownModifier(Seq<char>),
    UnknownButton(Seq<char>),
    UnknownMouseAction(Seq<char>),
    MouseUnavailable,
    MouseOutside { row: usize, column: usize, rows: usize, columns: usize },
    Dimensions,
    UnknownAction(Seq<char>),
}

impl View for ActionError {
    type V = ActionFault;

    open spec fn view(&self) -> ActionFault {
        match *self {
            ActionError::MissingText(s) => ActionFault::MissingText(s@),
            ActionError::MissingNumber(s) => ActionFault::MissingNumber(s@),
            ActionError::EmptyCharacter => ActionFault::EmptyCharacter,
            ActionError::ManyCharacters => ActionFault::ManyCharacters,
            ActionError::FunctionKey(s, e) => ActionFault::FunctionKey(s@, e@),
            ActionError::FunctionRange => ActionFault::FunctionRange,
            ActionError::UnknownKey(s) => ActionFault::UnknownKey(s@),
            ActionError::ModifiersNoArray => ActionFault::ModifiersNoArray,
            ActionError::ModifierNoText => ActionFault::ModifierNoText,
            ActionError::UnknownModifier(s) => ActionFault::UnknownModifier(s@),
            ActionError::UnknownButton(s) => ActionFault::UnknownButton(s@),
            ActionError::UnknownMouseAction(s) => ActionFault::UnknownMouseAction(s@),
            ActionError::MouseUnavailable => ActionFault::MouseUnavailable,
            ActionError::MouseOutside { row, column, rows, columns } => ActionFault::MouseOutside {
                row,
                column,
                rows,
                columns,
            },
            ActionError::Dimensions => ActionFault::Dimensions,
            ActionError::UnknownAction(s) => ActionFault::UnknownAction(s@),
        }
    }
}

impl ActionFault {
    /// What a person is told.
    pub open spec fn text(self) -> Seq<char> {
        match self {
            ActionFault::MissingText(s) => "missing string field "@ + text::quoted(s),
            ActionFault::MissingNumber(s) => "missing positive integer field "@ + text::quoted(s),
            ActionFault::EmptyCharacter => "Character key is empty"@,
            ActionFault::ManyCharacters => "Character key must contain exactly one character"@,
            ActionFault::FunctionKey(s, e) => "invalid function key "@ + text::quoted(s) + ": "@ + e,
            ActionFault::FunctionRange => "function key must be between F1 and F24"@,
            ActionFault::UnknownKey(s) => "unknown key "@ + text::quoted(s),
            ActionFault::ModifiersNoArray => "modifiers must be an array"@,
            ActionFault::ModifierNoText => "modifier names must be strings"@,
            ActionFault::UnknownModifier(s) => "unknown modifier "@ + text::quoted(s),
            ActionFault::UnknownButton(s) => "unknown mouse button "@ + text::quoted(s),
            ActionFault::UnknownMouseAction(s) => "unknown mouse action "@ + text::quoted(s),
            ActionFault::MouseUnavailable =>
                "mouse input is unavailable because the application did not enable it"@,
            ActionFault::MouseOutside { row, column, rows, columns } => "mouse position ("@
                + text::decimal(row as nat) + ","@ + text::decimal(column as nat)
                + ") is outside the "@ + text::decimal(rows as nat) + "x"@ + text::decimal(
                columns as nat,
            ) + " terminal"@,
            ActionFault::Dimensions => "terminal dimensions must be between 1x1 and 1000x500"@,
            ActionFault::UnknownAction(s) => "unknown terminal action type "@ + text::quoted(s),
        }
    }
}

impl ActionError {
    /// What a person is told.
    pub fn message(&self) -> (s: String)
        ensures
            s@ == self@.text(),
    {
        match self {
            ActionError::MissingText(s) => text::cat2("missing string field ", &text::quote(s)),
            ActionError::MissingNumber(s) => text::cat2(
                "missing positive integer field ",
                &text::quote(s),
            ),
            ActionError::EmptyCharacter => "Character key is empty".to_owned(),
            ActionError::ManyCharacters =>
                "Character key must contain exactly one character".to_owned(),
            ActionError::FunctionKey(s, e) => text::cat4(
                "invalid function key ",
                &text::quote(s),
                ": ",
                e,
            ),
            ActionError::FunctionRange => "function key must be between F1 and F24".to_owned(),
            ActionError::UnknownKey(s) => text::cat2("unknown key ", &text::quote(s)),
            ActionError::ModifiersNoArray => "modifiers must be an array".to_owned(),
            ActionError::ModifierNoText => "modifier names must be strings".to_owned(),
            ActionError::UnknownModifier(s) => text::cat2("unknown modifier ", &text::quote(s)),
            ActionError::UnknownButton(s) => text::cat2("unknown mouse button ", &text::quote(s)),
            ActionError::UnknownMouseAction(s) => text::cat2(
                "unknown mouse action ",
                &text::quote(s),
            ),
            ActionError::MouseUnavailable =>
                "mouse input is unavailable because the application did not enable it".to_owned(),
            ActionError::MouseOutside { row, column, rows, columns } => {
                let head = text::cat5(
                    "mouse position (",
                    &text::to_decimal(*row as u64),
                    ",",
                    &text::to_decimal(*column as u64),
                    ") is outside the ",
                );
                text::cat5(
                    &head,
                    &text::to_decimal(*rows as u64),
                    "x",
                    &text::to_decimal(*columns as u64),
                    " terminal",
                )
            },
            ActionError::Dimensions =>
                "terminal dimensions must be between 1x1 and 1000x500".to_owned(),
            ActionError::UnknownAction(s) => text::cat2(
                "unknown terminal action type ",
                &text::quote(s),
            ),
        }
    }
}

// ---------------------------------------------------------------------------
// Keys

/// The key that a name other than that of a character or a function means.
pub open spec fn named_key(name: Seq<char>) -> Option<KeyCode> {
    if name == "Enter"@ {
        Some(KeyCode::Enter)
    } else if name == "Escape"@ {
        Some(KeyCode::Escape)
    } else if name == "Tab"@ {
        Some(KeyCode::Tab)
    } else if name == "Backspace"@ {
        Some(KeyCode::Backspace)
    } else if name == "Delete"@ {
        Some(KeyCode::Delete)
    } else if name == "Insert"@ {
        Some(KeyCode::Insert)
    } else if name == "ArrowUp"@ {
        Some(KeyCode::UpArrow)
    } else if name == "ArrowDown"@ {
        Some(KeyCode::DownArrow)
    } else if name == "ArrowLeft"@ {
        Some(KeyCode::LeftArrow)
    } else if name == "ArrowRight"@ {
        Some(KeyCode::RightArrow)
    } else if name == "Home"@ {
        Some(KeyCode::Home)
    } else if name == "End"@ {
        Some(KeyCode::End)
    } else if name == "PageUp"@ {
        Some(KeyCode::PageUp)
    } else if name == "PageDown"@ {
        Some(KeyCode::PageDown)
    } else {
        None
    }
}

/// The key that a name means.
pub open spec fn key_of(name: Seq<char>) -> Result<KeyCode, ActionFault> {
    if text::begins_with(name, "Character:"@) {
        let rest = name.skip("Character:"@.len() as int);
        if rest.len() == 0 {
            Err(ActionFault::EmptyCharacter)
        } else if rest.len() > 1 {
            Err(ActionFault::ManyCharacters)
        } else {
            Ok(KeyCode::Char(rest[0]))
        }
    } else if named_key(name) is Some {
        Ok(named_key(name)->0)
    } else if name.len() > 0 && name[0] == 'F' {
        match numbers::unsigned_upto(name.skip(1), 255) {
            Some(n) => if 1 <= n <= 24 {
                Ok(KeyCode::Function(n as u8))
            } else {
                Err(ActionFault::FunctionRange)
            },
            None => Err(ActionFault::FunctionKey(name, numbers::byte_fault(name.skip(1)))),
        }
    } else {
        Err(ActionFault::UnknownKey(name))
    }
}

fn find_named_key(name: &str) -> (r: Option<KeyCode>)
    ensures
        r == named_key(name@),
{
    if text::same(name, "Enter") {
        Some(KeyCode::Enter)
    } else if text::same(name, "Escape") {
        Some(KeyCode::Escape)
    } else if text::same(name, "Tab") {
        Some(KeyCode::Tab)
    } else if text::same(name, "Backspace") {
        Some(KeyCode::Backspace)
    } else if text::same(name, "Delete") {
        Some(KeyCode::Delete)
    } else if text::same(name, "Insert") {
        Some(KeyCode::Insert)
    } else if text::same(name, "ArrowUp") {
        Some(KeyCode::UpArrow)
    } else if text::same(name, "ArrowDown") {
        Some(KeyCode::DownArrow)
    } else if text::same(name, "ArrowLeft") {
        Some(KeyCode::LeftArrow)
    } else if text::same(name, "ArrowRight") {
        Some(KeyCode::RightArrow)
    } else if text::same(name, "Home") {
        Some(KeyCode::Home)
    } else if text::same(name, "End") {
        Some(KeyCode::End)
    } else if text::same(name, "PageUp") {
        Some(KeyCode::PageUp)
    } else if text::same(name, "PageDown") {
        Some(KeyCode::PageDown)
    } else {
        None
    }
}

/// The key that a name means.
pub fn parse_key(value: &str) -> (r: Result<KeyCode, ActionError>)
    ensures
        match r {
            Ok(key) => key_of(value@) == Ok::<KeyCode, ActionFault>(key),
            Err(e) => key_of(value@) == Err::<KeyCode, ActionFault>(e@),
        },
{
    if let Some(rest) = text::strip_prefix(value, "Character:") {
        let v = text::chars_of(rest);
        if v.len() == 0 {
            return Err(ActionError::EmptyCharacter);
        }
        if v.len() > 1 {
            return Err(ActionError::ManyCharacters);
        }
        return Ok(KeyCode::Char(v[0]));
    }
    if let Some(key) = find_named_key(value) {
        return Ok(key);
    }
    let v = text::chars_of(value);
    if v.len() > 0 && v[0] == 'F' {
        let rest = text::text_of_range(&v, 1, v.len());
        assert(rest@ == value@.skip(1));
        return match numbers::parse_byte(&rest) {
            Ok(n) => if 1 <= n && n <= 24 {
                Ok(KeyCode::Function(n))
            } else {
                Err(ActionError::FunctionRange)
            },
            Err(e) => Err(ActionError::FunctionKey(value.to_owned(), e)),
        };
    }
    Err(ActionError::UnknownKey(value.to_owned()))
}

/// No modifiers.
pub open spec fn no_modifiers() -> KeyModifiers {
    KeyModifiers { shift: false, alt: false, ctrl: false, command: false }
}

/// The modifiers with one more, by its name in small letters.
pub open spec fn with_modifier(m: KeyModifiers, name: Seq<char>) -> Result<KeyModifiers, ActionFault> {
    if name == "shift"@ {
        Ok(KeyModifiers { shift: true, ..m })
    } else if name == "alt"@ || name == "option"@ || name == "meta"@ {
        Ok(KeyModifiers { alt: true, ..m })
    } else if name == "ctrl"@ || name == "control"@ {
        Ok(KeyModifiers { ctrl: true, ..m })
    } else if name == "super"@ || name == "cmd"@ || name == "win"@ {
        Ok(KeyModifiers { command: true, ..m })
    } else {
        Err(ActionFault::UnknownModifier(name))
    }
}

/// The modifiers from position `i` on, added to others.
pub open spec fn modifiers_from(m: KeyModifiers, values: Seq<JsonView>, i: int) -> Result<
    KeyModifiers,
    ActionFault,
>
    decreases values.len() - i,
{
    if i >= values.len() {
        Ok(m)
    } else {
        match values[i].text() {
            None => Err(ActionFault::ModifierNoText),
            Some(name) => match with_modifier(m, text::ascii_lower(name)) {
                Err(f) => Err(f),
                Ok(next) => modifiers_from(next, values, i + 1),
            },
        }
    }
}

/// The modifiers of an action.
pub open spec fn modifiers_of(value: Option<JsonView>) -> Result<KeyModifiers, ActionFault> {
    match value {
        None => Ok(no_modifiers()),
        Some(v) => match v.items() {
            None => Err(ActionFault::ModifiersNoArray),
            Some(values) => modifiers_from(no_modifiers(), values, 0),
        },
    }
}

/// The view of an optional value.
pub open spec fn value_of(value: Option<&Json>) -> Option<JsonView> {
    match value {
        Some(v) => Some(v@),
        None => None,
    }
}

/// The modifiers of an action.
pub fn parse_modifiers(value: Option<&Json>) -> (r: Result<KeyModifiers, ActionError>)
    ensures
        match r {
            Ok(m) => modifiers_of(value_of(value)) == Ok::<KeyModifiers, ActionFault>(m),
            Err(e) => modifiers_of(value_of(value)) == Err::<KeyModifiers, ActionFault>(e@),
        },
{
    let mut m = KeyModifiers { shift: false, alt: false, ctrl: false, command: false };
    let list = match value {
        None => {
            return Ok(m);
        },
        Some(v) => v,
    };
    let values = match list.as_array() {
        None => {
            return Err(ActionError::ModifiersNoArray);
        },
        Some(values) => values,
    };
    let ghost views = json::item_views(values@);
    proof {
        json::lemma_item_views(values@);
    }
    let mut i: usize = 0;
    while i < values.len()
        invariant
            i <= values@.len(),
            views == json::item_views(values@),
            views.len() == values@.len(),
            forall|j: int|
                0 <= j < values@.len() ==> #[trigger] views[j] == json::json_view(values@[j]),
            modifiers_of(value_of(value)) == modifiers_from(no_modifiers(), views, 0),
            modifiers_from(no_modifiers(), views, 0) == modifiers_from(m, views, i as int),
        decreases values@.len() - i,
    {
        assert(views[i as int] == values@[i as int]@);
        let name = match values[i].as_str() {
            None => {
                return Err(ActionError::ModifierNoText);
            },
            Some(name) => text::to_ascii_lowercase(name),
        };
        if text::same(&name, "shift") {
            m.shift = true;
        } else if text::same(&name, "alt") || text::same(&name, "option") || text::same(
            &name,
            "meta",
        ) {
            m.alt = true;
        } else if text::same(&name, "ctrl") || text::same(&name, "control") {
            m.ctrl = true;
        } else if text::same(&name, "super") || text::same(&name, "cmd") || text::same(
            &name,
            "win",
        ) {
            m.command = true;
        } else {
            return Err(ActionError::UnknownModifier(name));
        }
        i += 1;
    }
    Ok(m)
}

// ---------------------------------------------------------------------------
// The mouse

/// The button that a name means.
pub open spec fn button_of(name: Seq<char>) -> Result<MouseButton, ActionFault> {
    if name == "left"@ {
        Ok(MouseButton::Left)
    } else if name == "middle"@ {
        Ok(MouseButton::Middle)
    } else if name == "right"@ {
        Ok(MouseButton::Right)
    } else if name == "none"@ {
        Ok(MouseButton::Nothing)
    } else {
        Err(ActionFault::UnknownButton(name))
    }
}

/// The button that a name means.
pub fn parse_mouse_button(value: &str) -> (r: Result<MouseButton, ActionError>)
    ensures
        match r {
            Ok(b) => button_of(value@) == Ok::<MouseButton, ActionFault>(b),
            Err(e) => button_of(value@) == Err::<MouseButton, ActionFault>(e@),
        },
{
    if text::same(value, "left") {
        Ok(MouseButton::Left)
    } else if text::same(value, "middle") {
        Ok(MouseButton::Middle)
    } else if text::same(value, "right") {
        Ok(MouseButton::Right)
    } else if text::same(value, "none") {
        Ok(MouseButton::Nothing)
    } else {
        Err(ActionError::UnknownButton(value.to_owned()))
    }
}

/// A text field that has to be there.
pub open spec fn text_field_of(value: JsonView, name: Seq<char>) -> Result<Seq<char>, ActionFault> {
    match value.text_field(name) {
        Some(s) => Ok(s),
        None => Err(ActionFault::MissingText(name)),
    }
}

/// A number that has to be there.
pub open spec fn number_field_of(value: JsonView, name: Seq<char>) -> Result<u64, ActionFault> {
    match value.unsigned_field(name) {
        Some(n) => Ok(n),
        None => Err(ActionFault::MissingNumber(name)),
    }
}

/// A text field that has to be there.
pub fn required_string<'a>(value: &'a Json, name: &str) -> (r: Result<&'a str, ActionError>)
    ensures
        match r {
            Ok(s) => text_field_of(value@, name@) == Ok::<Seq<char>, ActionFault>(s@),
            Err(e) => text_field_of(value@, name@) == Err::<Seq<char>, ActionFault>(e@),
        },
{
    match value.get_str(name) {
        Some(s) => Ok(s),
        None => Err(ActionError::MissingText(name.to_owned())),
    }
}

/// A number that has to be there.
pub fn required_u64(value: &Json, name: &str) -> (r: Result<u64, ActionError>)
    ensures
        match r {
            Ok(n) => number_field_of(value@, name@) == Ok::<u64, ActionFault>(n),
            Err(e) => number_field_of(value@, name@) == Err::<u64, ActionFault>(e@),
        },
{
    match value.get_u64(name) {
        Some(n) => Ok(n),
        None => Err(ActionError::MissingNumber(name.to_owned())),
    }
}

/// What the mouse does, and with which button.
pub open spec fn mouse_event_of(action: Seq<char>, button: Seq<char>) -> Result<
    (MouseEventKind, MouseButton),
    ActionFault,
> {
    if action == "press"@ || action == "release"@ || action == "move"@ {
        match button_of(button) {
            Ok(b) => Ok(
                (
                    if action == "press"@ {
                        MouseEventKind::Press
                    } else if action == "release"@ {
                        MouseEventKind::Release
                    } else {
                        MouseEventKind::Move
                    },
                    b,
                ),
            ),
            Err(f) => Err(f),
        }
    } else if action == "scroll_up"@ {
        Ok((MouseEventKind::Press, MouseButton::WheelUp))
    } else if action == "scroll_down"@ {
        Ok((MouseEventKind::Press, MouseButton::WheelDown))
    } else {
        Err(ActionFault::UnknownMouseAction(action))
    }
}

fn mouse_event(action: &str, button: &str) -> (r: Result<(MouseEventKind, MouseButton), ActionError>)
    ensures
        match r {
            Ok(event) => mouse_event_of(action@, button@) == Ok::<
                (MouseEventKind, MouseButton),
                ActionFault,
            >(event),
            Err(e) => mouse_event_of(action@, button@) == Err::<
                (MouseEventKind, MouseButton),
                ActionFault,
            >(e@),
        },
{
    let kind = if text::same(action, "press") {
        MouseEventKind::Press
    } else if text::same(action, "release") {
        MouseEventKind::Release
    } else if text::same(action, "move") {
        MouseEventKind::Move
    } else if text::same(action, "scroll_up") {
        return Ok((MouseEventKind::Press, MouseButton::WheelUp));
    } else if text::same(action, "scroll_down") {
        return Ok((MouseEventKind::Press, MouseButton::WheelDown));
    } else {
        return Err(ActionError::UnknownMouseAction(action.to_owned()));
    };
    match parse_mouse_button(button) {
        Ok(b) => Ok((kind, b)),
        Err(e) => Err(e),
    }
}

// ---------------------------------------------------------------------------
// Actions

/// Something that is done to a terminal.
#[derive(Debug)]
pub enum TerminalAction {
    Text(String),
    Paste(String),
    Key { key: KeyCode, modifiers: KeyModifiers },
    Mouse {
        kind: MouseEventKind,
        button: MouseButton,
        x: usize,
        y: usize,
        modifiers: KeyModifiers,
    },
    Resize { columns: u16, rows: u16 },
}

/// Something that is done to a terminal.
pub enum ActionView {
    Text(Seq<char>),
    Paste(Seq<char>),
    Key { key: KeyCode, modifiers: KeyModifiers },
    Mouse {
        kind: MouseEventKind,
        button: MouseButton,
        x: usize,
        y: usize,
        modifiers: KeyModifiers,
    },
    Resize { columns: u16, rows: u16 },
}

impl View for TerminalAction {
    type V = ActionView;

    open spec fn view(&self) -> ActionView {
        match *self {
            TerminalAction::Text(s) => ActionView::Text(s@),
            TerminalAction::Paste(s) => ActionView::Paste(s@),
            TerminalAction::Key { key, modifiers } => ActionView::Key { key, modifiers },
            TerminalAction::Mouse { kind, button, x, y, modifiers } => ActionView::Mouse {
                kind,
                button,
                x,
                y,
                modifiers,
            },
            TerminalAction::Resize { columns, rows } => ActionView::Resize { columns, rows },
        }
    }
}

/// What the mouse can be used for on a terminal.
#[derive(Clone, Copy, Debug)]
pub struct MouseArea {
    pub grabbed: bool,
    pub rows: usize,
    pub columns: usize,
}

/// The button that an action names.
pub open spec fn button_name(action: JsonView) -> Seq<char> {
    match action.text_field("button"@) {
        Some(name) => name,
        None => "none"@,
    }
}

/// What an action of the mouse does. Places are counted from one.
pub open spec fn mouse_of(action: JsonView, area: MouseArea) -> Result<ActionView, ActionFault> {
    if !area.grabbed {
        Err(ActionFault::MouseUnavailable)
    } else {
        match number_field_of(action, "row"@) {
            Err(f) => Err(f),
            Ok(r) => match number_field_of(action, "column"@) {
                Err(f) => Err(f),
                Ok(c) => {
                    let row = r as usize;
                    let column = c as usize;
                    if row == 0 || row > area.rows || column == 0 || column > area.columns {
                        Err(
                            ActionFault::MouseOutside {
                                row,
                                column,
                                rows: area.rows,
                                columns: area.columns,
                            },
                        )
                    } else {
                        match text_field_of(action, "action"@) {
                            Err(f) => Err(f),
                            Ok(name) => match mouse_event_of(name, button_name(action)) {
                                Err(f) => Err(f),
                                Ok((kind, button)) => match modifiers_of(
                                    action.field("modifiers"@),
                                ) {
                                    Err(f) => Err(f),
                                    Ok(modifiers) => Ok(
                                        ActionView::Mouse {
                                            kind,
                                            button,
                                            x: (column - 1) as usize,
                                            y: (row - 1) as usize,
                                            modifiers,
                                        },
                                    ),
                                },
                            },
                        }
                    }
                },
            },
        }
    }
}

/// What a change of size does.
pub open spec fn resize_of(action: JsonView) -> Result<ActionView, ActionFault> {
    match number_field_of(action, "columns"@) {
        Err(f) => Err(f),
        Ok(columns) => match number_field_of(action, "rows"@) {
            Err(f) => Err(f),
            Ok(rows) => if 1 <= columns <= 1000 && 1 <= rows <= 500 {
                Ok(ActionView::Resize { columns: columns as u16, rows: rows as u16 })
            } else {
                Err(ActionFault::Dimensions)
            },
        },
    }
}

/// What an action does.
pub open spec fn action_of(action: JsonView, area: MouseArea) -> Result<ActionView, ActionFault> {
    match text_field_of(action, "type"@) {
        Err(f) => Err(f),
        Ok(kind) => if kind == "text"@ {
            match text_field_of(action, "text"@) {
                Ok(s) => Ok(ActionView::Text(s)),
                Err(f) => Err(f),
            }
        } else if kind == "paste"@ {
            match text_field_of(action, "text"@) {
                Ok(s) => Ok(ActionView::Paste(s)),
                Err(f) => Err(f),
            }
        } else if kind == "key"@ {
            match text_field_of(action, "key"@) {
                Err(f) => Err(f),
                Ok(name) => match key_of(name) {
                    Err(f) => Err(f),
                    Ok(key) => match modifiers_of(action.field("modifiers"@)) {
                        Err(f) => Err(f),
                        Ok(modifiers) => Ok(ActionView::Key { key, modifiers }),
                    },
                },
            }
        } else if kind == "mouse"@ {
            mouse_of(action, area)
        } else if kind == "resize"@ {
            resize_of(action)
        } else {
            Err(ActionFault::UnknownAction(kind))
        },
    }
}

/// What an action of the mouse does.
pub fn apply_mouse(action: &Json, area: MouseArea) -> (r: Result<TerminalAction, ActionError>)
    ensures
        match r {
            Ok(a) => mouse_of(action@, area) == Ok::<ActionView, ActionFault>(a@),
            Err(e) => mouse_of(action@, area) == Err::<ActionView, ActionFault>(e@),
        },
{
    if !area.grabbed {
        return Err(ActionError::MouseUnavailable);
    }
    let row: usize = match required_u64(action, "row") {
        Ok(n) => n as usize,
        Err(e) => {
            return Err(e);
        },
    };
    let column: usize = match required_u64(action, "column") {
        Ok(n) => n as usize,
        Err(e) => {
            return Err(e);
        },
    };
    if row == 0 || row > area.rows || column == 0 || column > area.columns {
        return Err(
            ActionError::MouseOutside { row, column, rows: area.rows, columns: area.columns },
        );
    }
    let name = match required_string(action, "action") {
        Ok(name) => name,
        Err(e) => {
            return Err(e);
        },
    };
    let button_text = match action.get_str("button") {
        Some(b) => b,
        None => "none",
    };
    let (kind, button) = match mouse_event(name, button_text) {
        Ok(event) => event,
        Err(e) => {
            return Err(e);
        },
    };
    match parse_modifiers(action.get("modifiers")) {
        Ok(modifiers) => Ok(
            TerminalAction::Mouse { kind, button, x: column - 1, y: row - 1, modifiers },
        ),
        Err(e) => Err(e),
    }
}

/// What a change of size does.
pub fn resize(action: &Json) -> (r: Result<TerminalAction, ActionError>)
    ensures
        match r {
            Ok(a) => resize_of(action@) == Ok::<ActionView, ActionFault>(a@),
            Err(e) => resize_of(action@) == Err::<ActionView, ActionFault>(e@),
        },
{
    let columns: u64 = match required_u64(action, "columns") {
        Ok(n) => n,
        Err(e) => {
            return Err(e);
        },
    };
    let rows: u64 = match required_u64(action, "rows") {
        Ok(n) => n,
        Err(e) => {
            return Err(e);
        },
    };
    if columns < 1 || columns > 1000 || rows < 1 || rows > 500 {
        return Err(ActionError::Dimensions);
    }
    Ok(TerminalAction::Resize { columns: columns as u16, rows: rows as u16 })
}

/// Is there anything to do?
pub fn check_actions(actions: &Vec<Json>) -> (r: Result<(), String>)
    ensures
        r is Ok == (actions@.len() > 0),
        r matches Err(e) ==> e@ == "actions cannot be empty"@,
{
    if actions.len() == 0 {
        Err("actions cannot be empty".to_owned())
    } else {
        Ok(())
    }
}

/// What an action does.
pub fn parse_action(action: &Json, area: MouseArea) -> (r: Result<TerminalAction, ActionError>)
    ensures
        match r {
            Ok(a) => action_of(action@, area) == Ok::<ActionView, ActionFault>(a@),
            Err(e) => action_of(action@, area) == Err::<ActionView, ActionFault>(e@),
        },
{
    let kind = match required_string(action, "type") {
        Ok(kind) => kind,
        Err(e) => {
            return Err(e);
        },
    };
    if text::same(kind, "text") {
        match required_string(action, "text") {
            Ok(s) => Ok(TerminalAction::Text(s.to_owned())),
            Err(e) => Err(e),
        }
    } else if text::same(kind, "paste") {
        match required_string(action, "text") {
            Ok(s) => Ok(TerminalAction::Paste(s.to_owned())),
            Err(e) => Err(e),
        }
    } else if text::same(kind, "key") {
        let name = match required_string(action, "key") {
            Ok(name) => name,
            Err(e) => {
                return Err(e);
            },
        };
        let key = match parse_key(name) {
            Ok(key) => key,
            Err(e) => {
                return Err(e);
            },
        };
        match parse_modifiers(action.get("modifiers")) {
            Ok(modifiers) => Ok(TerminalAction::Key { key, modifiers }),
            Err(e) => Err(e),
        }
    } else if text::same(kind, "mouse") {
        apply_mouse(action, area)
    } else if text::same(kind, "resize") {
        resize(action)
    } else {
        Err(ActionError::UnknownAction(kind.to_owned()))
    }
}

// ---------------------------------------------------------------------------
// What names mean

/// A character is pressed as it is named.
pub proof fn a_character_is_its_own_key(c: char)
    ensures
        key_of("Character:"@.push(c)) == Ok::<KeyCode, ActionFault>(KeyCode::Char(c)),
{
    let prefix = "Character:"@;
    let name = prefix.push(c);
    assert(name.subrange(0, prefix.len() as int) == prefix);
    assert(name.skip(prefix.len() as int) == seq![c]);
}

proof fn lemma_key_names()
    ensures
        "Enter"@.len() == 5,
        "Escape"@.len() == 6 && "Escape"@[0] == 'E',
        "Delete"@.len() == 6 && "Delete"@[0] == 'D',
        "Insert"@.len() == 6 && "Insert"@[0] == 'I',
        "PageUp"@.len() == 6 && "PageUp"@[0] == 'P',
        "Tab"@.len() == 3 && "Tab"@[0] == 'T',
        "End"@.len() == 3 && "End"@[0] == 'E',
        "Backspace"@.len() == 9 && "Backspace"@[0] == 'B' && "Backspace"@[5] == 'p',
        "ArrowDown"@.len() == 9 && "ArrowDown"@[0] == 'A' && "ArrowDown"@[5] == 'D',
        "ArrowLeft"@.len() == 9 && "ArrowLeft"@[0] == 'A' && "ArrowLeft"@[5] == 'L',
        "ArrowUp"@.len() == 7,
        "ArrowRight"@.len() == 10 && "ArrowRight"@[0] == 'A',
        "Home"@.len() == 4,
        "PageDown"@.len() == 8,
        "Character:"@.len() == 10 && "Character:"@[0] == 'C',
        "Enter"@[0] == 'E' && "ArrowUp"@[0] == 'A' && "Home"@[0] == 'H' && "PageDown"@[0] == 'P',
{
    reveal_strlit("Enter");
    reveal_strlit("Escape");
    reveal_strlit("Tab");
    reveal_strlit("Backspace");
    reveal_strlit("Delete");
    reveal_strlit("Insert");
    reveal_strlit("ArrowUp");
    reveal_strlit("ArrowDown");
    reveal_strlit("ArrowLeft");
    reveal_strlit("ArrowRight");
    reveal_strlit("Home");
    reveal_strlit("End");
    reveal_strlit("PageUp");
    reveal_strlit("PageDown");
    reveal_strlit("Character:");
}

proof fn lemma_no_character(name: Seq<char>)
    requires
        name.len() > 0,
        name[0] != 'C',
    ensures
        !text::begins_with(name, "Character:"@),
{
    lemma_key_names();
    if text::begins_with(name, "Character:"@) {
        assert(name.subrange(0, 10)[0] == name[0]);
    }
}

/// Each key is pressed by its own name, and no other name means it.
pub proof fn keys_have_their_names(name: Seq<char>)
    requires
        name.len() > 0,
        name[0] != 'C',
        name[0] != 'F',
    ensures
        name == "Enter"@ <==> key_of(name) == Ok::<KeyCode, ActionFault>(KeyCode::Enter),
        name == "Escape"@ <==> key_of(name) == Ok::<KeyCode, ActionFault>(KeyCode::Escape),
        name == "Tab"@ <==> key_of(name) == Ok::<KeyCode, ActionFault>(KeyCode::Tab),
        name == "Backspace"@ <==> key_of(name) == Ok::<KeyCode, ActionFault>(KeyCode::Backspace),
        name == "Delete"@ <==> key_of(name) == Ok::<KeyCode, ActionFault>(KeyCode::Delete),
        name == "Insert"@ <==> key_of(name) == Ok::<KeyCode, ActionFault>(KeyCode::Insert),
        name == "ArrowUp"@ <==> key_of(name) == Ok::<KeyCode, ActionFault>(KeyCode::UpArrow),
        name == "ArrowDown"@ <==> key_of(name) == Ok::<KeyCode, ActionFault>(KeyCode::DownArrow),
        name == "ArrowLeft"@ <==> key_of(name) == Ok::<KeyCode, ActionFault>(KeyCode::LeftArrow),
        name == "ArrowRight"@ <==> key_of(name) == Ok::<KeyCode, ActionFault>(KeyCode::RightArrow),
        name == "Home"@ <==> key_of(name) == Ok::<KeyCode, ActionFault>(KeyCode::Home),
        name == "End"@ <==> key_of(name) == Ok::<KeyCode, ActionFault>(KeyCode::End),
        name == "PageUp"@ <==> key_of(name) == Ok::<KeyCode, ActionFault>(KeyCode::PageUp),
        name == "PageDown"@ <==> key_of(name) == Ok::<KeyCode, ActionFault>(KeyCode::PageDown),
{
    lemma_key_names();
    lemma_no_character(name);
}

/// The function keys from the first to the twenty-fourth are pressed by their numbers, and there are no
/// others.
pub proof fn function_keys_have_their_numbers(n: nat)
    requires
        n <= 255,
    ensures
        1 <= n <= 24 ==> key_of("F"@ + text::decimal(n)) == Ok::<KeyCode, ActionFault>(
            KeyCode::Function(n as u8),
        ),
        !(1 <= n <= 24) ==> key_of("F"@ + text::decimal(n)) is Err,
{
    reveal_strlit("F");
    let name = "F"@ + text::decimal(n);
    assert(name[0] == 'F');
    lemma_no_character(name);
    lemma_key_names();
    assert(name.skip(1) == text::decimal(n));
    numbers::decimals_read_back(n);
    assert(named_key(name) is None);
}

/// Whether a value is a name, in whatever letters.
pub open spec fn is_named(value: JsonView, name: Seq<char>) -> bool {
    value matches JsonView::Text(t) && text::ascii_lower(t) == name
}

/// Whether one of the values from position `i` on is a name.
pub open spec fn names(values: Seq<JsonView>, i: int, name: Seq<char>) -> bool {
    exists|j: int| i <= j < values.len() && #[trigger] is_named(values[j], name)
}

proof fn lemma_modifier_names()
    ensures
        "shift"@.len() == 5 && "shift"@[1] == 'h',
        "alt"@.len() == 3 && "alt"@[0] == 'a',
        "option"@.len() == 6,
        "meta"@.len() == 4 && "meta"@[0] == 'm',
        "ctrl"@.len() == 4 && "ctrl"@[0] == 'c',
        "control"@.len() == 7,
        "super"@.len() == 5 && "super"@[1] == 'u',
        "cmd"@.len() == 3 && "cmd"@[0] == 'c',
        "win"@.len() == 3 && "win"@[0] == 'w',
{
    reveal_strlit("shift");
    reveal_strlit("alt");
    reveal_strlit("option");
    reveal_strlit("meta");
    reveal_strlit("ctrl");
    reveal_strlit("control");
    reveal_strlit("super");
    reveal_strlit("cmd");
    reveal_strlit("win");
}

proof fn lemma_names(values: Seq<JsonView>, i: int, name: Seq<char>)
    requires
        0 <= i < values.len(),
    ensures
        names(values, i, name) <==> is_named(values[i], name) || names(values, i + 1, name),
{
    if names(values, i, name) && !is_named(values[i], name) {
        let j = choose|j: int| i <= j < values.len() && #[trigger] is_named(values[j], name);
        assert(i + 1 <= j);
    }
}

proof fn lemma_modifiers(m: KeyModifiers, values: Seq<JsonView>, i: int)
    requires
        0 <= i <= values.len(),
    ensures
        modifiers_from(m, values, i) matches Ok(r) ==> {
            &&& r.shift == (m.shift || names(values, i, "shift"@))
            &&& r.alt == (m.alt || names(values, i, "alt"@) || names(values, i, "option"@) || names(
                values,
                i,
                "meta"@,
            ))
            &&& r.ctrl == (m.ctrl || names(values, i, "ctrl"@) || names(values, i, "control"@))
            &&& r.command == (m.command || names(values, i, "super"@) || names(values, i, "cmd"@)
                || names(values, i, "win"@))
        },
    decreases values.len() - i,
{
    lemma_modifier_names();
    if i < values.len() {
        if let JsonView::Text(t) = values[i] {
            let name = text::ascii_lower(t);
            if let Ok(next) = with_modifier(m, name) {
                lemma_modifiers(next, values, i + 1);
                lemma_names(values, i, "shift"@);
                lemma_names(values, i, "alt"@);
                lemma_names(values, i, "option"@);
                lemma_names(values, i, "meta"@);
                lemma_names(values, i, "ctrl"@);
                lemma_names(values, i, "control"@);
                lemma_names(values, i, "super"@);
                lemma_names(values, i, "cmd"@);
                lemma_names(values, i, "win"@);
            }
        }
    }
}

/// The keys that are held down are exactly those that are named.
pub proof fn the_modifiers_named_are_held(values: Seq<JsonView>)
    ensures
        modifiers_of(Some(JsonView::Array(values))) matches Ok(m) ==> {
            &&& m.shift == names(values, 0, "shift"@)
            &&& m.alt == (names(values, 0, "alt"@) || names(values, 0, "option"@) || names(
                values,
                0,
                "meta"@,
            ))
            &&& m.ctrl == (names(values, 0, "ctrl"@) || names(values, 0, "control"@))
            &&& m.command == (names(values, 0, "super"@) || names(values, 0, "cmd"@) || names(
                values,
                0,
                "win"@,
            ))
        },
        modifiers_of(None) matches Ok(m) && !m.shift && !m.alt && !m.ctrl && !m.command,
        modifiers_of(Some(JsonView::Array(Seq::empty()))) is Ok,
{
    lemma_modifiers(no_modifiers(), values, 0);
}

/// Known names are accepted, and a value that is no text or no known name is refused.
pub proof fn known_modifiers_are_accepted(m: KeyModifiers, values: Seq<JsonView>, i: int)
    requires
        0 <= i <= values.len(),
    ensures
        modifiers_from(m, values, i) is Ok <==> forall|j: int|
            i <= j < values.len() ==> is_modifier(#[trigger] values[j]),
    decreases values.len() - i,
{
    if i < values.len() {
        if let JsonView::Text(t) = values[i] {
            if let Ok(next) = with_modifier(m, text::ascii_lower(t)) {
                known_modifiers_are_accepted(next, values, i + 1);
                assert(is_modifier(values[i]));
            } else {
                assert(!is_modifier(values[i]));
            }
        } else {
            assert(!is_modifier(values[i]));
        }
    }
}

/// Whether a value is the name of a key that can be held down.
pub open spec fn is_modifier(value: JsonView) -> bool {
    ||| is_named(value, "shift"@)
    ||| is_named(value, "alt"@)
    ||| is_named(value, "option"@)
    ||| is_named(value, "meta"@)
    ||| is_named(value, "ctrl"@)
    ||| is_named(value, "control"@)
    ||| is_named(value, "super"@)
    ||| is_named(value, "cmd"@)
    ||| is_named(value, "win"@)
}

proof fn lemma_action_kinds()
    ensures
        "text"@ != "paste"@,
        "key"@ != "text"@,
        "key"@ != "paste"@,
        "mouse"@ != "text"@,
        "mouse"@ != "paste"@,
        "mouse"@ != "key"@,
        "resize"@ != "text"@,
        "resize"@ != "paste"@,
        "resize"@ != "key"@,
        "resize"@ != "mouse"@,
{
    reveal_strlit("text");
    reveal_strlit("paste");
    reveal_strlit("key");
    reveal_strlit("mouse");
    reveal_strlit("resize");
    assert("text"@.len() == 4 && "paste"@.len() == 5 && "key"@.len() == 3);
    assert("mouse"@.len() == 5 && "resize"@.len() == 6);
    assert("mouse"@[0] == 'm' && "paste"@[0] == 'p');
}

/// Text is typed and pasted as it stands.
pub proof fn text_is_sent_as_it_stands(action: JsonView, area: MouseArea, t: Seq<char>)
    requires
        action.field("text"@) == Some(JsonView::Text(t)),
    ensures
        action.field("type"@) == Some(JsonView::Text("text"@)) ==> action_of(action, area) == Ok::<
            ActionView,
            ActionFault,
        >(ActionView::Text(t)),
        action.field("type"@) == Some(JsonView::Text("paste"@)) ==> action_of(action, area) == Ok::<
            ActionView,
            ActionFault,
        >(ActionView::Paste(t)),
{
    lemma_action_kinds();
}

/// The key that is named is pressed with what is held down.
pub proof fn the_key_named_is_pressed(action: JsonView, area: MouseArea, name: Seq<char>)
    requires
        action.field("type"@) == Some(JsonView::Text("key"@)),
        action.field("key"@) == Some(JsonView::Text(name)),
    ensures
        match (key_of(name), modifiers_of(action.field("modifiers"@))) {
            (Ok(key), Ok(modifiers)) => action_of(action, area) == Ok::<ActionView, ActionFault>(
                ActionView::Key { key, modifiers },
            ),
            _ => action_of(action, area) is Err,
        },
{
    lemma_action_kinds();
}

/// The mouse is used at the place that is named, counted from one, within the terminal and only where
/// it is wanted there.
pub proof fn the_mouse_stays_on_the_terminal(action: JsonView, area: MouseArea, row: u64, column: u64)
    requires
        action.field("type"@) == Some(JsonView::Text("mouse"@)),
        action.field("row"@) == Some(JsonView::Number(json::NumberView::Unsigned(row))),
        action.field("column"@) == Some(JsonView::Number(json::NumberView::Unsigned(column))),
        row <= usize::MAX,
        column <= usize::MAX,
    ensures
        action_of(action, area) matches Ok(done) ==> {
            &&& area.grabbed
            &&& 1 <= row <= area.rows
            &&& 1 <= column <= area.columns
            &&& done matches ActionView::Mouse { kind, button, x, y, modifiers } && x + 1 == column
                && y + 1 == row && modifiers_of(action.field("modifiers"@)) == Ok::<
                KeyModifiers,
                ActionFault,
            >(modifiers)
        },
        area.grabbed && 1 <= row <= area.rows && 1 <= column <= area.columns && action.field(
            "action"@,
        ) == Some(JsonView::Text("scroll_up"@)) && action.field("modifiers"@) is None ==> (action_of(
            action,
            area,
        ) matches Ok(ActionView::Mouse { kind, button, x, y, modifiers }) && kind
            == MouseEventKind::Press && button == MouseButton::WheelUp),
{
    lemma_action_kinds();
    lemma_mouse_actions();
}

proof fn lemma_mouse_actions()
    ensures
        "press"@.len() == 5,
        "release"@.len() == 7,
        "move"@.len() == 4,
        "scroll_up"@.len() == 9,
        "scroll_down"@.len() == 11,
        "left"@.len() == 4 && "left"@[0] == 'l',
        "none"@.len() == 4 && "none"@[0] == 'n',
        "middle"@.len() == 6,
        "right"@.len() == 5,
{
    reveal_strlit("press");
    reveal_strlit("release");
    reveal_strlit("move");
    reveal_strlit("scroll_up");
    reveal_strlit("scroll_down");
    reveal_strlit("left");
    reveal_strlit("none");
    reveal_strlit("middle");
    reveal_strlit("right");
}

/// Each thing that the mouse does has its name, and so has each button; the wheel turns by its own.
pub proof fn the_mouse_does_what_is_named(action: Seq<char>, button: Seq<char>)
    ensures
        mouse_event_of(action, button) matches Ok((kind, b)) ==> {
            &&& action == "release"@ <==> kind == MouseEventKind::Release
            &&& action == "move"@ <==> kind == MouseEventKind::Move
            &&& action == "scroll_up"@ <==> b == MouseButton::WheelUp
            &&& action == "scroll_down"@ <==> b == MouseButton::WheelDown
            &&& action == "press"@ ==> kind == MouseEventKind::Press
            &&& action == "press"@ || action == "release"@ || action == "move"@ ==> {
                &&& button == "left"@ <==> b == MouseButton::Left
                &&& button == "middle"@ <==> b == MouseButton::Middle
                &&& button == "right"@ <==> b == MouseButton::Right
                &&& button == "none"@ <==> b == MouseButton::Nothing
            }
        },
        mouse_event_of("scroll_up"@, button) is Ok && mouse_event_of("scroll_down"@, button) is Ok,
        mouse_event_of("press"@, "left"@) is Ok && mouse_event_of("release"@, "right"@) is Ok
            && mouse_event_of("move"@, "none"@) is Ok && mouse_event_of("press"@, "middle"@) is Ok,
{
    lemma_mouse_actions();
}

/// A terminal gets the size that is asked for, up to a thousand columns and five hundred rows.
pub proof fn a_terminal_gets_the_size_asked_for(action: JsonView, area: MouseArea, columns: u64, rows: u64)
    requires
        action.field("type"@) == Some(JsonView::Text("resize"@)),
        action.field("columns"@) == Some(JsonView::Number(json::NumberView::Unsigned(columns))),
        action.field("rows"@) == Some(JsonView::Number(json::NumberView::Unsigned(rows))),
    ensures
        1 <= columns <= 1000 && 1 <= rows <= 500 ==> (action_of(action, area) matches Ok(
            ActionView::Resize { columns: c, rows: r },
        ) && c == columns && r == rows),
        !(1 <= columns <= 1000 && 1 <= rows <= 500) ==> action_of(action, area) is Err,
{
    lemma_action_kinds();
}

} // verus!
