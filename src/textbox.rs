//! An editable text box: what it does with each event. The text itself is
//! held by a text editor outside the library; the box decides which editor
//! action an event calls for and how its own state moves.
use vstd::prelude::*;

use crate::geometry::Vec2;
use crate::widget::{EventInterest, EventResponse, FOCUSED_KEYBOARD, MOUSE_INSIDE, MOUSE_MOVE};

verus! {

/// The properties of a text box.
pub struct TextBox {
    /// Text to put into the box, replacing what it holds.
    pub update_text: Option<String>,
    /// The space between the border and the text, on each axis.
    pub padding: Vec2,
    /// Enter ends the edit rather than breaking the line.
    pub inline_edit: bool,
    /// Shift and Enter break the line in an inline box.
    pub multiline: bool,
    /// Shown while the box is empty.
    pub placeholder: String,
}

impl TextBox {
    /// A box with the defaults: padding of 8 on each side, inline editing,
    /// a single line and no placeholder.
    pub fn new(update_text: Option<String>) -> (r: TextBox)
        ensures
            r.update_text == update_text,
            r.padding == (Vec2 { x: 8, y: 8 }),
            r.inline_edit,
            !r.multiline,
            r.placeholder@.len() == 0,
    {
        TextBox {
            update_text,
            padding: Vec2::new(8, 8),
            inline_edit: true,
            multiline: false,
            placeholder: String::new(),
        }
    }

    /// The properties for a box that starts with `initial_text` the first
    /// time it is shown and takes `updated_text` afterwards.
    pub fn with_text(initial_text: &str, updated_text: Option<&str>, first_time: bool) -> (r: TextBox)
        ensures
            first_time ==> (r.update_text matches Some(t) && t@ == initial_text@),
            !first_time ==> (match updated_text {
                Some(u) => (r.update_text matches Some(t) && t@ == u@),
                None => r.update_text is None,
            }),
            r.padding == (Vec2 { x: 8, y: 8 }),
            r.inline_edit,
            !r.multiline,
    {
        if first_time {
            TextBox::new(Some(initial_text.to_string()))
        } else {
            match updated_text {
                Some(u) => TextBox::new(Some(u.to_string())),
                None => TextBox::new(None),
            }
        }
    }
}

/// The progress of a mouse drag over the box.
#[derive(Clone, Copy, Debug, PartialEq, Eq, Structural)]
pub enum DragState {
    Idle,
    DragStart,
    Dragging,
}

/// What the box reports after an update.
pub struct TextBoxResponse {
    /// The text, where it changed since the last response.
    pub text: Option<String>,
    /// Enter was pressed in an inline box.
    pub activated: bool,
    /// The box lost the focus.
    pub lost_focus: bool,
}

/// Keys the box reacts to.
#[derive(Clone, Copy, Debug, PartialEq, Eq, Structural)]
pub enum KeyCode {
    ArrowLeft,
    ArrowRight,
    ArrowUp,
    ArrowDown,
    PageUp,
    PageDown,
    Backspace,
    Delete,
    Home,
    End,
    Enter,
    NumpadEnter,
    Escape,
    Other,
}

/// Mouse buttons.
#[derive(Clone, Copy, Debug, PartialEq, Eq, Structural)]
pub enum MouseButton {
    One,
    Two,
    Three,
}

/// Modifier keys held during an event.
#[derive(Clone, Copy, Debug, PartialEq, Eq, Structural)]
pub struct Modifiers {
    pub shift: bool,
    pub ctrl: bool,
}

/// An event as a widget receives it.
#[derive(Clone, Copy, Debug, PartialEq, Eq, Structural)]
pub enum WidgetEvent {
    FocusChanged(bool),
    MouseMoved(Option<Vec2>),
    MouseButtonChanged { button: MouseButton, inside: bool, down: bool, position: Vec2, modifiers: Modifiers },
    KeyChanged { key: KeyCode, down: bool, modifiers: Modifiers },
    TextInput(char, Modifiers),
    MouseEnter,
    MouseLeave,
}

/// Cursor motions of the editor.
#[derive(Clone, Copy, Debug, PartialEq, Eq, Structural)]
pub enum Motion {
    Left,
    Right,
    LeftWord,
    RightWord,
    Up,
    Down,
    PageUp,
    PageDown,
    Home,
    End,
}

/// An action for the text editor. Positions are relative to the text's
/// top left corner.
#[derive(Clone, Copy, Debug, PartialEq, Eq, Structural)]
pub enum EditorAction {
    Motion(Motion),
    Backspace,
    Delete,
    Enter,
    Escape,
    Insert(char),
    Click { x: i64, y: i64 },
    Drag { x: i64, y: i64 },
    /// Select the cursor's line.
    SelectLine,
    /// Put the cursor back at the start.
    ResetCursor,
}

/// What becomes of the input's selection.
#[derive(Clone, Copy, Debug, PartialEq, Eq, Structural)]
pub enum SelectionChange {
    Keep,
    /// This box becomes the selection.
    SelectThis,
    Clear,
}

/// The result of handling an event.
#[derive(Clone, Copy, Debug, PartialEq, Eq, Structural)]
pub struct EventOutcome {
    pub response: EventResponse,
    pub action: Option<EditorAction>,
    pub selection: SelectionChange,
}

/// The box's own state between events.
#[derive(Clone, Copy, Debug, PartialEq, Eq, Structural)]
pub struct BoxState {
    /// The box has the focus.
    pub active: bool,
    /// Enter ended an edit since the last response.
    pub activated: bool,
    /// The focus was lost since the last response.
    pub lost_focus: bool,
    pub drag: DragState,
    /// The text changed since the last response.
    pub text_changed: bool,
}

/// A control character: the C0 controls, delete, and the C1 controls.
pub open spec fn spec_is_control(c: char) -> bool {
    (c as u32) < 0x20 || (0x7f <= (c as u32) && (c as u32) <= 0x9f)
}

pub fn is_control(c: char) -> (r: bool)
    ensures
        r == spec_is_control(c),
{
    let v = c as u32;
    v < 0x20 || (0x7f <= v && v <= 0x9f)
}

/// The motion a key moves the cursor by, if it is a motion key.
pub open spec fn key_motion(key: KeyCode, ctrl: bool) -> Option<Motion> {
    match key {
        KeyCode::ArrowLeft => Some(if ctrl {
            Motion::LeftWord
        } else {
            Motion::Left
        }),
        KeyCode::ArrowRight => Some(if ctrl {
            Motion::RightWord
        } else {
            Motion::Right
        }),
        KeyCode::ArrowUp => Some(Motion::Up),
        KeyCode::ArrowDown => Some(Motion::Down),
        KeyCode::PageUp => Some(Motion::PageUp),
        KeyCode::PageDown => Some(Motion::PageDown),
        KeyCode::Home => Some(Motion::Home),
        KeyCode::End => Some(Motion::End),
        _ => None,
    }
}

fn motion_of(key: KeyCode, ctrl: bool) -> (r: Option<Motion>)
    ensures
        r == key_motion(key, ctrl),
{
    match key {
        KeyCode::ArrowLeft => Some(if ctrl {
            Motion::LeftWord
        } else {
            Motion::Left
        }),
        KeyCode::ArrowRight => Some(if ctrl {
            Motion::RightWord
        } else {
            Motion::Right
        }),
        KeyCode::ArrowUp => Some(Motion::Up),
        KeyCode::ArrowDown => Some(Motion::Down),
        KeyCode::PageUp => Some(Motion::PageUp),
        KeyCode::PageDown => Some(Motion::PageDown),
        KeyCode::Home => Some(Motion::Home),
        KeyCode::End => Some(Motion::End),
        _ => None,
    }
}

pub open spec fn outcome(response: EventResponse, action: Option<EditorAction>, selection: SelectionChange) -> EventOutcome {
    EventOutcome { response, action, selection }
}

/// The event handler of a text box as a transition: from the box's state,
/// its properties, whether an editor exists, where the box was laid out
/// (if it was) and the event, to the next state and the outcome.
///
/// Focus changes set the box active; losing it records the loss and puts
/// the cursor back. A press of the first button inside the box starts a
/// drag and clicks (or, with shift, drags) at the pointer, and makes the
/// box the selection; a release ends the drag. Moves continue a drag. Keys
/// move the cursor or edit while an editor exists; Enter in an inline box
/// ends the edit, unless shift breaks the line of a multiline box. Typed
/// characters are inserted, and ctrl-A selects the line; control
/// characters pass on.
pub open spec fn spec_event(
    s: BoxState,
    inline_edit: bool,
    multiline: bool,
    padding: Vec2,
    has_editor: bool,
    laid_out_at: Option<Vec2>,
    ev: WidgetEvent,
) -> (BoxState, EventOutcome) {
    let with_editor = |a: EditorAction|
        if has_editor {
            Some(a)
        } else {
            None
        };
    match ev {
        WidgetEvent::FocusChanged(focused) => if focused {
            (BoxState { active: true, ..s }, outcome(EventResponse::Sink, None, SelectionChange::Keep))
        } else {
            (
                BoxState { active: false, lost_focus: true, ..s },
                outcome(EventResponse::Sink, with_editor(EditorAction::ResetCursor), SelectionChange::Keep),
            )
        },
        WidgetEvent::MouseMoved(Some(p)) => if s.drag == DragState::DragStart {
            (BoxState { drag: DragState::Dragging, ..s }, outcome(EventResponse::Sink, None, SelectionChange::Keep))
        } else if s.drag == DragState::Dragging {
            match laid_out_at {
                Some(at) => {
                    let g = p.spec_sub(at).spec_sub(padding);
                    (s, outcome(EventResponse::Sink, with_editor(EditorAction::Drag { x: g.x, y: g.y }), SelectionChange::Keep))
                },
                None => (s, outcome(EventResponse::Sink, None, SelectionChange::Keep)),
            }
        } else {
            (s, outcome(EventResponse::Bubble, None, SelectionChange::Keep))
        },
        WidgetEvent::MouseButtonChanged { button, inside, down, position, modifiers } => if button
            != MouseButton::One {
            (s, outcome(EventResponse::Bubble, None, SelectionChange::Keep))
        } else if !inside {
            (s, outcome(EventResponse::Sink, None, SelectionChange::Keep))
        } else {
            match laid_out_at {
                Some(at) => {
                    let g = position.spec_sub(at).spec_sub(padding);
                    if down {
                        let drag = if s.drag == DragState::Idle {
                            DragState::DragStart
                        } else {
                            s.drag
                        };
                        let a = if modifiers.shift {
                            EditorAction::Drag { x: g.x, y: g.y }
                        } else {
                            EditorAction::Click { x: g.x, y: g.y }
                        };
                        (BoxState { drag, ..s }, outcome(EventResponse::Sink, with_editor(a), SelectionChange::SelectThis))
                    } else {
                        (
                            BoxState { drag: DragState::Idle, ..s },
                            outcome(EventResponse::Sink, None, SelectionChange::SelectThis),
                        )
                    }
                },
                None => (s, outcome(EventResponse::Sink, None, SelectionChange::SelectThis)),
            }
        },
        WidgetEvent::KeyChanged { key, down, modifiers } => if !has_editor {
            (s, outcome(EventResponse::Bubble, None, SelectionChange::Keep))
        } else if !down {
            (s, outcome(EventResponse::Sink, None, SelectionChange::Keep))
        } else if key_motion(key, modifiers.ctrl) is Some {
            (
                s,
                outcome(
                    EventResponse::Sink,
                    Some(EditorAction::Motion(key_motion(key, modifiers.ctrl)->Some_0)),
                    SelectionChange::Keep,
                ),
            )
        } else if key == KeyCode::Backspace {
            (BoxState { text_changed: true, ..s }, outcome(EventResponse::Sink, Some(EditorAction::Backspace), SelectionChange::Keep))
        } else if key == KeyCode::Delete {
            (BoxState { text_changed: true, ..s }, outcome(EventResponse::Sink, Some(EditorAction::Delete), SelectionChange::Keep))
        } else if key == KeyCode::Enter || key == KeyCode::NumpadEnter {
            if inline_edit && !(multiline && modifiers.shift) {
                (BoxState { activated: true, ..s }, outcome(EventResponse::Sink, None, SelectionChange::Clear))
            } else {
                (BoxState { text_changed: true, ..s }, outcome(EventResponse::Sink, Some(EditorAction::Enter), SelectionChange::Keep))
            }
        } else if key == KeyCode::Escape {
            (
                s,
                outcome(
                    EventResponse::Sink,
                    Some(EditorAction::Escape),
                    if inline_edit {
                        SelectionChange::Clear
                    } else {
                        SelectionChange::Keep
                    },
                ),
            )
        } else {
            (s, outcome(EventResponse::Sink, None, SelectionChange::Keep))
        },
        WidgetEvent::TextInput(c, modifiers) => if spec_is_control(c) {
            (s, outcome(EventResponse::Bubble, None, SelectionChange::Keep))
        } else if !has_editor {
            (s, outcome(EventResponse::Sink, None, SelectionChange::Keep))
        } else if modifiers.ctrl {
            (
                s,
                outcome(
                    EventResponse::Sink,
                    if c == 'a' || c == 'A' {
                        Some(EditorAction::SelectLine)
                    } else {
                        None
                    },
                    SelectionChange::Keep,
                ),
            )
        } else {
            (BoxState { text_changed: true, ..s }, outcome(EventResponse::Sink, Some(EditorAction::Insert(c)), SelectionChange::Keep))
        },
        _ => (s, outcome(EventResponse::Bubble, None, SelectionChange::Keep)),
    }
}

/// A text box's stored state.
pub struct TextBoxWidget {
    pub props: TextBox,
    pub state: BoxState,
}

impl TextBoxWidget {
    /// A box with default properties, inactive and not dragging.
    pub fn new() -> (r: TextBoxWidget)
        ensures
            r.props.update_text is None,
            r.state == (BoxState {
                active: false,
                activated: false,
                lost_focus: false,
                drag: DragState::Idle,
                text_changed: false,
            }),
    {
        TextBoxWidget {
            props: TextBox::new(None),
            state: BoxState {
                active: false,
                activated: false,
                lost_focus: false,
                drag: DragState::Idle,
                text_changed: false,
            },
        }
    }

    /// The events a text box asks for.
    pub fn event_interest(&self) -> (r: EventInterest)
        ensures
            r.bits == MOUSE_INSIDE | FOCUSED_KEYBOARD | MOUSE_MOVE,
    {
        EventInterest::from_bits(MOUSE_INSIDE | FOCUSED_KEYBOARD | MOUSE_MOVE)
    }

    /// Takes new properties. Text they carry reaches the editor only when
    /// the box is next laid out (`take_update_text`).
    pub fn update(&mut self, props: TextBox)
        ensures
            final(self).props == props,
            final(self).state == old(self).state,
    {
        self.props = props;
    }

    /// At layout: the text the properties carry, if any, which the editor
    /// is to take in place of its own, with the cursor put back at the
    /// start. The text counts as changed from then on, until the next
    /// response; the properties keep no text afterwards.
    pub fn take_update_text(&mut self) -> (r: Option<String>)
        ensures
            r == old(self).props.update_text,
            final(self).props.update_text is None,
            final(self).props.padding == old(self).props.padding,
            final(self).props.inline_edit == old(self).props.inline_edit,
            final(self).props.multiline == old(self).props.multiline,
            final(self).props.placeholder == old(self).props.placeholder,
            final(self).state == (BoxState {
                text_changed: old(self).state.text_changed || old(self).props.update_text is Some,
                ..old(self).state
            }),
    {
        let r = self.props.update_text.take();
        if r.is_some() {
            self.state.text_changed = true;
        }
        r
    }

    /// The response of an update: the editor's `text` where it changed since
    /// the last response, and whether the edit was ended or the focus lost
    /// since then. The recorded changes are cleared.
    pub fn respond(&mut self, text: Option<String>) -> (r: TextBoxResponse)
        ensures
            r.text == (if old(self).state.text_changed {
                text
            } else {
                None
            }),
            r.activated == old(self).state.activated,
            r.lost_focus == old(self).state.lost_focus,
            final(self).state == (BoxState {
                text_changed: false,
                activated: false,
                lost_focus: false,
                ..old(self).state
            }),
            final(self).props == old(self).props,
    {
        let r = TextBoxResponse {
            text: if self.state.text_changed {
                text
            } else {
                None
            },
            activated: self.state.activated,
            lost_focus: self.state.lost_focus,
        };
        self.state.text_changed = false;
        self.state.activated = false;
        self.state.lost_focus = false;
        r
    }

    /// Handles an event: `has_editor` tells whether the text editor exists
    /// yet, `laid_out_at` where the box was laid out, if it was.
    pub fn event(&mut self, has_editor: bool, laid_out_at: Option<Vec2>, event: &WidgetEvent) -> (r: EventOutcome)
        ensures
            (final(self).state, r) == spec_event(
                old(self).state,
                old(self).props.inline_edit,
                old(self).props.multiline,
                old(self).props.padding,
                has_editor,
                laid_out_at,
                *event,
            ),
            final(self).props == old(self).props,
    {
        let keep = SelectionChange::Keep;
        match *event {
            WidgetEvent::FocusChanged(focused) => {
                self.state.active = focused;
                if focused {
                    EventOutcome { response: EventResponse::Sink, action: None, selection: keep }
                } else {
                    self.state.lost_focus = true;
                    let action = if has_editor {
                        Some(EditorAction::ResetCursor)
                    } else {
                        None
                    };
                    EventOutcome { response: EventResponse::Sink, action, selection: keep }
                }
            },
            WidgetEvent::MouseMoved(Some(p)) => {
                if self.state.drag == DragState::DragStart {
                    self.state.drag = DragState::Dragging;
                    EventOutcome { response: EventResponse::Sink, action: None, selection: keep }
                } else if self.state.drag == DragState::Dragging {
                    let action = match laid_out_at {
                        Some(at) => {
                            let g = p.sub(at).sub(self.props.padding);
                            if has_editor {
                                Some(EditorAction::Drag { x: g.x, y: g.y })
                            } else {
                                None
                            }
                        },
                        None => None,
                    };
                    EventOutcome { response: EventResponse::Sink, action, selection: keep }
                } else {
                    EventOutcome { response: EventResponse::Bubble, action: None, selection: keep }
                }
            },
            WidgetEvent::MouseButtonChanged { button, inside, down, position, modifiers } => {
                if button != MouseButton::One {
                    return EventOutcome { response: EventResponse::Bubble, action: None, selection: keep };
                }
                if !inside {
                    return EventOutcome { response: EventResponse::Sink, action: None, selection: keep };
                }
                let mut action = None;
                if let Some(at) = laid_out_at {
                    let g = position.sub(at).sub(self.props.padding);
                    if down {
                        if self.state.drag == DragState::Idle {
                            self.state.drag = DragState::DragStart;
                        }
                        if has_editor {
                            action =
                                Some(
                                    if modifiers.shift {
                                        EditorAction::Drag { x: g.x, y: g.y }
                                    } else {
                                        EditorAction::Click { x: g.x, y: g.y }
                                    },
                                );
                        }
                    } else {
                        self.state.drag = DragState::Idle;
                    }
                }
                EventOutcome { response: EventResponse::Sink, action, selection: SelectionChange::SelectThis }
            },
            WidgetEvent::KeyChanged { key, down, modifiers } => {
                if !has_editor {
                    return EventOutcome { response: EventResponse::Bubble, action: None, selection: keep };
                }
                if !down {
                    return EventOutcome { response: EventResponse::Sink, action: None, selection: keep };
                }
                if let Some(m) = motion_of(key, modifiers.ctrl) {
                    return EventOutcome {
                        response: EventResponse::Sink,
                        action: Some(EditorAction::Motion(m)),
                        selection: keep,
                    };
                }
                match key {
                    KeyCode::Backspace => {
                        self.state.text_changed = true;
                        EventOutcome { response: EventResponse::Sink, action: Some(EditorAction::Backspace), selection: keep }
                    },
                    KeyCode::Delete => {
                        self.state.text_changed = true;
                        EventOutcome { response: EventResponse::Sink, action: Some(EditorAction::Delete), selection: keep }
                    },
                    KeyCode::Enter | KeyCode::NumpadEnter => {
                        if self.props.inline_edit && !(self.props.multiline && modifiers.shift) {
                            self.state.activated = true;
                            EventOutcome { response: EventResponse::Sink, action: None, selection: SelectionChange::Clear }
                        } else {
                            self.state.text_changed = true;
                            EventOutcome { response: EventResponse::Sink, action: Some(EditorAction::Enter), selection: keep }
                        }
                    },
                    KeyCode::Escape => {
                        let selection = if self.props.inline_edit {
                            SelectionChange::Clear
                        } else {
                            keep
                        };
                        EventOutcome { response: EventResponse::Sink, action: Some(EditorAction::Escape), selection }
                    },
                    _ => EventOutcome { response: EventResponse::Sink, action: None, selection: keep },
                }
            },
            WidgetEvent::TextInput(c, modifiers) => {
                if is_control(c) {
                    return EventOutcome { response: EventResponse::Bubble, action: None, selection: keep };
                }
                if !has_editor {
                    return EventOutcome { response: EventResponse::Sink, action: None, selection: keep };
                }
                if modifiers.ctrl {
                    let action = if c == 'a' || c == 'A' {
                        Some(EditorAction::SelectLine)
                    } else {
                        None
                    };
                    EventOutcome { response: EventResponse::Sink, action, selection: keep }
                } else {
                    self.state.text_changed = true;
                    EventOutcome { response: EventResponse::Sink, action: Some(EditorAction::Insert(c)), selection: keep }
                }
            },
            _ => EventOutcome { response: EventResponse::Bubble, action: None, selection: keep },
        }
    }
}

} // verus!
