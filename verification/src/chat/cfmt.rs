use vstd::prelude::*;
use vstd::string::{StrSliceExecFns, StringExecFns, StringSliceAdditionalSpecFns};
use vstd::utf8::{encode_utf8, decode_utf8, is_char_boundary};
use crate::chat::component::{
    Color, Component, ClickEvent, HoverEvent, EventArgument, ComponentView, EventView, ArgView,
    comp_view, comps_view, plain_view,
};

verus! {

/// What `serde_json` reads a JSON text as when a string is asked for: the string, or `None`
/// when the text is not a JSON string.
pub uninterp spec fn json_string(text: Seq<char>) -> Option<Seq<char>>;

/// Whether `serde_json` reads a text as a JSON value.
pub uninterp spec fn json_valid(text: Seq<char>) -> bool;

/// `serde_json::from_str::<String>`: the string a JSON text holds, if it holds one. What that
/// is for a given text (escapes, surrounding white space) is left to the crate.
#[verifier::external_body]
fn read_json_string(text: &str) -> (r: Option<String>)
    ensures
        match json_string(text@) {
            Some(v) => r matches Some(t) && t@ == v,
            None => r is None,
        },
{
    serde_json::from_str::<String>(text).ok()
}

/// `serde_json::from_str::<serde_json::Value>`, asked only whether it succeeds.
#[verifier::external_body]
fn is_json(text: &str) -> (b: bool)
    ensures
        b == json_valid(text@),
{
    serde_json::from_str::<serde_json::Value>(text).is_ok()
}

/// The color whose snake-case name is `name`.
pub open spec fn color_named(name: Seq<char>) -> Option<Color> {
    if name == "black"@ {
        Some(Color::Black)
    } else if name == "dark_blue"@ {
        Some(Color::DarkBlue)
    } else if name == "dark_green"@ {
        Some(Color::DarkGreen)
    } else if name == "dark_aqua"@ {
        Some(Color::DarkAqua)
    } else if name == "dark_red"@ {
        Some(Color::DarkRed)
    } else if name == "dark_purple"@ {
        Some(Color::DarkPurple)
    } else if name == "gold"@ {
        Some(Color::Gold)
    } else if name == "gray"@ {
        Some(Color::Gray)
    } else if name == "dark_gray"@ {
        Some(Color::DarkGray)
    } else if name == "blue"@ {
        Some(Color::Blue)
    } else if name == "green"@ {
        Some(Color::Green)
    } else if name == "aqua"@ {
        Some(Color::Aqua)
    } else if name == "red"@ {
        Some(Color::Red)
    } else if name == "light_purple"@ {
        Some(Color::LightPurple)
    } else if name == "yellow"@ {
        Some(Color::Yellow)
    } else if name == "white"@ {
        Some(Color::White)
    } else if name == "reset"@ {
        Some(Color::Reset)
    } else {
        None
    }
}

/// The color a JSON text names.
pub open spec fn json_color(text: Seq<char>) -> Option<Color> {
    match json_string(text) {
        Some(name) => color_named(name),
        None => None,
    }
}

/// Whether `c` is white space in the Unicode sense.
pub open spec fn is_white(c: char) -> bool {
    ||| '\t' <= c <= '\r'
    ||| c == ' '
    ||| c == '\u{85}'
    ||| c == '\u{A0}'
    ||| c == '\u{1680}'
    ||| '\u{2000}' <= c <= '\u{200A}'
    ||| c == '\u{2028}'
    ||| c == '\u{2029}'
    ||| c == '\u{202F}'
    ||| c == '\u{205F}'
    ||| c == '\u{3000}'
}

/// Whether all of `t` is white space.
pub open spec fn all_white(t: Seq<char>) -> bool {
    forall|i: int| 0 <= i < t.len() ==> is_white(t[i])
}

/// The value of a page index: an optional `+`, then decimal digits, no larger than `u32::MAX`.
pub open spec fn page_index(t: Seq<char>) -> Option<u32> {
    let d = page_digits(t);
    if d.len() == 0 || !(forall|i: int| 0 <= i < d.len() ==> '0' <= #[trigger] d[i] <= '9') {
        None
    } else if dec_value(d) > u32::MAX {
        None
    } else {
        Some(dec_value(d) as u32)
    }
}

/// The digits of a page index: all of it, or all but a leading `+` when more follows.
pub open spec fn page_digits(t: Seq<char>) -> Seq<char> {
    if t.len() > 1 && t[0] == '+' {
        t.drop_first()
    } else {
        t
    }
}

/// The value of decimal digits.
pub open spec fn dec_value(d: Seq<char>) -> nat
    decreases d.len(),
{
    if d.len() == 0 {
        0
    } else {
        (dec_value(d.drop_last()) * 10 + (d.last() as nat - '0' as nat)) as nat
    }
}

/// The outcome of a step: the next state, an error message, or an input on which reading
/// panics.
pub enum Outcome<T> {
    Next(T),
    Error(Seq<char>),
    Panic,
}

/// Reading text.
pub const ADD_TEXT: u8 = 0;
/// After a backslash: the next character is text.
pub const FORCE_ADD: u8 = 1;
/// After `&`: an open parenthesis must follow.
pub const COLOR_START: u8 = 2;
/// Reading the first color or formatting code.
pub const COLOR_BUILD_FIRST: u8 = 3;
/// Reading further formatting codes.
pub const COLOR_BUILD_EXTRA: u8 = 4;
/// After `$`: an open parenthesis must follow.
pub const EVENT_START: u8 = 5;
/// Reading the event type.
pub const EVENT_BUILD_TYPE: u8 = 6;
/// Reading the event name.
pub const EVENT_BUILD_NAME: u8 = 7;
/// Reading the event argument.
pub const EVENT_BUILD_ARG: u8 = 8;

/// The state of the parser between characters.
pub struct CfmtState {
    /// Components under construction; the last is the current one.
    pub stack: Seq<ComponentView>,
    /// Tokens being read.
    pub tokens: Seq<Seq<char>>,
    /// Whether the next formatting code turns its format on.
    pub apply_format: bool,
    /// How many braces are open.
    pub depth: nat,
    /// For each open block, whether children were appended in it.
    pub has_children: Seq<bool>,
    /// Character indices where errors may be reported from.
    pub marks: Seq<int>,
    /// Whether the current component is the argument of an event.
    pub event: bool,
    /// What the parser is reading.
    pub state: u8,
    /// The index of the current character.
    pub index: int,
}

/// The state before the first character.
pub open spec fn initial_state() -> CfmtState {
    CfmtState {
        stack: seq![plain_view(Seq::empty(), None)],
        tokens: Seq::empty(),
        apply_format: true,
        depth: 0,
        has_children: seq![false],
        marks: Seq::empty(),
        event: false,
        state: ADD_TEXT,
        index: 0,
    }
}

/// Whether a component has no text and no children.
pub open spec fn view_is_empty(c: ComponentView) -> bool {
    c.text.len() == 0 && (c.extra is None || c.extra->0.len() == 0)
}

/// A component with the given text and the color and formatting codes of `other`.
pub open spec fn copy_formatting(text: Seq<char>, other: ComponentView) -> ComponentView {
    ComponentView {
        text,
        color: other.color,
        obfuscated: other.obfuscated,
        bold: other.bold,
        strikethrough: other.strikethrough,
        underline: other.underline,
        italic: other.italic,
        insertion: None,
        click_event: None,
        hover_event: None,
        extra: None,
    }
}

/// `parent` with `child` appended to its children.
pub open spec fn append_child(parent: ComponentView, child: ComponentView) -> ComponentView {
    ComponentView {
        extra: Some(
            match parent.extra {
                Some(c) => c,
                None => Seq::empty(),
            }.push(child),
        ),
        ..parent
    }
}

/// Appends `child` to `parent`, first merging a last child of bare white space into it.
/// `None` where appending panics (a child list that is present but empty).
pub open spec fn add_child(parent: ComponentView, child: ComponentView) -> Option<ComponentView> {
    match parent.extra {
        Some(ch) => if ch.len() == 0 {
            None
        } else {
            let prev = ch.last();
            if all_white(prev.text) && prev.underline != Some(true) && prev.strikethrough != Some(
                true,
            ) {
                Some(
                    append_child(
                        ComponentView { extra: Some(ch.drop_last()), ..parent },
                        ComponentView { text: prev.text + child.text, ..child },
                    ),
                )
            } else {
                Some(append_child(parent, child))
            }
        },
        None => Some(append_child(parent, child)),
    }
}

/// Adds `child` to the last component of `stack`.
pub open spec fn add_to_top(stack: Seq<ComponentView>, child: ComponentView) -> Option<
    Seq<ComponentView>,
> {
    if stack.len() == 0 {
        None
    } else {
        match add_child(stack.last(), child) {
            Some(p) => Some(stack.drop_last().push(p)),
            None => None,
        }
    }
}

/// Closes the current component before a formatting or event sequence.
pub open spec fn finish_component(st: CfmtState) -> Outcome<CfmtState> {
    if st.stack.len() == 0 {
        Outcome::Panic
    } else if view_is_empty(st.stack.last()) {
        Outcome::Next(st)
    } else if st.has_children.len() == 0 {
        Outcome::Panic
    } else if st.has_children.last() {
        let child = st.stack.last();
        let next = copy_formatting(Seq::empty(), child);
        match add_to_top(st.stack.drop_last(), child) {
            Some(s2) => Outcome::Next(CfmtState { stack: s2.push(next), ..st }),
            None => Outcome::Panic,
        }
    } else {
        Outcome::Next(
            CfmtState {
                stack: st.stack.push(plain_view(Seq::empty(), None)),
                has_children: st.has_children.update(st.has_children.len() - 1, true),
                ..st
            },
        )
    }
}

/// Takes the current component off the stack and, unless it is empty, adds it to the one
/// below.
pub open spec fn collapse(st: CfmtState) -> Outcome<CfmtState> {
    if st.stack.len() == 0 {
        Outcome::Panic
    } else {
        let child = st.stack.last();
        let rest = st.stack.drop_last();
        if view_is_empty(child) {
            Outcome::Next(CfmtState { stack: rest, ..st })
        } else {
            match add_to_top(rest, child) {
                Some(s2) => Outcome::Next(CfmtState { stack: s2, ..st }),
                None => Outcome::Panic,
            }
        }
    }
}

/// An error quoting the input from the last mark on, at most `len` (capped at 35) bytes, or
/// a panic where there is no mark, `len` is negative or the quote would cut a character.
pub open spec fn error_at<T>(s: Seq<char>, st: CfmtState, prefix: Seq<char>, suffix: Seq<char>, len: int) -> Outcome<T> {
    if st.marks.len() == 0 || len < 0 {
        Outcome::Panic
    } else {
        let bytes = encode_utf8(s);
        let idx = st.marks.last();
        let r0 = idx + if len < 35 {
            len
        } else {
            35
        };
        let right = if r0 > bytes.len() {
            bytes.len() as int
        } else {
            r0
        };
        if idx < 0 || idx > right || !is_char_boundary(bytes, idx) || !is_char_boundary(bytes, right) {
            Outcome::Panic
        } else {
            Outcome::Error(prefix + decode_utf8(bytes.subrange(idx, right)) + suffix)
        }
    }
}

/// The marks with the last taken off, if there is one.
pub open spec fn pop_mark(m: Seq<int>) -> Seq<int> {
    if m.len() == 0 {
        m
    } else {
        m.drop_last()
    }
}

/// `a + k`, or `-1` where `a` is negative (a subtraction that underflows).
pub open spec fn plus(a: int, k: int) -> int {
    if a < 0 {
        -1
    } else {
        a + k
    }
}

/// The distance from the last mark to the current index.
pub open spec fn since_mark(st: CfmtState) -> int {
    st.index - st.marks.last()
}

/// Sets a field of the current component.
pub open spec fn set_top(st: CfmtState, c: ComponentView) -> CfmtState {
    CfmtState { stack: st.stack.drop_last().push(c), ..st }
}

/// Ends an event sequence at a closing parenthesis.
pub open spec fn finish_event(s: Seq<char>, st: CfmtState) -> Outcome<CfmtState> {
    if st.event {
        if st.has_children.len() == 0 {
            Outcome::Panic
        } else {
            let popped = st.has_children.last();
            let hc = st.has_children.drop_last();
            let stack1: Option<Seq<ComponentView>> = if popped {
                if st.stack.len() == 0 {
                    None
                } else {
                    add_to_top(st.stack.drop_last(), st.stack.last())
                }
            } else {
                Some(st.stack)
            };
            match stack1 {
                None => Outcome::Panic,
                Some(stack1) => if stack1.len() < 2 {
                    Outcome::Panic
                } else {
                    let text = stack1.last();
                    let rest = stack1.drop_last();
                    let top = ComponentView {
                        hover_event: Some(
                            EventView {
                                action: "show_text"@,
                                value: ArgView::Component(Box::new(text)),
                            },
                        ),
                        ..rest.last()
                    };
                    Outcome::Next(
                        CfmtState {
                            stack: rest.drop_last().push(top),
                            has_children: hc,
                            event: false,
                            ..st
                        },
                    )
                },
            }
        }
    } else if st.tokens.len() < 3 || st.stack.len() == 0 {
        Outcome::Panic
    } else {
        let arg = st.tokens.last();
        let name = st.tokens[st.tokens.len() - 2];
        let ty = st.tokens[st.tokens.len() - 3];
        let st1 = CfmtState { tokens: st.tokens.take(st.tokens.len() - 3), ..st };
        let c = st.stack.last();
        if ty == "hover"@ {
            if name == "show_item"@ || name == "show_entity"@ {
                if json_valid(arg) {
                    Outcome::Next(
                        set_top(
                            st1,
                            ComponentView {
                                hover_event: Some(EventView { action: name, value: ArgView::Text(arg) }),
                                ..c
                            },
                        ),
                    )
                } else if name == "show_item"@ {
                    error_at(s, st1, "Invalid argument for hover event \"show_item\": \""@, "\""@, since_mark(st1))
                } else {
                    error_at(s, st1, "Invalid argument for hover event \"show_entity\": \""@, "\""@, since_mark(st1))
                }
            } else {
                Outcome::Next(st1)
            }
        } else if name == "open_url"@ || name == "run_command"@ || name == "suggest_command"@ {
            Outcome::Next(
                set_top(
                    st1,
                    ComponentView {
                        click_event: Some(EventView { action: name, value: ArgView::Text(arg) }),
                        ..c
                    },
                ),
            )
        } else if name == "change_page"@ {
            match page_index(arg) {
                Some(i) => Outcome::Next(
                    set_top(
                        st1,
                        ComponentView {
                            click_event: Some(
                                EventView { action: "page_change"@, value: ArgView::Index(i) },
                            ),
                            ..c
                        },
                    ),
                ),
                None => error_at(s, st1, "Invalid page index for click event \"change_page\": \""@, "\""@, since_mark(st1)),
            }
        } else {
            Outcome::Next(st1)
        }
    }
}

/// `st` with one more character appended to its last token.
pub open spec fn push_token(st: CfmtState, ch: char) -> Outcome<CfmtState> {
    if st.tokens.len() == 0 {
        Outcome::Panic
    } else {
        Outcome::Next(
            CfmtState {
                tokens: st.tokens.drop_last().push(st.tokens.last().push(ch)),
                ..st
            },
        )
    }
}

/// `st` with one more character appended to the text of its current component.
pub open spec fn push_text(st: CfmtState, ch: char) -> Outcome<CfmtState> {
    if st.stack.len() == 0 {
        Outcome::Panic
    } else {
        Outcome::Next(
            set_top(st, ComponentView { text: st.stack.last().text.push(ch), ..st.stack.last() }),
        )
    }
}

/// The formatting code a token names, applied to `c` with `on`.
pub open spec fn apply_code(c: ComponentView, token: Seq<char>, on: bool) -> Option<ComponentView> {
    if token == "\"obfuscated\""@ {
        Some(ComponentView { obfuscated: Some(on), ..c })
    } else if token == "\"bold\""@ {
        Some(ComponentView { bold: Some(on), ..c })
    } else if token == "\"strikethrough\""@ {
        Some(ComponentView { strikethrough: Some(on), ..c })
    } else if token == "\"underline\""@ {
        Some(ComponentView { underline: Some(on), ..c })
    } else if token == "\"italic\""@ {
        Some(ComponentView { italic: Some(on), ..c })
    } else {
        None
    }
}

/// A comma or closing parenthesis in a formatting sequence.
pub open spec fn end_code(s: Seq<char>, st: CfmtState, ch: char) -> Outcome<CfmtState> {
    if st.tokens.len() == 0 {
        Outcome::Panic
    } else {
        let token0 = st.tokens.last();
        let st0 = CfmtState { tokens: st.tokens.drop_last(), ..st };
        if ch == ')' && encode_utf8(token0).len() == 1 {
            let st1 = CfmtState { marks: pop_mark(st0.marks), ..st0 };
            error_at(s, st1, "Dangling comma at the end of formatting sequence: \""@, "\""@, plus(since_mark(st1), 1))
        } else if st0.stack.len() == 0 {
            Outcome::Panic
        } else {
            let token = token0.push('"');
            let first = st0.state == COLOR_BUILD_FIRST;
            let color = if first { json_color(token) } else { None };
            if first && color is Some && !st0.apply_format {
                error_at(s, st0, "Negation character not allowed in front of a color code: \""@, "\""@, since_mark(st0))
            } else {
                let c0 = st0.stack.last();
                let c1 = if color is Some { ComponentView { color: color, ..c0 } } else { c0 };
                let token1 = if color is Some { Seq::<char>::empty() } else { token };
                let st2 = CfmtState {
                    state: if first { COLOR_BUILD_EXTRA } else { st0.state },
                    ..set_top(st0, c1)
                };
                let st3: Outcome<CfmtState> = if token1.len() != 0 {
                    match apply_code(c1, token1, st2.apply_format) {
                        Some(c2) => Outcome::Next(CfmtState { apply_format: true, ..set_top(st2, c2) }),
                        None => if json_color(token1) is Some {
                            let st4 = CfmtState { marks: pop_mark(st2.marks), ..st2 };
                            error_at(s, st4, "Excpected color or \"reset\" as first argument of color sequence: \""@, "...\""@, since_mark(st4))
                        } else {
                            error_at(s, st2, "Invalid color or formatting code: \""@, "\""@, since_mark(st2))
                        },
                    }
                } else {
                    Outcome::Next(st2)
                };
                match st3 {
                    Outcome::Next(st5) => {
                        let st6 = CfmtState { marks: pop_mark(st5.marks), ..st5 };
                        if ch == ',' {
                            Outcome::Next(
                                CfmtState {
                                    marks: st6.marks.push(st6.index + 1),
                                    tokens: st6.tokens.push(seq!['"']),
                                    ..st6
                                },
                            )
                        } else {
                            Outcome::Next(CfmtState { marks: pop_mark(st6.marks), state: ADD_TEXT, ..st6 })
                        }
                    },
                    other => other,
                }
            }
        }
    }
}

/// A closing brace in text.
pub open spec fn close_block(s: Seq<char>, st: CfmtState) -> Outcome<CfmtState> {
    if st.depth == 0 {
        error_at(s, CfmtState { marks: st.marks.push(st.index), ..st }, "Unpaired curly bracket: \""@, "...\""@, 10)
    } else if st.has_children.len() == 0 {
        Outcome::Panic
    } else {
        let popped = st.has_children.last();
        let st0 = CfmtState { depth: (st.depth - 1) as nat, has_children: st.has_children.drop_last(), ..st };
        let st1 = if popped { collapse(st0) } else { Outcome::Next(st0) };
        match st1 {
            Outcome::Next(st1) => if st1.stack.len() == 0 || st1.has_children.len() == 0 {
                Outcome::Panic
            } else {
                let block = st1.stack.last();
                let stack2 = st1.stack.drop_last();
                if st1.has_children.last() {
                    if stack2.len() == 0 {
                        Outcome::Panic
                    } else {
                        let reference = stack2.last();
                        let next = copy_formatting(Seq::empty(), reference);
                        match add_to_top(stack2.drop_last(), reference) {
                            None => Outcome::Panic,
                            Some(stack3) => match add_to_top(stack3, block) {
                                None => Outcome::Panic,
                                Some(stack4) => Outcome::Next(CfmtState { stack: stack4.push(next), ..st1 }),
                            },
                        }
                    }
                } else {
                    let hc = st1.has_children.update(st1.has_children.len() - 1, true);
                    match add_to_top(stack2, block) {
                        None => Outcome::Panic,
                        Some(stack3) => Outcome::Next(
                            CfmtState { stack: stack3.push(plain_view(Seq::empty(), None)), has_children: hc, ..st1 },
                        ),
                    }
                }
            },
            other => other,
        }
    }
}

/// The state after reading `ch` in state `st`, the index not yet advanced; `true` in the
/// second place when the index is not to advance.
pub open spec fn step_core(s: Seq<char>, st: CfmtState, ch: char) -> (Outcome<CfmtState>, bool) {
    if st.state == ADD_TEXT {
        if ch == '\\' {
            (Outcome::Next(CfmtState { state: FORCE_ADD, ..st }), false)
        } else if ch == '&' {
            (match finish_component(st) {
                Outcome::Next(st2) => Outcome::Next(
                    CfmtState {
                        state: COLOR_START,
                        tokens: st2.tokens.push(Seq::empty()),
                        marks: st2.marks.push(st2.index),
                        ..st2
                    },
                ),
                other => other,
            }, false)
        } else if ch == '{' {
            if st.has_children.len() == 0 || st.stack.len() == 0 {
                (Outcome::Panic, false)
            } else {
                let next = if st.has_children.last() {
                    copy_formatting(Seq::empty(), st.stack.last())
                } else {
                    plain_view(Seq::empty(), None)
                };
                (Outcome::Next(
                    CfmtState {
                        depth: st.depth + 1,
                        stack: st.stack.push(next),
                        has_children: st.has_children.push(false),
                        marks: st.marks.push(st.index),
                        ..st
                    },
                ), false)
            }
        } else if ch == '}' {
            (close_block(s, st), false)
        } else if ch == '$' {
            if st.event {
                (Outcome::Error("Events cannot be nested within components attached to events."@), false)
            } else {
                (match finish_component(st) {
                    Outcome::Next(st2) => Outcome::Next(
                        CfmtState { state: EVENT_START, marks: st2.marks.push(st2.index), ..st2 },
                    ),
                    other => other,
                }, false)
            }
        } else if ch == ')' {
            if st.event {
                (match finish_event(s, st) {
                    Outcome::Next(st2) => Outcome::Next(
                        CfmtState { state: ADD_TEXT, marks: pop_mark(st2.marks), ..st2 },
                    ),
                    other => other,
                }, false)
            } else {
                (Outcome::Next(st), false)
            }
        } else {
            (push_text(st, ch), false)
        }
    } else if st.state == FORCE_ADD {
        (match push_text(st, ch) {
            Outcome::Next(st2) => Outcome::Next(CfmtState { state: ADD_TEXT, ..st2 }),
            other => other,
        }, false)
    } else if st.state == COLOR_START {
        if ch == '(' {
            (match push_token(st, '"') {
                Outcome::Next(st2) => Outcome::Next(
                    CfmtState { state: COLOR_BUILD_FIRST, marks: st2.marks.push(st2.index + 1), ..st2 },
                ),
                other => other,
            }, false)
        } else {
            (error_at(s, st, "Expected open parenthesis after '&': \""@, "...\""@, 10), false)
        }
    } else if st.state == COLOR_BUILD_FIRST || st.state == COLOR_BUILD_EXTRA {
        if ch == ',' || ch == ')' {
            (end_code(s, st, ch), false)
        } else if ch == '!' {
            if st.tokens.len() == 0 {
                (Outcome::Panic, false)
            } else if encode_utf8(st.tokens.last()).len() == 1 {
                (Outcome::Next(CfmtState { apply_format: false, ..st }), false)
            } else if st.apply_format {
                (error_at(s, st, "Expected negation character ('!') to be at the beginning of a formatting code: \""@, "...\""@, plus(since_mark(st), 3)), false)
            } else {
                (push_token(st, ch), false)
            }
        } else {
            (push_token(st, ch), false)
        }
    } else if st.state == EVENT_START {
        if ch == '(' {
            (Outcome::Next(
                CfmtState {
                    state: EVENT_BUILD_TYPE,
                    tokens: st.tokens.push(Seq::empty()),
                    marks: st.marks.push(st.index + 1),
                    ..st
                },
            ), false)
        } else {
            (error_at(s, st, "Expected open parenthesis after '$': \""@, "...\""@, 10), false)
        }
    } else if st.state == EVENT_BUILD_TYPE {
        if ch == ':' {
            if st.tokens.len() == 0 {
                (Outcome::Panic, false)
            } else if st.tokens.last() == "hover"@ || st.tokens.last() == "click"@ {
                (Outcome::Next(
                    CfmtState {
                        tokens: st.tokens.push(Seq::empty()),
                        state: EVENT_BUILD_NAME,
                        marks: pop_mark(st.marks).push(st.index + 1),
                        ..st
                    },
                ), false)
            } else {
                (error_at(s, st, "Invalid event type, expected \"hover\" or \"click\" but found \""@, "\""@, since_mark(st)), false)
            }
        } else {
            (push_token(st, ch), false)
        }
    } else if st.state == EVENT_BUILD_NAME {
        if ch == ',' {
            if st.tokens.len() < 2 {
                (Outcome::Panic, false)
            } else {
                let ty = st.tokens[st.tokens.len() - 2];
                let name = st.tokens.last();
                let after = |st2: CfmtState|
                    CfmtState {
                        tokens: st2.tokens.push(Seq::empty()),
                        marks: pop_mark(st2.marks).push(st2.index + 1),
                        ..st2
                    };
                if ty == "hover"@ {
                    if name == "show_text"@ {
                        (Outcome::Next(
                            CfmtState {
                                state: ADD_TEXT,
                                event: true,
                                stack: st.stack.push(plain_view(Seq::empty(), None)),
                                has_children: st.has_children.push(false),
                                ..st
                            },
                        ), true)
                    } else if name == "show_item"@ || name == "show_entity"@ {
                        (Outcome::Next(after(CfmtState { state: EVENT_BUILD_ARG, ..st })), false)
                    } else {
                        (error_at(s, st, "Invalid event name for hover type: \""@, "\""@, since_mark(st)), false)
                    }
                } else if ty == "click"@ {
                    if name == "open_url"@ || name == "run_command"@ || name == "suggest_command"@
                        || name == "change_page"@ {
                        (Outcome::Next(after(CfmtState { state: EVENT_BUILD_ARG, ..st })), false)
                    } else {
                        (error_at(s, st, "Invalid event name for click type: \""@, "\""@, since_mark(st)), false)
                    }
                } else {
                    (Outcome::Next(after(st)), false)
                }
            }
        } else {
            (push_token(st, ch), false)
        }
    } else if st.state == EVENT_BUILD_ARG {
        if ch == ')' {
            (match finish_event(s, st) {
                Outcome::Next(st2) => Outcome::Next(
                    CfmtState { state: ADD_TEXT, marks: pop_mark(st2.marks), ..st2 },
                ),
                other => other,
            }, false)
        } else {
            (push_token(st, ch), false)
        }
    } else {
        (Outcome::Next(st), false)
    }
}

/// The state after reading `ch` in state `st`.
pub open spec fn step(s: Seq<char>, st: CfmtState, ch: char) -> Outcome<CfmtState> {
    let (r, stay) = step_core(s, st, ch);
    match r {
        Outcome::Next(st2) => if stay {
            Outcome::Next(st2)
        } else {
            Outcome::Next(CfmtState { index: st2.index + 1, ..st2 })
        },
        other => other,
    }
}

/// The state after reading the characters of `s` from `k` on, starting in `st`.
pub open spec fn run_from(s: Seq<char>, st: CfmtState, k: int) -> Outcome<CfmtState>
    decreases s.len() - k,
{
    if k < 0 || k >= s.len() {
        Outcome::Next(st)
    } else {
        match step(s, st, s[k]) {
            Outcome::Next(st2) => run_from(s, st2, k + 1),
            other => other,
        }
    }
}

/// Collapses the stack down to one component.
pub open spec fn collapse_all(st: CfmtState) -> Outcome<CfmtState>
    decreases st.stack.len(),
{
    if st.stack.len() <= 1 {
        Outcome::Next(st)
    } else {
        match collapse(st) {
            Outcome::Next(st2) => if st2.stack.len() < st.stack.len() {
                collapse_all(st2)
            } else {
                Outcome::Panic
            },
            other => other,
        }
    }
}

/// The component the state makes at the end of the input.
pub open spec fn finish(s: Seq<char>, st: CfmtState) -> Outcome<ComponentView> {
    if st.state == ADD_TEXT {
        if st.event {
            Outcome::Error("Incomplete event sequence at the end of the input string."@)
        } else if st.depth > 0 {
            error_at(s, st, "Unpaired curly bracket: \""@, "...\""@, 10)
        } else {
            match collapse_all(st) {
                Outcome::Next(st2) => if st2.stack.len() == 0 {
                    Outcome::Panic
                } else {
                    Outcome::Next(st2.stack.last())
                },
                Outcome::Error(m) => Outcome::Error(m),
                Outcome::Panic => Outcome::Panic,
            }
        }
    } else if st.state == FORCE_ADD {
        Outcome::Error("Expected another character after the escape character at the end of the input string."@)
    } else if st.state == COLOR_START || st.state == COLOR_BUILD_FIRST || st.state == COLOR_BUILD_EXTRA {
        Outcome::Error("Incomplete color sequence at the end of the input string."@)
    } else if st.state == EVENT_START || st.state == EVENT_BUILD_TYPE || st.state == EVENT_BUILD_NAME || st.state == EVENT_BUILD_ARG {
        Outcome::Error("Incomplete event sequence at the end of the input string."@)
    } else if st.stack.len() == 0 {
        Outcome::Panic
    } else {
        Outcome::Next(st.stack.last())
    }
}

/// What reading the chat format `s` gives: the component, an error message, or a panic of
/// the reader.
pub open spec fn from_cfmt_spec(s: Seq<char>) -> Outcome<ComponentView> {
    match run_from(s, initial_state(), 0) {
        Outcome::Next(st) => finish(s, st),
        Outcome::Error(m) => Outcome::Error(m),
        Outcome::Panic => Outcome::Panic,
    }
}

/// The tokens as character sequences.
pub open spec fn tokens_view(t: Seq<String>) -> Seq<Seq<char>> {
    Seq::new(t.len(), |i: int| t[i]@)
}

/// The marks as integers.
pub open spec fn marks_view(m: Seq<usize>) -> Seq<int> {
    Seq::new(m.len(), |i: int| m[i] as int)
}

/// The outcome of an executable step.
enum Flow {
    Next,
    Error(String),
    Panic,
}

/// Whether every character of `text` is white space.
fn all_white_exec(text: &String) -> (b: bool)
    ensures
        b == all_white(text@),
{
    let t = text.as_str();
    let n = t.unicode_len();
    let mut i: usize = 0;
    while i < n
        invariant
            n == t@.len(),
            t@ == text@,
            0 <= i <= n,
            forall|k: int| 0 <= k < i ==> is_white(t@[k]),
        decreases n - i,
    {
        let c = t.get_char(i);
        let w = ('\t' <= c && c <= '\r') || c == ' ' || c == '\u{85}' || c == '\u{A0}' || c == '\u{1680}'
            || ('\u{2000}' <= c && c <= '\u{200A}') || c == '\u{2028}' || c == '\u{2029}' || c == '\u{202F}'
            || c == '\u{205F}' || c == '\u{3000}';
        if !w {
            return false;
        }
        i += 1;
    }
    true
}

/// Appends `child` to `parent` as `add_child` does; `false` where that panics.
fn add_child_exec(parent: &mut Component, child: Component) -> (ok: bool)
    ensures
        match add_child(comp_view(*old(parent)), comp_view(child)) {
            Some(p) => ok && comp_view(*final(parent)) == p,
            None => !ok && *final(parent) == *old(parent),
        },
{
    let mut child = child;
    match parent.extra.take() {
        Some(mut ch) => {
            let n = ch.len();
            if n == 0 {
                parent.extra = Some(ch);
                return false;
            }
            let merge = all_white_exec(&ch[n - 1].text) && match ch[n - 1].underline {
                Some(true) => false,
                _ => true,
            } && match ch[n - 1].strikethrough {
                Some(true) => false,
                _ => true,
            };
            let ghost before = ch@;
            if merge {
                let prev = ch.pop().unwrap();
                let mut text = prev.text.clone();
                text.append(child.text.as_str());
                child.text = text;
                assert(comps_view(ch@) =~= comps_view(before).drop_last());
            }
            let ghost mid = ch@;
            ch.push(child);
            assert(comps_view(ch@) =~= comps_view(mid).push(comp_view(child)));
            parent.extra = Some(ch);
            proof {
                assert(comps_view(before).last() == comp_view(before.last()));
            }
            true
        },
        None => {
            let mut ch: Vec<Component> = Vec::new();
            ch.push(child);
            assert(comps_view(ch@) =~= Seq::<ComponentView>::empty().push(comp_view(child)));
            parent.extra = Some(ch);
            true
        },
    }
}

/// Adds `child` to the last component of `stack`; `false` where that panics.
fn add_to_top_exec(stack: &mut Vec<Component>, child: Component) -> (ok: bool)
    ensures
        match add_to_top(comps_view(old(stack)@), comp_view(child)) {
            Some(s) => ok && comps_view(final(stack)@) == s,
            None => !ok,
        },
{
    let ghost before = stack@;
    match stack.pop() {
        None => false,
        Some(mut top) => {
            proof {
                assert(comps_view(stack@) =~= comps_view(before).drop_last());
                assert(comps_view(before).last() == comp_view(top));
            }
            let ghost top0 = top;
            let ok = add_child_exec(&mut top, child);
            let ghost mid = stack@;
            stack.push(top);
            assert(comps_view(stack@) =~= comps_view(mid).push(comp_view(top)));
            ok
        },
    }
}

/// The executable state of the parser.
struct Parser<'a> {
    cfmt: &'a str,
    stack: Vec<Component>,
    token_stack: Vec<String>,
    apply_format: bool,
    depth: usize,
    has_children: Vec<bool>,
    index_stack: Vec<usize>,
    event: bool,
    state: u8,
    index: usize,
}

impl<'a> Parser<'a> {
    spec fn view(&self) -> CfmtState {
        CfmtState {
            stack: comps_view(self.stack@),
            tokens: tokens_view(self.token_stack@),
            apply_format: self.apply_format,
            depth: self.depth as nat,
            has_children: self.has_children@,
            marks: marks_view(self.index_stack@),
            event: self.event,
            state: self.state,
            index: self.index as int,
        }
    }

    /// The index and marks stay within the input's characters, which fit in memory.
    spec fn wf(&self) -> bool {
        &&& self.index <= self.cfmt@.len()
        &&& self.cfmt@.len() <= usize::MAX
        &&& forall|i: int| 0 <= i < self.index_stack@.len() ==> self.index_stack@[i] <= self.cfmt@.len()
    }

    /// Closes the current component before a sequence; `false` where that panics.
    fn finish_component(&mut self) -> (ok: bool)
        requires
            old(self).wf(),
        ensures
            final(self).wf(),
            final(self).cfmt == old(self).cfmt,
            final(self).index == old(self).index,
            final(self).depth <= old(self).depth,
            match finish_component(old(self).view()) {
                Outcome::Next(st) => ok && final(self).view() == st,
                _ => !ok,
            },
    {
        let ghost v0 = self.view();
        let n = self.stack.len();
        if n == 0 {
            return false;
        }
        proof {
            assert(v0.stack.last() == comp_view(self.stack@[n - 1]));
        }
        if self.stack[n - 1].is_empty() {
            return true;
        }
        let m = self.has_children.len();
        if m == 0 {
            return false;
        }
        if self.has_children[m - 1] {
            let child = self.stack.pop().unwrap();
            proof {
                assert(comps_view(self.stack@) =~= v0.stack.drop_last());
            }
            let next = Component::copy_formatting(String::new(), &child);
            if !add_to_top_exec(&mut self.stack, child) {
                return false;
            }
            let ghost mid = self.stack@;
            self.stack.push(next);
            proof {
                assert(comps_view(self.stack@) =~= comps_view(mid).push(comp_view(next)));
                assert(comp_view(next) == copy_formatting(Seq::empty(), v0.stack.last()));
            }
            true
        } else {
            let ghost mid = self.stack@;
            let fresh = Component::new(String::new(), None);
            self.stack.push(fresh);
            self.has_children.set(m - 1, true);
            proof {
                assert(comps_view(self.stack@) =~= comps_view(mid).push(comp_view(fresh)));
                assert(comp_view(fresh) =~= plain_view(Seq::empty(), None));
            }
            true
        }
    }

    /// Takes the current component off the stack and adds it to the one below unless it is
    /// empty; `false` where that panics.
    fn collapse(&mut self) -> (ok: bool)
        requires
            old(self).wf(),
        ensures
            final(self).wf(),
            final(self).cfmt == old(self).cfmt,
            final(self).index == old(self).index,
            final(self).depth <= old(self).depth,
            match collapse(old(self).view()) {
                Outcome::Next(st) => ok && final(self).view() == st,
                _ => !ok,
            },
    {
        let ghost v0 = self.view();
        match self.stack.pop() {
            None => false,
            Some(child) => {
                proof {
                    assert(comps_view(self.stack@) =~= v0.stack.drop_last());
                    assert(v0.stack.last() == comp_view(child));
                }
                if child.is_empty() {
                    true
                } else {
                    add_to_top_exec(&mut self.stack, child)
                }
            },
        }
    }

    /// The error `error_at` describes for a quote of `len` bytes (negative: a subtraction that
    /// underflowed).
    fn error_at(&self, prefix: &str, suffix: &str, len: i128) -> (r: Flow)
        requires
            self.wf(),
        ensures
            match error_at::<CfmtState>(self.cfmt@, self.view(), prefix@, suffix@, len as int) {
                Outcome::Error(m) => r matches Flow::Error(e) && e@ == m,
                _ => r is Panic,
            },
    {
        let k = self.index_stack.len();
        if k == 0 || len < 0 {
            return Flow::Panic;
        }
        let idx = self.index_stack[k - 1];
        proof {
            assert(self.view().marks.last() == idx as int);
            vstd::utf8::encode_utf8_valid_utf8(self.cfmt@);
            lemma_chars_le_bytes(self.cfmt@);
        }
        let bytes_len = self.cfmt.as_bytes().len();
        let l: usize = if len < 35 { len as usize } else { 35 };
        let right = if l > bytes_len - idx {
            bytes_len
        } else {
            idx + l
        };
        if idx > right || !self.cfmt.is_char_boundary(idx) || !self.cfmt.is_char_boundary(right) {
            return Flow::Panic;
        }
        let ghost bytes = self.cfmt.spec_bytes();
        proof {
            lemma_boundary_tail(bytes, idx as int, right as int);
        }
        let (_, tail) = self.cfmt.split_at(idx);
        let (mid, _) = tail.split_at(right - idx);
        proof {
            assert(mid.spec_bytes() =~= bytes.subrange(idx as int, right as int));
            vstd::utf8::encode_utf8_decode_utf8(mid@);
        }
        let mut e = String::from_str(prefix);
        e.append(mid);
        e.append(suffix);
        Flow::Error(e)
    }
}

/// A string has at least as many bytes as characters.
proof fn lemma_chars_le_bytes(s: Seq<char>)
    ensures
        s.len() <= encode_utf8(s).len(),
    decreases s.len(),
{
    if s.len() > 0 {
        lemma_chars_le_bytes(s.drop_first());
    }
}

/// A boundary of a string is a boundary of its part that starts at an earlier boundary.
proof fn lemma_boundary_tail(bytes: Seq<u8>, a: int, e: int)
    requires
        vstd::utf8::valid_utf8(bytes),
        0 <= a <= e <= bytes.len(),
        is_char_boundary(bytes, a),
        is_char_boundary(bytes, e),
    ensures
        vstd::utf8::valid_utf8(bytes.subrange(a, bytes.len() as int)),
        is_char_boundary(bytes.subrange(a, bytes.len() as int), e - a),
        vstd::utf8::valid_utf8(bytes.subrange(a, e)),
{
    vstd::utf8::valid_utf8_split(bytes, a);
    let t = bytes.subrange(a, bytes.len() as int);
    vstd::utf8::is_char_boundary_start_end_of_seq(t);
    if e < bytes.len() {
        vstd::utf8::is_char_boundary_iff_not_is_continuation_byte(bytes, e);
        vstd::utf8::is_char_boundary_iff_not_is_continuation_byte(t, e - a);
        assert(t[e - a] == bytes[e]);
    } else {
        assert(e - a == t.len());
    }
    vstd::utf8::valid_utf8_split(t, e - a);
    assert(t.subrange(0, e - a) =~= bytes.subrange(a, e));
}

/// Whether `a` reads `lit`.
fn eq_lit(a: &String, lit: &str) -> (b: bool)
    ensures
        b == (a@ == lit@),
{
    let l = String::from_str(lit);
    *a == l
}

/// The color whose snake-case name is `name`.
fn color_named_exec(name: &String) -> (r: Option<Color>)
    ensures
        r == color_named(name@),
{
    if eq_lit(name, "black") {
        Some(Color::Black)
    } else if eq_lit(name, "dark_blue") {
        Some(Color::DarkBlue)
    } else if eq_lit(name, "dark_green") {
        Some(Color::DarkGreen)
    } else if eq_lit(name, "dark_aqua") {
        Some(Color::DarkAqua)
    } else if eq_lit(name, "dark_red") {
        Some(Color::DarkRed)
    } else if eq_lit(name, "dark_purple") {
        Some(Color::DarkPurple)
    } else if eq_lit(name, "gold") {
        Some(Color::Gold)
    } else if eq_lit(name, "gray") {
        Some(Color::Gray)
    } else if eq_lit(name, "dark_gray") {
        Some(Color::DarkGray)
    } else if eq_lit(name, "blue") {
        Some(Color::Blue)
    } else if eq_lit(name, "green") {
        Some(Color::Green)
    } else if eq_lit(name, "aqua") {
        Some(Color::Aqua)
    } else if eq_lit(name, "red") {
        Some(Color::Red)
    } else if eq_lit(name, "light_purple") {
        Some(Color::LightPurple)
    } else if eq_lit(name, "yellow") {
        Some(Color::Yellow)
    } else if eq_lit(name, "white") {
        Some(Color::White)
    } else if eq_lit(name, "reset") {
        Some(Color::Reset)
    } else {
        None
    }
}

/// The color a JSON text names.
fn json_color_exec(token: &String) -> (r: Option<Color>)
    ensures
        r == json_color(token@),
{
    match read_json_string(token.as_str()) {
        Some(name) => color_named_exec(&name),
        None => None,
    }
}

/// The value of a page index, if `t` is one.
fn page_index_exec(t: &String) -> (r: Option<u32>)
    ensures
        r == page_index(t@),
{
    let text = t.as_str();
    let n = text.unicode_len();
    let start: usize = if n > 1 && text.get_char(0) == '+' { 1 } else { 0 };
    let ghost d = page_digits(t@);
    assert(d =~= t@.skip(start as int));
    if n == start {
        return None;
    }
    let mut value: u64 = 0;
    let mut i = start;
    while i < n
        invariant
            n == t@.len(),
            text@ == t@,
            d == t@.skip(start as int),
            d == page_digits(t@),
            start < n,
            start <= i <= n,
            forall|k: int| 0 <= k < i - start ==> '0' <= #[trigger] d[k] <= '9',
            value == dec_value(d.take(i - start)),
            value <= u32::MAX,
        decreases n - i,
    {
        let c = text.get_char(i);
        assert(d[i - start] == c);
        if !('0' <= c && c <= '9') {
            return None;
        }
        let next = value * 10 + (c as u32 - '0' as u32) as u64;
        proof {
            let dt = d.take(i + 1 - start);
            assert(dt.drop_last() =~= d.take(i - start));
            assert(dt.last() == c);
        }
        if next > 0xFFFF_FFFF {
            proof {
                if forall|k: int| 0 <= k < d.len() ==> '0' <= #[trigger] d[k] <= '9' {
                    lemma_dec_value_grows(d, (i + 1 - start) as nat);
                }
            }
            return None;
        }
        value = next;
        i += 1;
    }
    assert(d.take(n - start) =~= d);
    Some(value as u32)
}

/// The value of decimal digits never shrinks as digits are added.
proof fn lemma_dec_value_grows(d: Seq<char>, k: nat)
    requires
        k <= d.len(),
        forall|i: int| 0 <= i < d.len() ==> '0' <= #[trigger] d[i] <= '9',
    ensures
        dec_value(d.take(k as int)) <= dec_value(d),
    decreases d.len() - k,
{
    if k < d.len() {
        lemma_dec_value_grows(d, k + 1);
        let t = d.take(k as int + 1);
        assert(t.drop_last() =~= d.take(k as int));
    } else {
        assert(d.take(k as int) =~= d);
    }
}

impl<'a> Parser<'a> {
    /// Appends the character `ch`, whose text is `ch_str`, to the last token.
    fn push_token(&mut self, ch: char, ch_str: &str) -> (ok: bool)
        requires
            old(self).wf(),
            ch_str@ == seq![ch],
        ensures
            final(self).wf(),
            final(self).cfmt == old(self).cfmt,
            final(self).index == old(self).index,
            final(self).depth <= old(self).depth,
            match push_token(old(self).view(), ch) {
                Outcome::Next(st) => ok && final(self).view() == st,
                _ => !ok,
            },
    {
        let ghost v0 = self.view();
        match self.token_stack.pop() {
            None => false,
            Some(mut t) => {
                proof {
                    assert(tokens_view(self.token_stack@) =~= v0.tokens.drop_last());
                }
                let ghost mid = self.token_stack@;
                let ghost t0 = t@;
                t.append(ch_str);
                assert(t@ =~= t0.push(ch));
                self.token_stack.push(t);
                assert(tokens_view(self.token_stack@) =~= tokens_view(mid).push(t@));
                true
            },
        }
    }

    /// Appends the character `ch`, whose text is `ch_str`, to the current component's text.
    fn push_text(&mut self, ch: char, ch_str: &str) -> (ok: bool)
        requires
            old(self).wf(),
            ch_str@ == seq![ch],
        ensures
            final(self).wf(),
            final(self).cfmt == old(self).cfmt,
            final(self).index == old(self).index,
            final(self).depth <= old(self).depth,
            match push_text(old(self).view(), ch) {
                Outcome::Next(st) => ok && final(self).view() == st,
                _ => !ok,
            },
    {
        let ghost v0 = self.view();
        match self.stack.pop() {
            None => false,
            Some(mut top) => {
                proof {
                    assert(comps_view(self.stack@) =~= v0.stack.drop_last());
                    assert(v0.stack.last() == comp_view(top));
                }
                let ghost mid = self.stack@;
                let ghost t0 = top.text@;
                top.text.append(ch_str);
                assert(top.text@ =~= t0.push(ch));
                self.stack.push(top);
                assert(comps_view(self.stack@) =~= comps_view(mid).push(comp_view(top)));
                true
            },
        }
    }

    /// Sets the current component's hover or click event; `false` when there is none.
    fn set_event(&mut self, hover: bool, action: String, value: EventArgument) -> (ok: bool)
        requires
            old(self).wf(),
        ensures
            final(self).wf(),
            final(self).cfmt == old(self).cfmt,
            final(self).index == old(self).index,
            final(self).depth <= old(self).depth,
            old(self).stack@.len() == 0 ==> !ok,
            old(self).stack@.len() > 0 ==> ok && final(self).view() == set_top(
                old(self).view(),
                if hover {
                    ComponentView {
                        hover_event: Some(EventView { action: action@, value: crate::chat::component::arg_view(value) }),
                        ..old(self).view().stack.last()
                    }
                } else {
                    ComponentView {
                        click_event: Some(EventView { action: action@, value: crate::chat::component::arg_view(value) }),
                        ..old(self).view().stack.last()
                    }
                },
            ),
    {
        let ghost v0 = self.view();
        match self.stack.pop() {
            None => false,
            Some(mut top) => {
                proof {
                    assert(comps_view(self.stack@) =~= v0.stack.drop_last());
                    assert(v0.stack.last() == comp_view(top));
                }
                let ghost mid = self.stack@;
                if hover {
                    top.hover_event = Some(Box::new(HoverEvent { action, value }));
                } else {
                    top.click_event = Some(Box::new(ClickEvent { action, value }));
                }
                self.stack.push(top);
                assert(comps_view(self.stack@) =~= comps_view(mid).push(comp_view(top)));
                true
            },
        }
    }

    /// The distance from the last mark to the current index plus `k`, or `-1` where the
    /// subtraction underflows; `0` when there is no mark.
    fn since_mark(&self, k: i128) -> (r: i128)
        requires
            self.wf(),
            0 <= k <= 3,
        ensures
            self.index_stack@.len() > 0 ==> r == plus(since_mark(self.view()), k as int),
    {
        let n = self.index_stack.len();
        if n == 0 {
            return 0;
        }
        proof {
            assert(self.view().marks.last() == self.index_stack@[n - 1] as int);
        }
        let top = self.index_stack[n - 1];
        if self.index < top {
            -1
        } else {
            (self.index - top) as i128 + k
        }
    }
}

impl<'a> Parser<'a> {
    /// Takes the last mark off, if there is one.
    fn unmark(&mut self)
        requires
            old(self).wf(),
        ensures
            final(self).wf(),
            final(self).cfmt == old(self).cfmt,
            final(self).index == old(self).index,
            final(self).depth <= old(self).depth,
            final(self).view() == (CfmtState { marks: pop_mark(old(self).view().marks), ..old(self).view() }),
    {
        let ghost v0 = self.view();
        let ghost m0 = self.index_stack@;
        self.index_stack.pop();
        proof {
            if m0.len() > 0 {
                assert(marks_view(self.index_stack@) =~= v0.marks.drop_last());
            }
        }
    }

    /// Marks the position `at`.
    fn mark(&mut self, at: usize)
        requires
            old(self).wf(),
            at <= old(self).cfmt@.len(),
        ensures
            final(self).wf(),
            final(self).cfmt == old(self).cfmt,
            final(self).index == old(self).index,
            final(self).depth <= old(self).depth,
            final(self).view() == (CfmtState { marks: old(self).view().marks.push(at as int), ..old(self).view() }),
    {
        let ghost v0 = self.view();
        self.index_stack.push(at);
        assert(marks_view(self.index_stack@) =~= v0.marks.push(at as int));
    }

    /// Ends an event sequence at a closing parenthesis.
    fn finish_event(&mut self) -> (r: Flow)
        requires
            old(self).wf(),
        ensures
            final(self).wf(),
            final(self).cfmt == old(self).cfmt,
            final(self).index == old(self).index,
            final(self).depth <= old(self).depth,
            match finish_event(old(self).cfmt@, old(self).view()) {
                Outcome::Next(st) => r is Next && final(self).view() == st,
                Outcome::Error(m) => r matches Flow::Error(e) && e@ == m,
                Outcome::Panic => r is Panic,
            },
    {
        let ghost v0 = self.view();
        if self.event {
            if self.has_children.len() == 0 {
                return Flow::Panic;
            }
            let popped = self.has_children.pop().unwrap();
            if popped {
                let ghost s0 = self.stack@;
                let child = match self.stack.pop() {
                    None => {
                        return Flow::Panic;
                    },
                    Some(c) => c,
                };
                proof {
                    assert(comps_view(self.stack@) =~= comps_view(s0).drop_last());
                    assert(comps_view(s0).last() == comp_view(child));
                }
                if !add_to_top_exec(&mut self.stack, child) {
                    return Flow::Panic;
                }
            }
            let ghost stack1 = comps_view(self.stack@);
            if self.stack.len() < 2 {
                return Flow::Panic;
            }
            let ghost s1 = self.stack@;
            let text = self.stack.pop().unwrap();
            let ghost s2 = self.stack@;
            let mut top = self.stack.pop().unwrap();
            proof {
                assert(comps_view(s2) =~= stack1.drop_last());
                assert(comps_view(self.stack@) =~= stack1.drop_last().drop_last());
                assert(stack1.last() == comp_view(text));
                assert(stack1.drop_last().last() == comp_view(top));
            }
            let ghost s3 = self.stack@;
            top.hover_event = Some(Box::new(HoverEvent::show_text_component(text)));
            self.stack.push(top);
            self.event = false;
            proof {
                assert(comps_view(self.stack@) =~= comps_view(s3).push(comp_view(top)));
            }
            Flow::Next
        } else {
            if self.token_stack.len() < 3 || self.stack.len() == 0 {
                return Flow::Panic;
            }
            let ghost t0 = self.token_stack@;
            let arg = self.token_stack.pop().unwrap();
            let name = self.token_stack.pop().unwrap();
            let ty = self.token_stack.pop().unwrap();
            proof {
                assert(tokens_view(self.token_stack@) =~= v0.tokens.take(v0.tokens.len() - 3));
                assert(v0.tokens.last() == arg@);
                assert(v0.tokens[v0.tokens.len() - 2] == name@);
                assert(v0.tokens[v0.tokens.len() - 3] == ty@);
            }
            if eq_lit(&ty, "hover") {
                let item = eq_lit(&name, "show_item");
                if item || eq_lit(&name, "show_entity") {
                    if is_json(arg.as_str()) {
                        self.set_event(true, name, EventArgument::Text(arg));
                        Flow::Next
                    } else if item {
                        let len = self.since_mark(0);
                        self.error_at("Invalid argument for hover event \"show_item\": \"", "\"", len)
                    } else {
                        let len = self.since_mark(0);
                        self.error_at("Invalid argument for hover event \"show_entity\": \"", "\"", len)
                    }
                } else {
                    Flow::Next
                }
            } else if eq_lit(&name, "open_url") || eq_lit(&name, "run_command") || eq_lit(&name, "suggest_command") {
                self.set_event(false, name, EventArgument::Text(arg));
                Flow::Next
            } else if eq_lit(&name, "change_page") {
                match page_index_exec(&arg) {
                    Some(i) => {
                        self.set_event(false, String::from_str("page_change"), EventArgument::Index(i));
                        Flow::Next
                    },
                    None => {
                        let len = self.since_mark(0);
                        self.error_at("Invalid page index for click event \"change_page\": \"", "\"", len)
                    },
                }
            } else {
                Flow::Next
            }
        }
    }
}

impl<'a> Parser<'a> {
    /// Sets the current component to `c`.
    fn replace_top(&mut self, c: Component)
        requires
            old(self).wf(),
            old(self).stack@.len() > 0,
        ensures
            final(self).wf(),
            final(self).cfmt == old(self).cfmt,
            final(self).index == old(self).index,
            final(self).depth <= old(self).depth,
            final(self).view() == set_top(old(self).view(), comp_view(c)),
    {
        let ghost v0 = self.view();
        self.stack.pop();
        let ghost mid = self.stack@;
        proof {
            assert(comps_view(mid) =~= v0.stack.drop_last());
        }
        self.stack.push(c);
        assert(comps_view(self.stack@) =~= comps_view(mid).push(comp_view(c)));
    }

    /// A comma or closing parenthesis in a formatting sequence.
    #[verifier::rlimit(40)]
    fn end_code(&mut self, ch: char) -> (r: Flow)
        requires
            old(self).wf(),
            ch == ',' || ch == ')',
            old(self).index < old(self).cfmt@.len(),
        ensures
            final(self).wf(),
            final(self).cfmt == old(self).cfmt,
            final(self).index == old(self).index,
            final(self).depth <= old(self).depth,
            match end_code(old(self).cfmt@, old(self).view(), ch) {
                Outcome::Next(st) => r is Next && final(self).view() == st,
                Outcome::Error(m) => r matches Flow::Error(e) && e@ == m,
                Outcome::Panic => r is Panic,
            },
    {
        let ghost v0 = self.view();
        let mut token = match self.token_stack.pop() {
            None => {
                return Flow::Panic;
            },
            Some(t) => t,
        };
        proof {
            assert(tokens_view(self.token_stack@) =~= v0.tokens.drop_last());
            assert(v0.tokens.last() == token@);
        }
        if ch == ')' && token.as_str().as_bytes().len() == 1 {
            self.unmark();
            let len = self.since_mark(1);
            return self.error_at("Dangling comma at the end of formatting sequence: \"", "\"", len);
        }
        let n = self.stack.len();
        if n == 0 {
            return Flow::Panic;
        }
        let ghost t0 = token@;
        token.append("\"");
        proof {
            reveal_strlit("\"");
            assert(token@ =~= t0.push('"'));
        }
        let first = self.state == COLOR_BUILD_FIRST;
        let color = if first { json_color_exec(&token) } else { None };
        if first && color.is_some() && !self.apply_format {
            let len = self.since_mark(0);
            return self.error_at("Negation character not allowed in front of a color code: \"", "\"", len);
        }
        let mut c = self.stack.pop().unwrap();
        proof {
            assert(comps_view(self.stack@) =~= v0.stack.drop_last());
            assert(v0.stack.last() == comp_view(c));
        }
        let token1 = if color.is_some() {
            c.color = color;
            String::new()
        } else {
            token
        };
        let ghost mid = self.stack@;
        if token1.as_str().unicode_len() != 0 {
            let on = self.apply_format;
            if eq_lit(&token1, "\"obfuscated\"") {
                c.obfuscated = Some(on);
            } else if eq_lit(&token1, "\"bold\"") {
                c.bold = Some(on);
            } else if eq_lit(&token1, "\"strikethrough\"") {
                c.strikethrough = Some(on);
            } else if eq_lit(&token1, "\"underline\"") {
                c.underline = Some(on);
            } else if eq_lit(&token1, "\"italic\"") {
                c.italic = Some(on);
            } else {
                self.stack.push(c);
                proof {
                    assert(comps_view(self.stack@) =~= comps_view(mid).push(comp_view(c)));
                }
                if first {
                    self.state = COLOR_BUILD_EXTRA;
                }
                if json_color_exec(&token1).is_some() {
                    self.unmark();
                    let len = self.since_mark(0);
                    return self.error_at("Excpected color or \"reset\" as first argument of color sequence: \"", "...\"", len);
                } else {
                    let len = self.since_mark(0);
                    return self.error_at("Invalid color or formatting code: \"", "\"", len);
                }
            }
            self.apply_format = true;
        }
        self.stack.push(c);
        proof {
            assert(comps_view(self.stack@) =~= comps_view(mid).push(comp_view(c)));
        }
        if first {
            self.state = COLOR_BUILD_EXTRA;
        }
        self.unmark();
        if ch == ',' {
            let at = self.index + 1;
            self.mark(at);
            let ghost tk = self.token_stack@;
            let fresh = String::from_str("\"");
            proof {
                reveal_strlit("\"");
                assert(fresh@ =~= seq!['"']);
            }
            self.token_stack.push(fresh);
            proof {
                assert(tokens_view(self.token_stack@) =~= tokens_view(tk).push(seq!['"']));
            }
        } else {
            self.unmark();
            self.state = ADD_TEXT;
        }
        proof {
            let st0 = CfmtState { tokens: v0.tokens.drop_last(), ..v0 };
            assert forall|x: ComponentView, y: ComponentView| #[trigger] set_top(set_top(st0, x), y) == set_top(st0, y) by {
                assert(st0.stack.drop_last().push(x).drop_last().push(y) =~= st0.stack.drop_last().push(y));
            }
            assert forall|x: ComponentView| #[trigger] st0.stack.drop_last().push(x).drop_last() == st0.stack.drop_last() by {
                assert(st0.stack.drop_last().push(x).drop_last() =~= st0.stack.drop_last());
            }
        }
        Flow::Next
    }

    /// A closing brace in text.
    #[verifier::rlimit(40)]
    fn close_block(&mut self) -> (r: Flow)
        requires
            old(self).wf(),
        ensures
            final(self).wf(),
            final(self).cfmt == old(self).cfmt,
            final(self).index == old(self).index,
            final(self).depth <= old(self).depth,
            match close_block(old(self).cfmt@, old(self).view()) {
                Outcome::Next(st) => r is Next && final(self).view() == st,
                Outcome::Error(m) => r matches Flow::Error(e) && e@ == m,
                Outcome::Panic => r is Panic,
            },
    {
        if self.depth == 0 {
            let at = self.index;
            self.mark(at);
            return self.error_at("Unpaired curly bracket: \"", "...\"", 10);
        }
        if self.has_children.len() == 0 {
            return Flow::Panic;
        }
        self.depth -= 1;
        let popped = self.has_children.pop().unwrap();
        if popped {
            if !self.collapse() {
                return Flow::Panic;
            }
        }
        if self.stack.len() == 0 || self.has_children.len() == 0 {
            return Flow::Panic;
        }
        let ghost v1 = self.view();
        let block = self.stack.pop().unwrap();
        proof {
            assert(comps_view(self.stack@) =~= v1.stack.drop_last());
            assert(v1.stack.last() == comp_view(block));
        }
        let m = self.has_children.len();
        if self.has_children[m - 1] {
            let ghost v2 = comps_view(self.stack@);
            let reference = match self.stack.pop() {
                None => {
                    return Flow::Panic;
                },
                Some(x) => x,
            };
            proof {
                assert(comps_view(self.stack@) =~= v2.drop_last());
                assert(v2.last() == comp_view(reference));
            }
            let next = Component::copy_formatting(String::new(), &reference);
            if !add_to_top_exec(&mut self.stack, reference) {
                return Flow::Panic;
            }
            if !add_to_top_exec(&mut self.stack, block) {
                return Flow::Panic;
            }
            let ghost s4 = self.stack@;
            self.stack.push(next);
            proof {
                assert(comps_view(self.stack@) =~= comps_view(s4).push(comp_view(next)));
                assert(comp_view(next) == copy_formatting(Seq::empty(), v2.last()));
            }
            Flow::Next
        } else {
            self.has_children.set(m - 1, true);
            if !add_to_top_exec(&mut self.stack, block) {
                return Flow::Panic;
            }
            let ghost s3 = self.stack@;
            let fresh = Component::new(String::new(), None);
            self.stack.push(fresh);
            proof {
                assert(comps_view(self.stack@) =~= comps_view(s3).push(comp_view(fresh)));
                assert(comp_view(fresh) =~= plain_view(Seq::empty(), None));
            }
            Flow::Next
        }
    }
}

/// Whether an executable outcome matches a specified one, the state being `st` after it.
spec fn flow_matches(r: Flow, o: Outcome<CfmtState>, st: CfmtState) -> bool {
    match o {
        Outcome::Next(s2) => r is Next && st == s2,
        Outcome::Error(m) => r matches Flow::Error(e) && e@ == m,
        Outcome::Panic => r is Panic,
    }
}

impl<'a> Parser<'a> {
    /// Reads the character `ch`, whose text is `ch_str`, without advancing the index; the
    /// second result tells when the index must not advance.
    #[verifier::rlimit(60)]
    fn step_core(&mut self, ch: char, ch_str: &str) -> (r: (Flow, bool))
        requires
            old(self).wf(),
            old(self).depth <= old(self).index,
            ch_str@ == seq![ch],
            old(self).index < old(self).cfmt@.len(),
        ensures
            final(self).wf(),
            final(self).cfmt == old(self).cfmt,
            final(self).index == old(self).index,
            flow_matches(r.0, step_core(old(self).cfmt@, old(self).view(), ch).0, final(self).view()),
            r.0 is Next ==> r.1 == step_core(old(self).cfmt@, old(self).view(), ch).1,
            final(self).depth <= old(self).depth + 1,
            r.0 is Next && r.1 ==> final(self).depth == old(self).depth,
    {
        let ghost v0 = self.view();
        if self.state == ADD_TEXT {
            if ch == '\\' {
                self.state = FORCE_ADD;
                (Flow::Next, false)
            } else if ch == '&' {
                if !self.finish_component() {
                    return (Flow::Panic, false);
                }
                self.state = COLOR_START;
                let ghost tk = self.token_stack@;
                self.token_stack.push(String::new());
                assert(tokens_view(self.token_stack@) =~= tokens_view(tk).push(Seq::empty()));
                let at = self.index;
                self.mark(at);
                (Flow::Next, false)
            } else if ch == '{' {
                let m = self.has_children.len();
                let n = self.stack.len();
                if m == 0 || n == 0 {
                    return (Flow::Panic, false);
                }
                proof {
                    assert(v0.stack.last() == comp_view(self.stack@[n - 1]));
                }
                let next = if self.has_children[m - 1] {
                    Component::copy_formatting(String::new(), &self.stack[n - 1])
                } else {
                    Component::new(String::new(), None)
                };
                assert(comp_view(next) == (if v0.has_children.last() {
                    copy_formatting(Seq::empty(), v0.stack.last())
                } else {
                    plain_view(Seq::empty(), None)
                }));
                self.depth += 1;
                let ghost sk = self.stack@;
                self.stack.push(next);
                assert(comps_view(self.stack@) =~= comps_view(sk).push(comp_view(next)));
                self.has_children.push(false);
                let at = self.index;
                self.mark(at);
                (Flow::Next, false)
            } else if ch == '}' {
                (self.close_block(), false)
            } else if ch == '$' {
                if self.event {
                    return (Flow::Error(String::from_str("Events cannot be nested within components attached to events.")), false);
                }
                if !self.finish_component() {
                    return (Flow::Panic, false);
                }
                self.state = EVENT_START;
                let at = self.index;
                self.mark(at);
                (Flow::Next, false)
            } else if ch == ')' {
                if self.event {
                    match self.finish_event() {
                        Flow::Next => {
                            self.state = ADD_TEXT;
                            self.unmark();
                            (Flow::Next, false)
                        },
                        other => (other, false),
                    }
                } else {
                    (Flow::Next, false)
                }
            } else {
                if self.push_text(ch, ch_str) {
                    (Flow::Next, false)
                } else {
                    (Flow::Panic, false)
                }
            }
        } else if self.state == FORCE_ADD {
            if self.push_text(ch, ch_str) {
                self.state = ADD_TEXT;
                (Flow::Next, false)
            } else {
                (Flow::Panic, false)
            }
        } else if self.state == COLOR_START {
            if ch == '(' {
                let quote = "\"";
                proof {
                    reveal_strlit("\"");
                    assert(quote@ =~= seq!['"']);
                }
                if !self.push_token('"', quote) {
                    return (Flow::Panic, false);
                }
                self.state = COLOR_BUILD_FIRST;
                let at = self.index + 1;
                self.mark(at);
                (Flow::Next, false)
            } else {
                (self.error_at("Expected open parenthesis after '&': \"", "...\"", 10), false)
            }
        } else if self.state == COLOR_BUILD_FIRST || self.state == COLOR_BUILD_EXTRA {
            if ch == ',' || ch == ')' {
                (self.end_code(ch), false)
            } else if ch == '!' {
                let k = self.token_stack.len();
                if k == 0 {
                    return (Flow::Panic, false);
                }
                proof {
                    assert(v0.tokens.last() == self.token_stack@[k - 1]@);
                }
                if self.token_stack[k - 1].as_str().as_bytes().len() == 1 {
                    self.apply_format = false;
                    (Flow::Next, false)
                } else if self.apply_format {
                    let len = self.since_mark(3);
                    (self.error_at("Expected negation character ('!') to be at the beginning of a formatting code: \"", "...\"", len), false)
                } else if self.push_token(ch, ch_str) {
                    (Flow::Next, false)
                } else {
                    (Flow::Panic, false)
                }
            } else if self.push_token(ch, ch_str) {
                (Flow::Next, false)
            } else {
                (Flow::Panic, false)
            }
        } else if self.state == EVENT_START {
            if ch == '(' {
                self.state = EVENT_BUILD_TYPE;
                let ghost tk = self.token_stack@;
                self.token_stack.push(String::new());
                assert(tokens_view(self.token_stack@) =~= tokens_view(tk).push(Seq::empty()));
                let at = self.index + 1;
                self.mark(at);
                (Flow::Next, false)
            } else {
                (self.error_at("Expected open parenthesis after '$': \"", "...\"", 10), false)
            }
        } else if self.state == EVENT_BUILD_TYPE {
            if ch == ':' {
                let k = self.token_stack.len();
                if k == 0 {
                    return (Flow::Panic, false);
                }
                proof {
                    assert(v0.tokens.last() == self.token_stack@[k - 1]@);
                }
                if eq_lit(&self.token_stack[k - 1], "hover") || eq_lit(&self.token_stack[k - 1], "click") {
                    let ghost tk = self.token_stack@;
                    self.token_stack.push(String::new());
                    assert(tokens_view(self.token_stack@) =~= tokens_view(tk).push(Seq::empty()));
                    self.state = EVENT_BUILD_NAME;
                    self.unmark();
                    let at = self.index + 1;
                    self.mark(at);
                    (Flow::Next, false)
                } else {
                    let len = self.since_mark(0);
                    (self.error_at("Invalid event type, expected \"hover\" or \"click\" but found \"", "\"", len), false)
                }
            } else if self.push_token(ch, ch_str) {
                (Flow::Next, false)
            } else {
                (Flow::Panic, false)
            }
        } else if self.state == EVENT_BUILD_NAME {
            if ch == ',' {
                let k = self.token_stack.len();
                if k < 2 {
                    return (Flow::Panic, false);
                }
                proof {
                    assert(v0.tokens.last() == self.token_stack@[k - 1]@);
                    assert(v0.tokens[v0.tokens.len() - 2] == self.token_stack@[k - 2]@);
                }
                let hover = eq_lit(&self.token_stack[k - 2], "hover");
                if hover && eq_lit(&self.token_stack[k - 1], "show_text") {
                    self.state = ADD_TEXT;
                    self.event = true;
                    let ghost sk = self.stack@;
                    let fresh = Component::new(String::new(), None);
                    self.stack.push(fresh);
                    proof {
                        assert(comps_view(self.stack@) =~= comps_view(sk).push(comp_view(fresh)));
                        assert(comp_view(fresh) =~= plain_view(Seq::empty(), None));
                    }
                    self.has_children.push(false);
                    return (Flow::Next, true);
                }
                if hover {
                    if !(eq_lit(&self.token_stack[k - 1], "show_item") || eq_lit(&self.token_stack[k - 1], "show_entity")) {
                        let len = self.since_mark(0);
                        return (self.error_at("Invalid event name for hover type: \"", "\"", len), false);
                    }
                    self.state = EVENT_BUILD_ARG;
                } else if eq_lit(&self.token_stack[k - 2], "click") {
                    let name = &self.token_stack[k - 1];
                    if !(eq_lit(name, "open_url") || eq_lit(name, "run_command") || eq_lit(name, "suggest_command") || eq_lit(name, "change_page")) {
                        let len = self.since_mark(0);
                        return (self.error_at("Invalid event name for click type: \"", "\"", len), false);
                    }
                    self.state = EVENT_BUILD_ARG;
                }
                let ghost tk = self.token_stack@;
                self.token_stack.push(String::new());
                assert(tokens_view(self.token_stack@) =~= tokens_view(tk).push(Seq::empty()));
                self.unmark();
                let at = self.index + 1;
                self.mark(at);
                (Flow::Next, false)
            } else if self.push_token(ch, ch_str) {
                (Flow::Next, false)
            } else {
                (Flow::Panic, false)
            }
        } else if self.state == EVENT_BUILD_ARG {
            if ch == ')' {
                match self.finish_event() {
                    Flow::Next => {
                        self.state = ADD_TEXT;
                        self.unmark();
                        (Flow::Next, false)
                    },
                    other => (other, false),
                }
            } else if self.push_token(ch, ch_str) {
                (Flow::Next, false)
            } else {
                (Flow::Panic, false)
            }
        } else {
            (Flow::Next, false)
        }
    }
}

impl<'a> Parser<'a> {
    /// Reads the character `ch`, whose text is `ch_str`, and advances the index unless the
    /// step says otherwise.
    fn step(&mut self, ch: char, ch_str: &str) -> (r: Flow)
        requires
            old(self).wf(),
            old(self).depth <= old(self).index,
            ch_str@ == seq![ch],
            old(self).index < old(self).cfmt@.len(),
        ensures
            final(self).wf(),
            final(self).cfmt == old(self).cfmt,
            r is Next ==> final(self).depth <= final(self).index,
            final(self).index <= old(self).index + 1,
            flow_matches(r, step(old(self).cfmt@, old(self).view(), ch), final(self).view()),
    {
        let ghost d0 = self.depth;
        let ghost i0 = self.index;
        let (r, stay) = self.step_core(ch, ch_str);
        match r {
            Flow::Next => {
                assert(stay ==> self.depth == d0);
                assert(self.depth <= d0 + 1);
                assert(self.index == i0);
                if !stay {
                    self.index = self.index + 1;
                }
                assert(self.depth <= self.index);
                Flow::Next
            },
            other => other,
        }
    }

    /// Collapses the stack down to one component; `false` where that panics.
    fn collapse_all(&mut self) -> (ok: bool)
        requires
            old(self).wf(),
        ensures
            final(self).wf(),
            final(self).cfmt == old(self).cfmt,
            final(self).index == old(self).index,
            match collapse_all(old(self).view()) {
                Outcome::Next(st) => ok && final(self).view() == st,
                _ => !ok,
            },
    {
        let ghost v0 = self.view();
        let ghost c0 = self.cfmt;
        let ghost i0 = self.index;
        while self.stack.len() > 1
            invariant
                self.wf(),
                self.cfmt == c0,
                self.index == i0,
                c0 == old(self).cfmt,
                i0 == old(self).index,
                collapse_all(self.view()) == collapse_all(old(self).view()),
            decreases self.stack.len(),
        {
            let n = self.stack.len();
            let ghost vb = self.view();
            assert(vb.stack.len() == n);
            if !self.collapse() {
                return false;
            }
            assert(self.view().stack.len() == self.stack.len());
            if self.stack.len() >= n {
                assert(collapse_all(vb) is Panic);
                return false;
            }
        }
        true
    }

    /// The component made at the end of the input, or the error; `Err(None)` where reading
    /// panics.
    fn finish(&mut self) -> (r: Result<Component, Option<String>>)
        requires
            old(self).wf(),
        ensures
            match finish(old(self).cfmt@, old(self).view()) {
                Outcome::Next(c) => r matches Ok(x) && comp_view(x) == c,
                Outcome::Error(m) => r matches Err(Some(e)) && e@ == m,
                Outcome::Panic => r matches Err(None),
            },
    {
        let ghost v0 = self.view();
        if self.state == ADD_TEXT {
            if self.event {
                return Err(Some(String::from_str("Incomplete event sequence at the end of the input string.")));
            }
            if self.depth > 0 {
                return match self.error_at("Unpaired curly bracket: \"", "...\"", 10) {
                    Flow::Error(e) => Err(Some(e)),
                    _ => Err(None),
                };
            }
            if !self.collapse_all() {
                proof {
                    lemma_collapse_all_no_error(v0);
                }
                return Err(None);
            }
            let ghost v1 = self.view();
            match self.stack.pop() {
                Some(c) => {
                    assert(v1.stack.last() == comp_view(c));
                    Ok(c)
                },
                None => Err(None),
            }
        } else if self.state == FORCE_ADD {
            Err(Some(String::from_str("Expected another character after the escape character at the end of the input string.")))
        } else if self.state == COLOR_START || self.state == COLOR_BUILD_FIRST || self.state == COLOR_BUILD_EXTRA {
            Err(Some(String::from_str("Incomplete color sequence at the end of the input string.")))
        } else if self.state == EVENT_START || self.state == EVENT_BUILD_TYPE || self.state == EVENT_BUILD_NAME
            || self.state == EVENT_BUILD_ARG {
            Err(Some(String::from_str("Incomplete event sequence at the end of the input string.")))
        } else {
            match self.stack.pop() {
                Some(c) => {
                    assert(v0.stack.last() == comp_view(c));
                    Ok(c)
                },
                None => Err(None),
            }
        }
    }
}

/// Collapsing the stack never reports an error.
proof fn lemma_collapse_all_no_error(st: CfmtState)
    ensures
        !(collapse_all(st) is Error),
    decreases st.stack.len(),
{
    if st.stack.len() > 1 {
        if let Outcome::Next(st2) = collapse(st) {
            if st2.stack.len() < st.stack.len() {
                lemma_collapse_all_no_error(st2);
            }
        }
    }
}

/// Reads the chat format `cfmt` into a component, or the error message that describes what
/// is wrong with it; `None` on the inputs on which the format's reader gives up without a
/// message (a quote that would cut a character in two, or a malformed structure).
pub fn try_from_cfmt(cfmt: &str) -> (r: Option<Result<Component, String>>)
    ensures
        match from_cfmt_spec(cfmt@) {
            Outcome::Next(c) => r matches Some(Ok(x)) && comp_view(x) == c,
            Outcome::Error(m) => r matches Some(Err(e)) && e@ == m,
            Outcome::Panic => r is None,
        },
{
    proof {
        vstd::utf8::encode_utf8_valid_utf8(cfmt@);
        lemma_chars_le_bytes(cfmt@);
    }
    let bytes_len = cfmt.as_bytes().len();
    assert(cfmt@.len() <= bytes_len);
    let mut stack: Vec<Component> = Vec::new();
    let first = Component::new(String::new(), None);
    stack.push(first);
    let mut has_children: Vec<bool> = Vec::new();
    has_children.push(false);
    let mut p = Parser {
        cfmt,
        stack,
        token_stack: Vec::new(),
        apply_format: true,
        depth: 0,
        has_children,
        index_stack: Vec::new(),
        event: false,
        state: ADD_TEXT,
        index: 0,
    };
    proof {
        assert(comp_view(first) =~= plain_view(Seq::empty(), None));
        assert(comps_view(p.stack@) =~= seq![plain_view(Seq::empty(), None)]);
        assert(tokens_view(p.token_stack@) =~= Seq::<Seq<char>>::empty());
        assert(marks_view(p.index_stack@) =~= Seq::<int>::empty());
        assert(p.has_children@ =~= seq![false]);
        assert(p.view() == initial_state());
    }
    let n = cfmt.unicode_len();
    let mut k: usize = 0;
    while k < n
        invariant
            n == cfmt@.len(),
            p.cfmt == cfmt,
            p.wf(),
            k <= n,
            p.index <= k,
            p.depth <= p.index,
            run_from(cfmt@, p.view(), k as int) == run_from(cfmt@, initial_state(), 0),
        decreases n - k,
    {
        let ch = cfmt.get_char(k);
        let ch_str = cfmt.substring_char(k, k + 1);
        assert(ch_str@ =~= seq![ch]);
        match p.step(ch, ch_str) {
            Flow::Next => {},
            Flow::Error(e) => {
                return Some(Err(e));
            },
            Flow::Panic => {
                return None;
            },
        }
        k += 1;
    }
    match p.finish() {
        Ok(c) => Some(Ok(c)),
        Err(Some(e)) => Some(Err(e)),
        Err(None) => None,
    }
}

/// Reads the chat format `cfmt` into a component, or the error message that describes what
/// is wrong with it.
pub fn from_cfmt(cfmt: &str) -> (r: Result<Component, String>)
    requires
        !(from_cfmt_spec(cfmt@) is Panic),
    ensures
        match from_cfmt_spec(cfmt@) {
            Outcome::Next(c) => r matches Ok(x) && comp_view(x) == c,
            Outcome::Error(m) => r matches Err(e) && e@ == m,
            Outcome::Panic => false,
        },
{
    match try_from_cfmt(cfmt) {
        Some(r) => r,
        None => vstd::pervasive::unreached(),
    }
}

/// Whether `c` is read as text in the text state: not an escape, a brace or the start or end of
/// a sequence.
pub open spec fn is_plain_char(c: char) -> bool {
    c != '\\' && c != '&' && c != '{' && c != '}' && c != '$' && c != ')'
}

/// The state after reading the plain text `t` from the start.
pub open spec fn plain_state(t: Seq<char>) -> CfmtState {
    CfmtState { stack: seq![plain_view(t, None)], index: t.len() as int, ..initial_state() }
}

/// Reading plain text from position `k` on only appends it to the one component.
proof fn lemma_run_plain(s: Seq<char>, k: int)
    requires
        0 <= k <= s.len(),
        forall|i: int| 0 <= i < s.len() ==> is_plain_char(s[i]),
    ensures
        run_from(s, plain_state(s.take(k)), k) == Outcome::<CfmtState>::Next(plain_state(s)),
    decreases s.len() - k,
{
    if k == s.len() {
        assert(s.take(k) =~= s);
    } else {
        let st = plain_state(s.take(k));
        assert(st.stack.last() == plain_view(s.take(k), None));
        assert(s.take(k).push(s[k]) =~= s.take(k + 1));
        assert(step(s, st, s[k]) == Outcome::<CfmtState>::Next(plain_state(s.take(k + 1)))) by {
            assert(seq![plain_view(s.take(k), None)].drop_last().push(plain_view(s.take(k + 1), None))
                =~= seq![plain_view(s.take(k + 1), None)]);
        }
        lemma_run_plain(s, k + 1);
    }
}

/// Text without escapes, braces or sequences reads as one component holding exactly that text
/// with no formatting.
pub proof fn law_plain_text(s: Seq<char>)
    requires
        forall|i: int| 0 <= i < s.len() ==> is_plain_char(s[i]),
    ensures
        from_cfmt_spec(s) == Outcome::<ComponentView>::Next(plain_view(s, None)),
{
    assert(s.take(0) =~= Seq::<char>::empty());
    assert(plain_state(s.take(0)) == initial_state());
    lemma_run_plain(s, 0);
}

/// The state after plain text `t` read into a single component of color `color`, at `index`.
pub open spec fn colored_state(t: Seq<char>, color: Option<Color>, index: int) -> CfmtState {
    CfmtState { stack: seq![plain_view(t, color)], index, ..initial_state() }
}

/// The state inside the first code of a color sequence opened at the start of the input, the
/// code read so far being `tok`, at `index`.
pub open spec fn code_state(tok: Seq<char>, index: int) -> CfmtState {
    CfmtState {
        tokens: seq![seq!['"'] + tok],
        marks: seq![0, 2],
        state: COLOR_BUILD_FIRST,
        index,
        ..initial_state()
    }
}

/// Reading plain text from `k` on appends it to the one component, keeping its color.
proof fn lemma_run_colored(s: Seq<char>, b: int, k: int, color: Option<Color>)
    requires
        0 <= b <= k <= s.len(),
        forall|i: int| b <= i < s.len() ==> is_plain_char(s[i]),
    ensures
        run_from(s, colored_state(s.subrange(b, k), color, k), k) == Outcome::<CfmtState>::Next(
            colored_state(s.subrange(b, s.len() as int), color, s.len() as int),
        ),
    decreases s.len() - k,
{
    if k < s.len() {
        let st = colored_state(s.subrange(b, k), color, k);
        assert(s.subrange(b, k).push(s[k]) =~= s.subrange(b, k + 1));
        assert(step(s, st, s[k]) == Outcome::<CfmtState>::Next(colored_state(s.subrange(b, k + 1), color, k + 1))) by {
            assert(seq![plain_view(s.subrange(b, k), color)].drop_last().push(
                plain_view(s.subrange(b, k + 1), color),
            ) =~= seq![plain_view(s.subrange(b, k + 1), color)]);
        }
        lemma_run_colored(s, b, k + 1, color);
    }
}

/// Reading the characters of a code, none of them a comma, a closing parenthesis or `!`, adds
/// them to the code.
proof fn lemma_run_code(s: Seq<char>, k: int, e: int)
    requires
        2 <= k <= e < s.len(),
        forall|i: int| 2 <= i < e ==> s[i] != ',' && s[i] != ')' && s[i] != '!',
    ensures
        run_from(s, code_state(s.subrange(2, k), k), k) == run_from(s, code_state(s.subrange(2, e), e), e),
    decreases e - k,
{
    if k < e {
        let st = code_state(s.subrange(2, k), k);
        assert(seq!['"'] + s.subrange(2, k + 1) =~= (seq!['"'] + s.subrange(2, k)).push(s[k]));
        assert(step(s, st, s[k]) == Outcome::<CfmtState>::Next(code_state(s.subrange(2, k + 1), k + 1))) by {
            assert(seq![seq!['"'] + s.subrange(2, k)].drop_last().push((seq!['"'] + s.subrange(2, k)).push(s[k]))
                =~= seq![seq!['"'] + s.subrange(2, k + 1)]);
        }
        lemma_run_code(s, k + 1, e);
    }
}

/// A color sequence naming one color, followed by plain text, reads as one component holding
/// that text in that color: `&(name)text` where the code `"name"`, read as JSON, is the color.
pub proof fn law_color_code(name: Seq<char>, t: Seq<char>, c: Color)
    requires
        name.len() > 0,
        forall|i: int| 0 <= i < name.len() ==> name[i] != ',' && name[i] != ')' && name[i] != '!',
        json_color(seq!['"'] + name + seq!['"']) == Some(c),
        forall|i: int| 0 <= i < t.len() ==> is_plain_char(t[i]),
    ensures
        from_cfmt_spec(seq!['&', '('] + name + seq![')'] + t) == Outcome::<ComponentView>::Next(
            plain_view(t, Some(c)),
        ),
{
    let s = seq!['&', '('] + name + seq![')'] + t;
    let e: int = (2 + name.len()) as int;
    assert(s[0] == '&' && s[1] == '(' && s[e] == ')');
    assert(s.subrange(2, e) =~= name);
    assert(s.subrange(e + 1, s.len() as int) =~= t);
    assert forall|i: int| 2 <= i < e implies s[i] != ',' && s[i] != ')' && s[i] != '!' by {
        assert(s[i] == name[i - 2]);
    }
    assert forall|i: int| e + 1 <= i < s.len() implies is_plain_char(s[i]) by {
        assert(s[i] == t[i - e - 1]);
    }
    let st0 = initial_state();
    let st1 = CfmtState { state: COLOR_START, tokens: seq![Seq::<char>::empty()], marks: seq![0], index: 1, ..st0 };
    assert(step(s, st0, s[0]) == Outcome::<CfmtState>::Next(st1));
    let st2 = code_state(s.subrange(2, 2), 2);
    assert(s.subrange(2, 2) =~= Seq::<char>::empty());
    assert(seq!['"'] + Seq::<char>::empty() =~= seq!['"']);
    assert(step(s, st1, s[1]) == Outcome::<CfmtState>::Next(st2)) by {
        assert(st1.tokens.drop_last().push(st1.tokens.last().push('"')) =~= seq![seq!['"']]);
        assert(seq![0int].push(2) =~= seq![0int, 2]);
    }
    lemma_run_code(s, 2, e);
    let st3 = code_state(name, e);
    let tok = seq!['"'] + name;
    proof_encode_len(tok);
    let st4 = colored_state(Seq::empty(), Some(c), e + 1);
    assert(tok.push('"') =~= seq!['"'] + name + seq!['"']);
    assert(step(s, st3, s[e]) == Outcome::<CfmtState>::Next(st4)) by {
        assert(seq![plain_view(Seq::empty(), None)].drop_last().push(
            ComponentView { color: Some(c), ..plain_view(Seq::empty(), None) },
        ) =~= seq![plain_view(Seq::empty(), Some(c))]);
        assert(seq![tok].drop_last() =~= Seq::<Seq<char>>::empty());
        assert(pop_mark(seq![0int, 2]) =~= seq![0int]);
        assert(pop_mark(seq![0int]) =~= Seq::<int>::empty());
    }
    assert(s.subrange(e + 1, e + 1) =~= Seq::<char>::empty());
    lemma_run_colored(s, e + 1, e + 1, Some(c));
    assert(run_from(s, st4, e + 1) == Outcome::<CfmtState>::Next(colored_state(t, Some(c), s.len() as int)));
    assert(run_from(s, st3, e) == run_from(s, st4, e + 1));
    assert(run_from(s, st2, 2) == run_from(s, st3, e));
    assert(run_from(s, st1, 1) == run_from(s, st2, 2));
    assert(run_from(s, st0, 0) == run_from(s, st1, 1));
}

/// A text of at least two characters takes at least two bytes.
proof fn proof_encode_len(t: Seq<char>)
    requires
        t.len() >= 2,
    ensures
        encode_utf8(t).len() >= 2,
{
    reveal_with_fuel(encode_utf8, 1);
    assert(encode_utf8(t) == vstd::utf8::encode_scalar(t[0] as u32) + encode_utf8(t.drop_first()));
    crate::qutil::uln::lemma_empty_bytes(t.drop_first());
    assert(vstd::utf8::encode_scalar(t[0] as u32).len() >= 1) by {
        reveal_with_fuel(vstd::utf8::encode_scalar, 1);
    }
}

/// The snake-case name of a color, as the chat format and JSON write it.
pub open spec fn color_name(c: Color) -> Seq<char> {
    match c {
        Color::Black => "black"@,
        Color::DarkBlue => "dark_blue"@,
        Color::DarkGreen => "dark_green"@,
        Color::DarkAqua => "dark_aqua"@,
        Color::DarkRed => "dark_red"@,
        Color::DarkPurple => "dark_purple"@,
        Color::Gold => "gold"@,
        Color::Gray => "gray"@,
        Color::DarkGray => "dark_gray"@,
        Color::Blue => "blue"@,
        Color::Green => "green"@,
        Color::Aqua => "aqua"@,
        Color::Red => "red"@,
        Color::LightPurple => "light_purple"@,
        Color::Yellow => "yellow"@,
        Color::White => "white"@,
        Color::Reset => "reset"@,
    }
}

/// The letters of the color names.
proof fn lemma_color_name_chars()
    ensures
        "black"@.len() == 5 && "black"@[0] == 'b' && "black"@[1] == 'l' && "black"@[2] == 'a' && "black"@[3] == 'c' && "black"@[4] == 'k',
        "dark_blue"@.len() == 9 && "dark_blue"@[0] == 'd' && "dark_blue"@[1] == 'a' && "dark_blue"@[2] == 'r' && "dark_blue"@[3] == 'k' && "dark_blue"@[4] == '_' && "dark_blue"@[5] == 'b' && "dark_blue"@[6] == 'l' && "dark_blue"@[7] == 'u' && "dark_blue"@[8] == 'e',
        "dark_green"@.len() == 10 && "dark_green"@[0] == 'd' && "dark_green"@[1] == 'a' && "dark_green"@[2] == 'r' && "dark_green"@[3] == 'k' && "dark_green"@[4] == '_' && "dark_green"@[5] == 'g' && "dark_green"@[6] == 'r' && "dark_green"@[7] == 'e' && "dark_green"@[8] == 'e' && "dark_green"@[9] == 'n',
        "dark_aqua"@.len() == 9 && "dark_aqua"@[0] == 'd' && "dark_aqua"@[1] == 'a' && "dark_aqua"@[2] == 'r' && "dark_aqua"@[3] == 'k' && "dark_aqua"@[4] == '_' && "dark_aqua"@[5] == 'a' && "dark_aqua"@[6] == 'q' && "dark_aqua"@[7] == 'u' && "dark_aqua"@[8] == 'a',
        "dark_red"@.len() == 8 && "dark_red"@[0] == 'd' && "dark_red"@[1] == 'a' && "dark_red"@[2] == 'r' && "dark_red"@[3] == 'k' && "dark_red"@[4] == '_' && "dark_red"@[5] == 'r' && "dark_red"@[6] == 'e' && "dark_red"@[7] == 'd',
        "dark_purple"@.len() == 11 && "dark_purple"@[0] == 'd' && "dark_purple"@[1] == 'a' && "dark_purple"@[2] == 'r' && "dark_purple"@[3] == 'k' && "dark_purple"@[4] == '_' && "dark_purple"@[5] == 'p' && "dark_purple"@[6] == 'u' && "dark_purple"@[7] == 'r' && "dark_purple"@[8] == 'p' && "dark_purple"@[9] == 'l' && "dark_purple"@[10] == 'e',
        "gold"@.len() == 4 && "gold"@[0] == 'g' && "gold"@[1] == 'o' && "gold"@[2] == 'l' && "gold"@[3] == 'd',
        "gray"@.len() == 4 && "gray"@[0] == 'g' && "gray"@[1] == 'r' && "gray"@[2] == 'a' && "gray"@[3] == 'y',
        "dark_gray"@.len() == 9 && "dark_gray"@[0] == 'd' && "dark_gray"@[1] == 'a' && "dark_gray"@[2] == 'r' && "dark_gray"@[3] == 'k' && "dark_gray"@[4] == '_' && "dark_gray"@[5] == 'g' && "dark_gray"@[6] == 'r' && "dark_gray"@[7] == 'a' && "dark_gray"@[8] == 'y',
        "blue"@.len() == 4 && "blue"@[0] == 'b' && "blue"@[1] == 'l' && "blue"@[2] == 'u' && "blue"@[3] == 'e',
        "green"@.len() == 5 && "green"@[0] == 'g' && "green"@[1] == 'r' && "green"@[2] == 'e' && "green"@[3] == 'e' && "green"@[4] == 'n',
        "aqua"@.len() == 4 && "aqua"@[0] == 'a' && "aqua"@[1] == 'q' && "aqua"@[2] == 'u' && "aqua"@[3] == 'a',
        "red"@.len() == 3 && "red"@[0] == 'r' && "red"@[1] == 'e' && "red"@[2] == 'd',
        "light_purple"@.len() == 12 && "light_purple"@[0] == 'l' && "light_purple"@[1] == 'i' && "light_purple"@[2] == 'g' && "light_purple"@[3] == 'h' && "light_purple"@[4] == 't' && "light_purple"@[5] == '_' && "light_purple"@[6] == 'p' && "light_purple"@[7] == 'u' && "light_purple"@[8] == 'r' && "light_purple"@[9] == 'p' && "light_purple"@[10] == 'l' && "light_purple"@[11] == 'e',
        "yellow"@.len() == 6 && "yellow"@[0] == 'y' && "yellow"@[1] == 'e' && "yellow"@[2] == 'l' && "yellow"@[3] == 'l' && "yellow"@[4] == 'o' && "yellow"@[5] == 'w',
        "white"@.len() == 5 && "white"@[0] == 'w' && "white"@[1] == 'h' && "white"@[2] == 'i' && "white"@[3] == 't' && "white"@[4] == 'e',
        "reset"@.len() == 5 && "reset"@[0] == 'r' && "reset"@[1] == 'e' && "reset"@[2] == 's' && "reset"@[3] == 'e' && "reset"@[4] == 't',
{
    reveal_strlit("black");
    reveal_strlit("dark_blue");
    reveal_strlit("dark_green");
    reveal_strlit("dark_aqua");
    reveal_strlit("dark_red");
    reveal_strlit("dark_purple");
    reveal_strlit("gold");
    reveal_strlit("gray");
    reveal_strlit("dark_gray");
    reveal_strlit("blue");
    reveal_strlit("green");
    reveal_strlit("aqua");
    reveal_strlit("red");
    reveal_strlit("light_purple");
    reveal_strlit("yellow");
    reveal_strlit("white");
    reveal_strlit("reset");
}

/// Each color's snake-case name picks out that color, and no two names pick out the same one.
pub proof fn law_color_names(c: Color, a: Seq<char>, b: Seq<char>)
    ensures
        color_named(color_name(c)) == Some(c),
        color_named(a) is Some && color_named(a) == color_named(b) ==> a == b,
{
    lemma_color_name_chars();
}

/// A color sequence naming any color, followed by plain text, reads as that text in that
/// color, given that the JSON string of the quoted name is the name.
pub proof fn law_color_sequence(c: Color, t: Seq<char>)
    requires
        json_string(seq!['"'] + color_name(c) + seq!['"']) == Some(color_name(c)),
        forall|i: int| 0 <= i < t.len() ==> is_plain_char(t[i]),
    ensures
        from_cfmt_spec(seq!['&', '('] + color_name(c) + seq![')'] + t) == Outcome::<ComponentView>::Next(
            plain_view(t, Some(c)),
        ),
{
    law_color_names(c, color_name(c), color_name(c));
    let name = color_name(c);
    lemma_color_name_chars();
    assert(name.len() > 0);
    assert forall|i: int| 0 <= i < name.len() implies name[i] != ',' && name[i] != ')' && name[i] != '!' by {
        assert(name[i] == '_' || ('a' <= name[i] && name[i] <= 'z'));
    }
    law_color_code(name, t, c);
}

} // verus!
