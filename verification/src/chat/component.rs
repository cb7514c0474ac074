use vstd::prelude::*;
use vstd::string::StringExecFns;
use crate::nbt::tag::{NbtCompound, compound_view};
use crate::nbt::text::entries_text;

verus! {

/// The colors of chat text.
#[derive(Clone, Copy, PartialEq, Eq, Structural, Debug)]
pub enum Color {
    Black,
    DarkBlue,
    DarkGreen,
    DarkAqua,
    DarkRed,
    DarkPurple,
    Gold,
    Gray,
    DarkGray,
    Blue,
    Green,
    Aqua,
    Red,
    LightPurple,
    Yellow,
    White,
    Reset,
}

/// A formatting code, on or off.
#[derive(Clone, Copy, PartialEq, Eq, Structural, Debug)]
pub enum Format {
    Obfuscated(bool),
    Bold(bool),
    Strikethrough(bool),
    Underline(bool),
    Italic(bool),
}

/// A chat message: a list of components.
pub struct Message(pub Vec<Component>);

/// A piece of chat text with its formatting, events and children.
#[derive(Debug)]
pub struct Component {
    pub text: String,
    pub color: Option<Color>,
    pub obfuscated: Option<bool>,
    pub bold: Option<bool>,
    pub strikethrough: Option<bool>,
    pub underline: Option<bool>,
    pub italic: Option<bool>,
    pub insertion: Option<String>,
    pub click_event: Option<Box<ClickEvent>>,
    pub hover_event: Option<Box<HoverEvent>>,
    pub extra: Option<Vec<Component>>,
}

/// The argument of a click or hover event.
#[derive(Debug)]
pub enum EventArgument {
    Component(Component),
    Text(String),
    Index(u32),
}

/// What happens when a component is clicked.
#[derive(Debug)]
pub struct ClickEvent {
    pub action: String,
    pub value: EventArgument,
}

/// What is shown when the pointer rests on a component.
#[derive(Debug)]
pub struct HoverEvent {
    pub action: String,
    pub value: EventArgument,
}

/// The content of an event argument.
pub enum ArgView {
    Component(Box<ComponentView>),
    Text(Seq<char>),
    Index(u32),
}

/// The content of an event.
pub struct EventView {
    pub action: Seq<char>,
    pub value: ArgView,
}

/// The content of a component.
pub struct ComponentView {
    pub text: Seq<char>,
    pub color: Option<Color>,
    pub obfuscated: Option<bool>,
    pub bold: Option<bool>,
    pub strikethrough: Option<bool>,
    pub underline: Option<bool>,
    pub italic: Option<bool>,
    pub insertion: Option<Seq<char>>,
    pub click_event: Option<EventView>,
    pub hover_event: Option<EventView>,
    pub extra: Option<Seq<ComponentView>>,
}

/// The content of a component with the given text and color and nothing else.
pub open spec fn plain_view(text: Seq<char>, color: Option<Color>) -> ComponentView {
    ComponentView {
        text,
        color,
        obfuscated: None,
        bold: None,
        strikethrough: None,
        underline: None,
        italic: None,
        insertion: None,
        click_event: None,
        hover_event: None,
        extra: None,
    }
}

/// The content of a component.
pub open spec fn comp_view(c: Component) -> ComponentView
    decreases c,
{
    ComponentView {
        text: c.text@,
        color: c.color,
        obfuscated: c.obfuscated,
        bold: c.bold,
        strikethrough: c.strikethrough,
        underline: c.underline,
        italic: c.italic,
        insertion: match c.insertion {
            Some(t) => Some(t@),
            None => None,
        },
        click_event: match c.click_event {
            Some(e) => Some(EventView { action: e.action@, value: arg_view(e.value) }),
            None => None,
        },
        hover_event: match c.hover_event {
            Some(e) => Some(EventView { action: e.action@, value: arg_view(e.value) }),
            None => None,
        },
        extra: match c.extra {
            Some(v) => Some(comps_view(v@)),
            None => None,
        },
    }
}

/// The content of an event argument.
pub open spec fn arg_view(a: EventArgument) -> ArgView
    decreases a,
{
    match a {
        EventArgument::Component(c) => ArgView::Component(Box::new(comp_view(c))),
        EventArgument::Text(t) => ArgView::Text(t@),
        EventArgument::Index(i) => ArgView::Index(i),
    }
}

/// The contents of a run of components.
pub open spec fn comps_view(s: Seq<Component>) -> Seq<ComponentView>
    decreases s,
{
    Seq::new(s.len(), |i: int| if 0 <= i < s.len() { comp_view(s[i]) } else { plain_view(Seq::empty(), None) })
}

impl Component {
    /// A component with the given text and color and nothing else.
    pub fn new(text: String, color: Option<Color>) -> (c: Component)
        ensures
            c.text@ == text@,
            c.color == color,
            c.obfuscated is None && c.bold is None && c.strikethrough is None,
            c.underline is None && c.italic is None,
            c.insertion is None && c.click_event is None && c.hover_event is None,
            c.extra is None,
    {
        Component {
            text,
            color,
            obfuscated: None,
            bold: None,
            strikethrough: None,
            underline: None,
            italic: None,
            insertion: None,
            click_event: None,
            hover_event: None,
            extra: None,
        }
    }

    /// A component with the given text and the color and formatting codes of `other`.
    pub fn copy_formatting(text: String, other: &Component) -> (c: Component)
        ensures
            c.text@ == text@,
            c.color == other.color,
            c.obfuscated == other.obfuscated,
            c.bold == other.bold,
            c.strikethrough == other.strikethrough,
            c.underline == other.underline,
            c.italic == other.italic,
            c.insertion is None && c.click_event is None && c.hover_event is None,
            c.extra is None,
    {
        Component {
            text,
            color: other.color,
            obfuscated: other.obfuscated,
            bold: other.bold,
            strikethrough: other.strikethrough,
            underline: other.underline,
            italic: other.italic,
            insertion: None,
            click_event: None,
            hover_event: None,
            extra: None,
        }
    }

    /// Whether the component has no text and no children.
    pub fn is_empty(&self) -> (b: bool)
        ensures
            b == (self.text@.len() == 0 && (self.extra is None || self.extra->0@.len() == 0)),
    {
        self.text.as_str().unicode_len() == 0 && match &self.extra {
            None => true,
            Some(children) => children.len() == 0,
        }
    }

    /// Appends `child` to the children of this component.
    pub fn add_child(&mut self, child: Component)
        ensures
            final(self).extra matches Some(children) && children@ == (match old(self).extra {
                Some(c) => c@,
                None => Seq::empty(),
            }).push(child),
            final(self).text == old(self).text,
            final(self).color == old(self).color,
            final(self).hover_event == old(self).hover_event,
            final(self).click_event == old(self).click_event,
    {
        match &mut self.extra {
            Some(children) => children.push(child),
            None => {
                let mut children = Vec::new();
                children.push(child);
                self.extra = Some(children);
            },
        }
    }

    /// Sets what happens when the component is clicked.
    pub fn set_click_event(&mut self, event: ClickEvent)
        ensures
            final(self).click_event == Some(Box::new(event)),
            final(self).text == old(self).text,
            final(self).color == old(self).color,
            final(self).hover_event == old(self).hover_event,
            final(self).extra == old(self).extra,
    {
        self.click_event = Some(Box::new(event));
    }
}

impl ClickEvent {
    /// Opens `value` as a link.
    pub fn open_url(value: String) -> (e: Self)
        ensures
            e.action@ == "open_url"@,
            e.value matches EventArgument::Text(t) && t@ == value@,
    {
        ClickEvent { action: String::from_str("open_url"), value: EventArgument::Text(value) }
    }

    /// Runs `value` as a command.
    pub fn run_command(value: String) -> (e: Self)
        ensures
            e.action@ == "run_command"@,
            e.value matches EventArgument::Text(t) && t@ == value@,
    {
        ClickEvent { action: String::from_str("run_command"), value: EventArgument::Text(value) }
    }

    /// Puts `value` in the chat box.
    pub fn suggest_command(value: String) -> (e: Self)
        ensures
            e.action@ == "suggest_command"@,
            e.value matches EventArgument::Text(t) && t@ == value@,
    {
        ClickEvent {
            action: String::from_str("suggest_command"),
            value: EventArgument::Text(value),
        }
    }

    /// Turns to page `value` of a book.
    pub fn page_change(value: u32) -> (e: Self)
        ensures
            e.action@ == "page_change"@,
            e.value == EventArgument::Index(value),
    {
        ClickEvent { action: String::from_str("page_change"), value: EventArgument::Index(value) }
    }
}

impl HoverEvent {
    /// Shows `value` as text.
    pub fn show_text(value: String) -> (e: Self)
        ensures
            e.action@ == "show_text"@,
            e.value matches EventArgument::Text(t) && t@ == value@,
    {
        HoverEvent { action: String::from_str("show_text"), value: EventArgument::Text(value) }
    }

    /// Shows `value` as a component.
    pub fn show_text_component(value: Component) -> (e: Self)
        ensures
            e.action@ == "show_text"@,
            e.value == EventArgument::Component(value),
    {
        HoverEvent { action: String::from_str("show_text"), value: EventArgument::Component(value) }
    }

    /// Shows an item, given as its compound in the stringified format.
    pub fn show_item(value: NbtCompound) -> (e: Self)
        ensures
            e.action@ == "show_item"@,
            e.value matches EventArgument::Text(t) && t@ == "{"@ + entries_text(compound_view(value.0@))
                + "}"@,
    {
        HoverEvent { action: String::from_str("show_item"), value: EventArgument::Text(value.to_string()) }
    }

    /// Shows an entity, given as its compound in the stringified format.
    pub fn show_entity(value: NbtCompound) -> (e: Self)
        ensures
            e.action@ == "show_entity"@,
            e.value matches EventArgument::Text(t) && t@ == "{"@ + entries_text(compound_view(value.0@))
                + "}"@,
    {
        HoverEvent { action: String::from_str("show_entity"), value: EventArgument::Text(value.to_string()) }
    }
}

} // verus!
