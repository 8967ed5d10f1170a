//! The component tree of Minecraft's JSON text format: one variant per
//! component kind, each carrying a style whose `extra` children nest.
use vstd::prelude::*;
use super::color::TextColor;

verus! {

/// A text component.
#[derive(Debug)]
pub enum Component {
    Text(TextComponent),
    Translatable(TranslatableComponent),
    Score(ScoreComponent),
    Selector(SelectorComponent),
    Keybind(KeybindComponent),
}

/// The formatting and children every component kind carries.
#[derive(Debug)]
pub struct ComponentStyle {
    pub color: Option<TextColor>,
    pub font: Option<String>,
    pub bold: Option<bool>,
    pub italic: Option<bool>,
    pub underlined: Option<bool>,
    pub strikethrough: Option<bool>,
    pub obfuscated: Option<bool>,
    pub insertion: Option<String>,
    pub click_event: Option<ClickEvent>,
    pub hover_event: Option<HoverEvent>,
    pub extra: Vec<Component>,
}

/// Literal text.
#[derive(Debug)]
pub struct TextComponent {
    pub text: String,
    pub style: ComponentStyle,
}

/// A translation key and its arguments.
#[derive(Debug)]
pub struct TranslatableComponent {
    pub translate: String,
    pub with: Vec<Component>,
    pub style: ComponentStyle,
}

/// A scoreboard value.
#[derive(Debug)]
pub struct ScoreComponent {
    pub score: ScorePayload,
    pub style: ComponentStyle,
}

/// Whose score, on which objective, and optionally a fixed value.
#[derive(Debug, Clone)]
pub struct ScorePayload {
    pub name: String,
    pub objective: String,
    pub value: Option<String>,
}

/// An entity selector; the separator is a component in its JSON text form.
#[derive(Debug)]
pub struct SelectorComponent {
    pub selector: String,
    pub separator: Option<String>,
    pub style: ComponentStyle,
}

/// A key binding, shown as the client's key for it.
#[derive(Debug)]
pub struct KeybindComponent {
    pub keybind: String,
    pub style: ComponentStyle,
}

/// What clicking the text does.
#[derive(Debug, Clone)]
pub struct ClickEvent {
    pub action: ClickType,
    pub value: String,
}

#[derive(Debug, Clone, Copy, PartialEq, Eq, Structural)]
pub enum ClickType {
    OpenUrl,
    RunCommand,
    SuggestCommand,
    ChangePage,
    CopyToClipboard,
}

/// What hovering over the text shows; the contents are in their JSON text
/// form.
#[derive(Debug, Clone)]
pub struct HoverEvent {
    pub action: HoverType,
    pub contents: String,
}

#[derive(Debug, Clone, Copy, PartialEq, Eq, Structural)]
pub enum HoverType {
    ShowText,
    ShowItem,
    ShowEntity,
}

/// A style that sets nothing and has no children.
pub open spec fn plain_style(s: ComponentStyle) -> bool {
    &&& s.color is None
    &&& s.font is None
    &&& s.bold is None
    &&& s.italic is None
    &&& s.underlined is None
    &&& s.strikethrough is None
    &&& s.obfuscated is None
    &&& s.insertion is None
    &&& s.click_event is None
    &&& s.hover_event is None
    &&& s.extra@.len() == 0
}

/// The style of a component, whatever its kind.
pub open spec fn style_of(c: Component) -> ComponentStyle {
    match c {
        Component::Text(t) => t.style,
        Component::Translatable(t) => t.style,
        Component::Score(t) => t.style,
        Component::Selector(t) => t.style,
        Component::Keybind(t) => t.style,
    }
}

/// `c` with its style replaced by `s`.
pub open spec fn with_style(c: Component, s: ComponentStyle) -> Component {
    match c {
        Component::Text(t) => Component::Text(TextComponent { style: s, ..t }),
        Component::Translatable(t) => Component::Translatable(TranslatableComponent { style: s, ..t }),
        Component::Score(t) => Component::Score(ScoreComponent { style: s, ..t }),
        Component::Selector(t) => Component::Selector(SelectorComponent { style: s, ..t }),
        Component::Keybind(t) => Component::Keybind(KeybindComponent { style: s, ..t }),
    }
}

impl Default for ComponentStyle {
    /// A style that sets nothing.
    fn default() -> (s: Self)
        ensures
            plain_style(s),
    {
        ComponentStyle {
            color: None,
            font: None,
            bold: None,
            italic: None,
            underlined: None,
            strikethrough: None,
            obfuscated: None,
            insertion: None,
            click_event: None,
            hover_event: None,
            extra: Vec::new(),
        }
    }
}

impl ComponentStyle {
    /// The style with `color` set.
    pub fn color(self, color: TextColor) -> (s: Self)
        ensures
            s == (ComponentStyle { color: Some(color), ..self }),
    {
        let mut s = self;
        s.color = Some(color);
        s
    }

    /// The style with `bold` set.
    pub fn bold(self, value: bool) -> (s: Self)
        ensures
            s == (ComponentStyle { bold: Some(value), ..self }),
    {
        let mut s = self;
        s.bold = Some(value);
        s
    }

    /// The style with `italic` set.
    pub fn italic(self, value: bool) -> (s: Self)
        ensures
            s == (ComponentStyle { italic: Some(value), ..self }),
    {
        let mut s = self;
        s.italic = Some(value);
        s
    }

    /// The style with `components` as its children.
    pub fn extra(self, components: Vec<Component>) -> (s: Self)
        ensures
            s == (ComponentStyle { extra: components, ..self }),
    {
        let mut s = self;
        s.extra = components;
        s
    }

    /// Appends a child.
    pub fn push_extra(&mut self, component: Component)
        ensures
            final(self).extra@ == old(self).extra@.push(component),
            *final(self) == (ComponentStyle { extra: final(self).extra, ..*old(self) }),
    {
        self.extra.push(component);
    }
}

impl TextComponent {
    /// Literal `text` with a plain style.
    pub fn new(text: String) -> (c: Self)
        ensures
            c.text == text,
            plain_style(c.style),
    {
        TextComponent { text, style: ComponentStyle::default() }
    }
}

impl TranslatableComponent {
    /// The translation `key` with no arguments and a plain style.
    pub fn new(key: String) -> (c: Self)
        ensures
            c.translate == key,
            c.with@.len() == 0,
            plain_style(c.style),
    {
        TranslatableComponent { translate: key, with: Vec::new(), style: ComponentStyle::default() }
    }
}

impl KeybindComponent {
    /// The key binding `keybind` with a plain style.
    pub fn new(keybind: String) -> (c: Self)
        ensures
            c.keybind == keybind,
            plain_style(c.style),
    {
        KeybindComponent { keybind, style: ComponentStyle::default() }
    }
}

impl Component {
    /// Literal text with a plain style.
    pub fn text(value: String) -> (c: Self)
        ensures
            c matches Component::Text(t) && t.text == value && plain_style(t.style),
    {
        Component::Text(TextComponent::new(value))
    }

    /// Empty literal text.
    pub fn empty() -> (c: Self)
        ensures
            c matches Component::Text(t) && t.text@.len() == 0 && plain_style(t.style),
    {
        Component::text(String::new())
    }

    /// A translation with no arguments and a plain style.
    pub fn translate(key: String) -> (c: Self)
        ensures
            c matches Component::Translatable(t) && t.translate == key && t.with@.len() == 0
                && plain_style(t.style),
    {
        Component::Translatable(TranslatableComponent::new(key))
    }

    /// The component's style, to change in place.
    pub fn style_mut(&mut self) -> (s: &mut ComponentStyle)
        ensures
            *s == style_of(*old(self)),
            *final(self) == with_style(*old(self), *final(s)),
    {
        match self {
            Component::Text(c) => &mut c.style,
            Component::Translatable(c) => &mut c.style,
            Component::Score(c) => &mut c.style,
            Component::Selector(c) => &mut c.style,
            Component::Keybind(c) => &mut c.style,
        }
    }
}

} // verus!
