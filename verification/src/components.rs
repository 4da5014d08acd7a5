//! Properties of the dashboard's reusable components and the CSS class
//! strings they render with.

use vstd::prelude::*;
use crate::text::{append_str, string_from_chars};

verus! {

/// Colour scheme of a button.
pub enum ButtonColor {
    /// No colour classes.
    Plain,
    Gray,
    Blue,
    Red,
    Yellow,
}

/// The utility classes of each colour.
pub open spec fn color_class(c: ButtonColor) -> Seq<char> {
    match c {
        ButtonColor::Plain => ""@,
        ButtonColor::Gray => "bg-gray-500 hover:bg-gray-700"@,
        ButtonColor::Blue => "bg-blue-500 hover:bg-blue-700"@,
        ButtonColor::Red => "bg-red-500 hover:bg-red-700"@,
        ButtonColor::Yellow => "bg-yellow-500 hover:bg-yellow-700"@,
    }
}

impl ButtonColor {
    /// The utility classes of this colour.
    pub fn as_class(&self) -> (s: &'static str)
        ensures
            s@ == color_class(*self),
    {
        match self {
            ButtonColor::Plain => "",
            ButtonColor::Gray => "bg-gray-500 hover:bg-gray-700",
            ButtonColor::Blue => "bg-blue-500 hover:bg-blue-700",
            ButtonColor::Red => "bg-red-500 hover:bg-red-700",
            ButtonColor::Yellow => "bg-yellow-500 hover:bg-yellow-700",
        }
    }
}

impl Default for ButtonColor {
    /// Blue.
    fn default() -> (c: ButtonColor)
        ensures
            c is Blue,
    {
        ButtonColor::Blue
    }
}

/// Attributes of a button.
pub struct ButtonProps<'a> {
    pub id: Option<&'a str>,
    pub class: Option<&'a str>,
    pub disabled: bool,
    pub color: ButtonColor,
    pub hx_get: Option<&'a str>,
    pub hx_post: Option<&'a str>,
    pub hx_target: Option<&'a str>,
}

impl<'a> Default for ButtonProps<'a> {
    /// No attributes, enabled, blue.
    fn default() -> (p: ButtonProps<'a>)
        ensures
            p.id is None,
            p.class is None,
            !p.disabled,
            p.color is Blue,
            p.hx_get is None,
            p.hx_post is None,
            p.hx_target is None,
    {
        ButtonProps {
            id: None,
            class: None,
            disabled: false,
            color: ButtonColor::Blue,
            hx_get: None,
            hx_post: None,
            hx_target: None,
        }
    }
}

/// Attributes of a text input.
pub struct InputProps<'a> {
    pub id: Option<&'a str>,
    pub class: Option<&'a str>,
    pub disabled: bool,
    pub value: Option<&'a str>,
    pub placeholder: Option<&'a str>,
}

impl<'a> Default for InputProps<'a> {
    /// No attributes, enabled.
    fn default() -> (p: InputProps<'a>)
        ensures
            p.id is None,
            p.class is None,
            !p.disabled,
            p.value is None,
            p.placeholder is None,
    {
        InputProps { id: None, class: None, disabled: false, value: None, placeholder: None }
    }
}

/// The extra classes given, or none.
pub open spec fn extra_class(c: Option<&str>) -> Seq<char> {
    match c {
        Some(s) => s@,
        None => Seq::empty(),
    }
}

/// The class attribute of a button: the base classes, the colour's
/// classes, a space, then any extra classes.
pub open spec fn button_class_spec(color: ButtonColor, class: Option<&str>) -> Seq<char> {
    "rounded-md border px-2 cursor-pointer transition-colors "@ + color_class(color) + " "@ + extra_class(class)
}

/// The class attribute of a text input: the base classes, then any extras.
pub open spec fn input_class_spec(class: Option<&str>) -> Seq<char> {
    "rounded-md border px-2 "@ + extra_class(class)
}

/// The class attribute a button renders with.
pub fn button_class(props: &ButtonProps) -> (r: String)
    ensures
        r@ == button_class_spec(props.color, props.class),
{
    let mut out: Vec<char> = Vec::new();
    append_str(&mut out, "rounded-md border px-2 cursor-pointer transition-colors ");
    append_str(&mut out, props.color.as_class());
    append_str(&mut out, " ");
    match props.class {
        Some(c) => append_str(&mut out, c),
        None => {},
    }
    let r = string_from_chars(&out);
    assert(r@ =~= button_class_spec(props.color, props.class));
    r
}

/// The class attribute a text input renders with.
pub fn input_class(props: &InputProps) -> (r: String)
    ensures
        r@ == input_class_spec(props.class),
{
    let mut out: Vec<char> = Vec::new();
    append_str(&mut out, "rounded-md border px-2 ");
    match props.class {
        Some(c) => append_str(&mut out, c),
        None => {},
    }
    let r = string_from_chars(&out);
    assert(r@ =~= input_class_spec(props.class));
    r
}

/// What the playing track is doing, as the music page shows it.
pub enum PlaybackStatus {
    Playing,
    Paused,
    /// Nothing playing, or the state is unknown.
    Stopped,
}

} // verus!
