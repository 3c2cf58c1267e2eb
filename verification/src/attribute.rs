//! Attributes: a family, a key and a typed value that is written to the DOM
//! as a string, or as bare presence.

use crate::keyed::Keyed;
use crate::text::{
    decimal, flag_text, is_valid_token, valid_name, valid_token, write_decimal, write_flag,
};
use vstd::prelude::*;

verus! {

/// The families of attributes. They group the attribute names for the
/// caller's convenience; at the DOM layer only key and payload matter.
#[derive(Clone, Copy, PartialEq, Eq, Debug, Structural)]
pub enum Family {
    Aria,
    ButtonHtml,
    Custom,
}

/// Why a value has no string form.
#[derive(Clone, Copy, PartialEq, Eq, Debug, Structural)]
pub enum SerializeError {
    /// An enumerated value whose token is empty or holds a character other
    /// than an ASCII lower-case letter, an ASCII digit or a hyphen.
    MalformedToken,
}

/// The typed value of an attribute.
#[derive(PartialEq, Eq, Debug)]
pub enum Value {
    /// Presence only, as for `disabled`: the attribute carries no payload.
    Presence,
    /// A true/false value, written `true` or `false`.
    Flag(bool),
    /// An enumerated value, given and written as its lower-case token, such
    /// as `dialog`.
    Token(String),
    /// An integer, written in decimal.
    Integer(i64),
    /// Free text, written as it is.
    Text(String),
}

/// The mathematical content of a [`Value`].
pub enum ValueView {
    Presence,
    Flag(bool),
    Token(Seq<char>),
    Integer(int),
    Text(Seq<char>),
}

impl ValueView {
    /// The payload of the value: none for presence, else its string form;
    /// an error where the value has no string form.
    pub open spec fn payload(self) -> Result<Option<Seq<char>>, SerializeError> {
        match self {
            ValueView::Presence => Ok(None),
            ValueView::Flag(b) => Ok(Some(flag_text(b))),
            ValueView::Token(t) => if valid_token(t) {
                Ok(Some(t))
            } else {
                Err(SerializeError::MalformedToken)
            },
            ValueView::Integer(n) => Ok(Some(decimal(n))),
            ValueView::Text(s) => Ok(Some(s)),
        }
    }
}

/// The string that stands on the DOM for a payload: the empty string for
/// bare presence, else the payload.
pub open spec fn dom_text(payload: Option<Seq<char>>) -> Seq<char> {
    match payload {
        None => Seq::empty(),
        Some(s) => s,
    }
}

impl View for Value {
    type V = ValueView;

    open spec fn view(&self) -> ValueView {
        match self {
            Value::Presence => ValueView::Presence,
            Value::Flag(b) => ValueView::Flag(*b),
            Value::Token(t) => ValueView::Token(t@),
            Value::Integer(n) => ValueView::Integer(*n as int),
            Value::Text(s) => ValueView::Text(s@),
        }
    }
}

impl Clone for Value {
    fn clone(&self) -> (copy: Self)
        ensures
            copy == *self,
    {
        match self {
            Value::Presence => Value::Presence,
            Value::Flag(b) => Value::Flag(*b),
            Value::Token(t) => Value::Token(t.clone()),
            Value::Integer(n) => Value::Integer(*n),
            Value::Text(s) => Value::Text(s.clone()),
        }
    }
}

impl Value {
    /// Serializes the value into its payload.
    pub fn serialize(&self) -> (payload: Result<Option<String>, SerializeError>)
        ensures
            match payload {
                Ok(None) => self@.payload() == Ok::<Option<Seq<char>>, SerializeError>(None),
                Ok(Some(s)) => self@.payload() == Ok::<Option<Seq<char>>, SerializeError>(
                    Some(s@),
                ),
                Err(e) => self@.payload() == Err::<Option<Seq<char>>, SerializeError>(e),
            },
    {
        match self {
            Value::Presence => Ok(None),
            Value::Flag(b) => Ok(Some(write_flag(*b))),
            Value::Token(t) => {
                if is_valid_token(t.as_str()) {
                    Ok(Some(t.clone()))
                } else {
                    Err(SerializeError::MalformedToken)
                }
            },
            Value::Integer(n) => Ok(Some(write_decimal(*n))),
            Value::Text(s) => Ok(Some(s.clone())),
        }
    }

    /// Whether two values have the same payload: both none, both the same
    /// string, or both without string form for the same reason.
    pub fn same_payload(&self, other: &Value) -> (equal: bool)
        ensures
            equal == (self@.payload() == other@.payload()),
    {
        match (self.serialize(), other.serialize()) {
            (Ok(None), Ok(None)) => true,
            (Ok(Some(a)), Ok(Some(b))) => a == b,
            (Err(a), Err(b)) => a == b,
            _ => false,
        }
    }

    /// Whether two values have the same content.
    pub fn same(&self, other: &Value) -> (equal: bool)
        ensures
            equal == (self@ == other@),
    {
        match (self, other) {
            (Value::Presence, Value::Presence) => true,
            (Value::Flag(a), Value::Flag(b)) => *a == *b,
            (Value::Token(a), Value::Token(b)) => *a == *b,
            (Value::Integer(a), Value::Integer(b)) => *a == *b,
            (Value::Text(a), Value::Text(b)) => *a == *b,
            _ => false,
        }
    }
}

/// An attribute: the triple of family, key and value.
#[derive(PartialEq, Eq, Debug)]
pub struct Attribute {
    pub family: Family,
    pub key: String,
    pub value: Value,
}

/// The mathematical content of an [`Attribute`].
pub struct AttributeView {
    pub family: Family,
    pub key: Seq<char>,
    pub value: ValueView,
}

impl Keyed for AttributeView {
    type Key = Seq<char>;

    open spec fn key(&self) -> Seq<char> {
        self.key
    }
}

impl AttributeView {
    /// Whether the attribute can be written to an element: its name is one
    /// the DOM layer accepts and its value has a string form.
    pub open spec fn writable(self) -> bool {
        valid_name(self.key) && self.value.payload() is Ok
    }

    /// The string that stands on the DOM for the attribute once written.
    pub open spec fn text(self) -> Seq<char> {
        match self.value.payload() {
            Ok(p) => dom_text(p),
            Err(_) => Seq::empty(),
        }
    }
}

impl View for Attribute {
    type V = AttributeView;

    open spec fn view(&self) -> AttributeView {
        AttributeView { family: self.family, key: self.key@, value: self.value@ }
    }
}

impl Clone for Attribute {
    fn clone(&self) -> (copy: Self)
        ensures
            copy == *self,
    {
        Attribute { family: self.family, key: self.key.clone(), value: self.value.clone() }
    }
}

/// The values of the `type` attribute of a button.
#[derive(Clone, Copy, PartialEq, Eq, Debug, Structural)]
pub enum ButtonTypeOption {
    Submit,
    Reset,
    Button,
}

impl ButtonTypeOption {
    /// The token that writes the option.
    pub open spec fn token(self) -> Seq<char> {
        match self {
            ButtonTypeOption::Submit => "submit"@,
            ButtonTypeOption::Reset => "reset"@,
            ButtonTypeOption::Button => "button"@,
        }
    }

    /// The token that writes the option.
    pub fn as_token(self) -> (token: &'static str)
        ensures
            token@ == self.token(),
    {
        match self {
            ButtonTypeOption::Submit => "submit",
            ButtonTypeOption::Reset => "reset",
            ButtonTypeOption::Button => "button",
        }
    }
}

impl AttributeView {
    /// `aria-atomic`, true or false.
    pub open spec fn aria_atomic(value: bool) -> AttributeView {
        AttributeView { family: Family::Aria, key: "aria-atomic"@, value: ValueView::Flag(value) }
    }

    /// The `type` of a button.
    pub open spec fn button_type(option: ButtonTypeOption) -> AttributeView {
        AttributeView {
            family: Family::ButtonHtml,
            key: "type"@,
            value: ValueView::Token(option.token()),
        }
    }

    /// `disabled`, a presence attribute.
    pub open spec fn disabled() -> AttributeView {
        AttributeView { family: Family::ButtonHtml, key: "disabled"@, value: ValueView::Presence }
    }

    /// A custom attribute: bare presence where no payload is given, else
    /// the payload as free text.
    pub open spec fn custom(key: Seq<char>, payload: Option<Seq<char>>) -> AttributeView {
        AttributeView {
            family: Family::Custom,
            key,
            value: match payload {
                Some(text) => ValueView::Text(text),
                None => ValueView::Presence,
            },
        }
    }
}

impl Attribute {
    /// An attribute of the given family, key and value.
    pub fn new(family: Family, key: &str, value: Value) -> (attribute: Attribute)
        ensures
            attribute@ == (AttributeView { family, key: key@, value: value@ }),
    {
        Attribute { family, key: String::from_str(key), value }
    }

    /// `aria-atomic`, true or false.
    pub fn aria_atomic(value: bool) -> (attribute: Attribute)
        ensures
            attribute@ == AttributeView::aria_atomic(value),
    {
        Attribute {
            family: Family::Aria,
            key: String::from_str("aria-atomic"),
            value: Value::Flag(value),
        }
    }

    /// The `type` of a button.
    pub fn button_type(option: ButtonTypeOption) -> (attribute: Attribute)
        ensures
            attribute@ == AttributeView::button_type(option),
    {
        Attribute {
            family: Family::ButtonHtml,
            key: String::from_str("type"),
            value: Value::Token(String::from_str(option.as_token())),
        }
    }

    /// `disabled`, a presence attribute.
    pub fn disabled() -> (attribute: Attribute)
        ensures
            attribute@ == AttributeView::disabled(),
    {
        Attribute {
            family: Family::ButtonHtml,
            key: String::from_str("disabled"),
            value: Value::Presence,
        }
    }

    /// A custom attribute: bare presence where no payload is given, else
    /// the payload as free text.
    pub fn custom(key: &str, payload: Option<&str>) -> (attribute: Attribute)
        ensures
            attribute@ == AttributeView::custom(
                key@,
                match payload {
                    Some(text) => Some(text@),
                    None => None,
                },
            ),
    {
        let value = match payload {
            Some(text) => Value::Text(String::from_str(text)),
            None => Value::Presence,
        };
        Attribute { family: Family::Custom, key: String::from_str(key), value }
    }

    /// The key of the attribute.
    pub fn get_key(&self) -> (key: &str)
        ensures
            key@ == self@.key,
    {
        self.key.as_str()
    }

    /// The payload of the attribute: none for presence, else the string
    /// form of its value; an error where the value has no string form.
    pub fn payload(&self) -> (payload: Result<Option<String>, SerializeError>)
        ensures
            match payload {
                Ok(None) => self@.value.payload() == Ok::<Option<Seq<char>>, SerializeError>(
                    None,
                ),
                Ok(Some(s)) => self@.value.payload() == Ok::<Option<Seq<char>>, SerializeError>(
                    Some(s@),
                ),
                Err(e) => self@.value.payload() == Err::<Option<Seq<char>>, SerializeError>(e),
            },
    {
        self.value.serialize()
    }
}

} // verus!
