//! What is said to the user: a message of the language catalogue with its
//! arguments. The window renders it in the language chosen.

use vstd::prelude::*;

use crate::text;

verus! {

/// An argument's value.
#[derive(Clone, Debug, PartialEq, Eq)]
pub enum ArgValue {
    Text(String),
    Number(i128),
}

/// A named argument.
#[derive(Clone, Debug, PartialEq, Eq)]
pub struct Arg {
    pub name: &'static str,
    pub value: ArgValue,
}

/// A message: its key in the catalogue, and its arguments.
#[derive(Clone, Debug, PartialEq, Eq)]
pub struct Message {
    pub key: &'static str,
    pub args: Vec<Arg>,
}

/// What an argument says.
pub enum ValueView {
    Text(Seq<char>),
    Number(int),
}

/// What a message says.
pub struct MessageView {
    pub key: Seq<char>,
    pub args: Seq<(Seq<char>, ValueView)>,
}

impl View for ArgValue {
    type V = ValueView;

    open spec fn view(&self) -> ValueView {
        match self {
            ArgValue::Text(s) => ValueView::Text(s@),
            ArgValue::Number(n) => ValueView::Number(*n as int),
        }
    }
}

impl View for Arg {
    type V = (Seq<char>, ValueView);

    open spec fn view(&self) -> (Seq<char>, ValueView) {
        (self.name@, self.value@)
    }
}

impl View for Message {
    type V = MessageView;

    open spec fn view(&self) -> MessageView {
        MessageView { key: self.key@, args: self.args@.map_values(|a: Arg| a@) }
    }
}

/// The message `key` without arguments.
pub open spec fn said(key: Seq<char>) -> MessageView {
    MessageView { key, args: Seq::empty() }
}

impl MessageView {
    /// The message with a text argument more.
    pub open spec fn text(self, name: Seq<char>, value: Seq<char>) -> MessageView {
        MessageView { key: self.key, args: self.args.push((name, ValueView::Text(value))) }
    }

    /// The message with a number more.
    pub open spec fn number(self, name: Seq<char>, value: int) -> MessageView {
        MessageView { key: self.key, args: self.args.push((name, ValueView::Number(value))) }
    }
}

impl Message {
    /// The message `key`, without arguments.
    pub fn new(key: &'static str) -> (m: Message)
        ensures
            m@ == said(key@),
    {
        let m = Message { key, args: Vec::new() };
        proof {
            assert(m@.args =~= Seq::empty());
        }
        m
    }

    /// With the text `value` for `name`.
    pub fn text(self, name: &'static str, value: &str) -> (m: Message)
        ensures
            m@ == self@.text(name@, value@),
    {
        let ghost before = self@;
        let mut m = self;
        let value = text::owned(value);
        m.args.push(Arg { name, value: ArgValue::Text(value) });
        proof {
            assert(m@.args =~= before.args.push((name@, ValueView::Text(value@))));
        }
        m
    }

    /// With the number `value` for `name`.
    pub fn number(self, name: &'static str, value: i128) -> (m: Message)
        ensures
            m@ == self@.number(name@, value as int),
    {
        let ghost before = self@;
        let mut m = self;
        m.args.push(Arg { name, value: ArgValue::Number(value) });
        proof {
            assert(m@.args =~= before.args.push((name@, ValueView::Number(value as int))));
        }
        m
    }
}

/// The messages of a list.
pub open spec fn messages(v: Seq<Message>) -> Seq<MessageView> {
    v.map_values(|m: Message| m@)
}

/// A notice in the main window: a message, or words that came from
/// elsewhere.
#[derive(Clone, Debug, PartialEq, Eq)]
pub enum Notice {
    Said(Message),
    Plain(String),
}

/// What a notice says.
pub enum NoticeView {
    Said(MessageView),
    Plain(Seq<char>),
}

impl View for Notice {
    type V = NoticeView;

    open spec fn view(&self) -> NoticeView {
        match self {
            Notice::Said(m) => NoticeView::Said(m@),
            Notice::Plain(s) => NoticeView::Plain(s@),
        }
    }
}

/// `who: what`.
pub open spec fn told(who: Seq<char>, what: Seq<char>) -> NoticeView {
    NoticeView::Plain(who + ": "@ + what)
}

/// The notice `who: what`.
pub fn tell(who: &str, what: &str) -> (r: Notice)
    ensures
        r@ == told(who@, what@),
{
    let mut r = text::chars_of(who);
    let colon = text::chars_of(": ");
    text::append(&mut r, &colon);
    let what = text::chars_of(what);
    text::append(&mut r, &what);
    Notice::Plain(text::string_of(&r))
}

/// What an optional notice says.
pub open spec fn noticed(n: Option<Notice>) -> Option<NoticeView> {
    match n {
        Some(n) => Some(n@),
        None => None,
    }
}

/// A message has its key and its values, in the order they were given.
pub proof fn law_what_a_message_holds(key: Seq<char>, m: MessageView, name: Seq<char>, value: Seq<char>, n: int)
    ensures
        said(key).key == key && said(key).args.len() == 0,
        m.text(name, value).key == m.key && m.text(name, value).args == m.args.push((name, ValueView::Text(value))),
        m.number(name, n).key == m.key && m.number(name, n).args == m.args.push((name, ValueView::Number(n))),
        told(name, value) == NoticeView::Plain(name + ": "@ + value),
        noticed(None) is None,
{
}

} // verus!
