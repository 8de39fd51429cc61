//! How a token is written back as HTML.
use vstd::prelude::*;

use super::{Attribute, Token, TokenType};
use crate::text::push_char;

verus! {

/// ` key="value"`: one attribute as a tag writes it.
pub open spec fn attr_string(a: Attribute) -> Seq<char> {
    seq![' '] + a.key->0@ + seq!['=', '"'] + a.value->0@ + seq!['"']
}

/// The attributes of a tag, each as `attr_string` writes it, in order.
pub open spec fn attrs_string(attrs: Seq<Attribute>) -> Seq<char>
    decreases attrs.len(),
{
    if attrs.len() == 0 {
        Seq::<char>::empty()
    } else {
        attrs_string(attrs.drop_last()) + attr_string(attrs.last())
    }
}

/// Every attribute has a key and a value.
pub open spec fn attrs_complete(attrs: Seq<Attribute>) -> bool {
    forall|i: int| 0 <= i < attrs.len() ==> (#[trigger] attrs[i]).key is Some && attrs[i].value is Some
}

/// The inside of a tag: its name followed by its attributes; empty without a name.
pub open spec fn tag_string_of(data: Option<String>, attrs: Seq<Attribute>) -> Seq<char> {
    match data {
        None => Seq::<char>::empty(),
        Some(d) => d@ + attrs_string(attrs),
    }
}

impl Token {
    /// The token can be written back: text-like tokens carry their text, and a named
    /// tag's attributes all have a key and a value.
    pub open spec fn writable(&self) -> bool {
        &&& (self.token_type == TokenType::TextToken || self.token_type == TokenType::CommentToken
            || self.token_type == TokenType::DoctypeToken) ==> self.data is Some
        &&& (self.token_type == TokenType::StartTagToken || self.token_type == TokenType::EndTagToken
            || self.token_type == TokenType::SelfClosingTagToken) && self.data is Some
            ==> attrs_complete(self.attrs@)
    }

    /// The HTML text of the token.
    pub open spec fn html_string(&self) -> Seq<char> {
        let tag = tag_string_of(self.data, self.attrs@);
        match self.token_type {
            TokenType::ErrorToken => Seq::<char>::empty(),
            TokenType::TextToken => self.data->0@,
            TokenType::StartTagToken => seq!['<'] + tag + seq!['>'],
            TokenType::EndTagToken => seq!['<', '/'] + tag + seq!['>'],
            TokenType::SelfClosingTagToken => seq!['<'] + tag + seq!['/', '>'],
            TokenType::CommentToken => seq!['<', '!', '-', '-'] + self.data->0@ + seq!['-', '-', '>'],
            TokenType::DoctypeToken => seq!['<', '!', 'D', 'O', 'C', 'T', 'Y', 'P', 'E', ' ']
                + self.data->0@ + seq!['>'],
            TokenType::NoneToken => seq!['i', 'n', 'v', 'a', 'l', 'i', 'd'],
        }
    }

    /// The tag name followed by ` key="value"` for each attribute.
    fn tag_string(&self) -> (res: String)
        requires
            self.data is Some ==> attrs_complete(self.attrs@),
        ensures
            res@ == tag_string_of(self.data, self.attrs@),
    {
        let mut tag = match &self.data {
            None => return String::new(),
            Some(d) => d.clone(),
        };
        let mut i: usize = 0;
        while i < self.attrs.len()
            invariant
                i <= self.attrs@.len(),
                self.data is Some,
                attrs_complete(self.attrs@),
                tag@ == self.data->0@ + attrs_string(self.attrs@.take(i as int)),
            decreases self.attrs@.len() - i,
        {
            let attr = &self.attrs[i];
            let key = match &attr.key {
                Some(k) => k,
                None => return tag,
            };
            let value = match &attr.value {
                Some(v) => v,
                None => return tag,
            };
            push_char(&mut tag, ' ');
            tag.append(key.as_str());
            push_char(&mut tag, '=');
            push_char(&mut tag, '"');
            tag.append(value.as_str());
            push_char(&mut tag, '"');
            proof {
                let next = self.attrs@.take(i + 1);
                assert(next.drop_last() =~= self.attrs@.take(i as int));
                assert(next.last() == self.attrs@[i as int]);
                assert(tag@ =~= self.data->0@ + attrs_string(next));
            }
            i = i + 1;
        }
        assert(self.attrs@.take(i as int) =~= self.attrs@);
        tag
    }

    /// The token written back as HTML.
    pub fn to_string(&self) -> (res: String)
        requires
            self.writable(),
        ensures
            res@ == self.html_string(),
    {
        match self.token_type {
            TokenType::ErrorToken => String::new(),
            TokenType::TextToken => match &self.data {
                Some(d) => d.clone(),
                None => String::new(),
            },
            TokenType::StartTagToken => {
                let mut s = String::new();
                push_char(&mut s, '<');
                s.append(self.tag_string().as_str());
                push_char(&mut s, '>');
                s
            },
            TokenType::EndTagToken => {
                let mut s = String::new();
                push_char(&mut s, '<');
                push_char(&mut s, '/');
                s.append(self.tag_string().as_str());
                push_char(&mut s, '>');
                s
            },
            TokenType::SelfClosingTagToken => {
                let mut s = String::new();
                push_char(&mut s, '<');
                s.append(self.tag_string().as_str());
                push_char(&mut s, '/');
                push_char(&mut s, '>');
                s
            },
            TokenType::CommentToken => {
                let mut s = String::new();
                push_char(&mut s, '<');
                push_char(&mut s, '!');
                push_char(&mut s, '-');
                push_char(&mut s, '-');
                match &self.data {
                    Some(d) => s.append(d.as_str()),
                    None => {},
                }
                push_char(&mut s, '-');
                push_char(&mut s, '-');
                push_char(&mut s, '>');
                s
            },
            TokenType::DoctypeToken => {
                let mut s = String::new();
                push_char(&mut s, '<');
                push_char(&mut s, '!');
                push_char(&mut s, 'D');
                push_char(&mut s, 'O');
                push_char(&mut s, 'C');
                push_char(&mut s, 'T');
                push_char(&mut s, 'Y');
                push_char(&mut s, 'P');
                push_char(&mut s, 'E');
                push_char(&mut s, ' ');
                match &self.data {
                    Some(d) => s.append(d.as_str()),
                    None => {},
                }
                push_char(&mut s, '>');
                s
            },
            TokenType::NoneToken => {
                let mut s = String::new();
                push_char(&mut s, 'i');
                push_char(&mut s, 'n');
                push_char(&mut s, 'v');
                push_char(&mut s, 'a');
                push_char(&mut s, 'l');
                push_char(&mut s, 'i');
                push_char(&mut s, 'd');
                s
            },
        }
    }
}

} // verus!
