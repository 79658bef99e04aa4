//! The values that travel between the stages of a processing chain.

use std::rc::Rc;
use vstd::prelude::*;

verus! {

/// Type identifier of raw bytes as they come from storage.
pub const BYTES_TYPE: u64 = 0;

/// Type identifier of decoded text.
pub const TEXT_TYPE: u64 = 1;

/// Type identifier of a sequence of characters.
pub const CHARS_TYPE: u64 = 2;

/// A shared, reference-counted stage value. Handing one on costs a
/// reference count, never a copy of the data.
pub enum ResValue {
    Bytes(Rc<Vec<u8>>),
    Text(Rc<String>),
    Chars(Rc<Vec<char>>),
}

/// What a `ResValue` holds, as plain data.
pub enum ResModel {
    Bytes(Seq<u8>),
    Text(Seq<char>),
    Chars(Seq<char>),
}

impl ResModel {
    /// The identifier of the type of the data.
    pub open spec fn type_key(self) -> u64 {
        match self {
            ResModel::Bytes(_) => BYTES_TYPE,
            ResModel::Text(_) => TEXT_TYPE,
            ResModel::Chars(_) => CHARS_TYPE,
        }
    }
}

impl View for ResValue {
    type V = ResModel;

    open spec fn view(&self) -> ResModel {
        match self {
            ResValue::Bytes(b) => ResModel::Bytes(b@),
            ResValue::Text(t) => ResModel::Text(t@),
            ResValue::Chars(c) => ResModel::Chars(c@),
        }
    }
}

/// The views of an optional value.
pub open spec fn opt_view(v: Option<ResValue>) -> Option<ResModel> {
    match v {
        Some(x) => Some(x@),
        None => None,
    }
}

impl ResValue {
    /// The identifier of the type of the data held.
    pub fn type_key(&self) -> (k: u64)
        ensures
            k == self@.type_key(),
    {
        match self {
            ResValue::Bytes(_) => BYTES_TYPE,
            ResValue::Text(_) => TEXT_TYPE,
            ResValue::Chars(_) => CHARS_TYPE,
        }
    }

    /// Another handle on the same data.
    pub fn share(&self) -> (r: ResValue)
        ensures
            r@ == self@,
    {
        match self {
            ResValue::Bytes(b) => ResValue::Bytes(b.clone()),
            ResValue::Text(t) => ResValue::Text(t.clone()),
            ResValue::Chars(c) => ResValue::Chars(c.clone()),
        }
    }

    /// The bytes, if this value holds bytes.
    pub fn as_bytes(&self) -> (r: Option<Rc<Vec<u8>>>)
        ensures
            match r {
                Some(b) => self@ == ResModel::Bytes(b@),
                None => !(self@ is Bytes),
            },
    {
        match self {
            ResValue::Bytes(b) => Some(b.clone()),
            _ => None,
        }
    }

    /// The text, if this value holds text.
    pub fn as_text(&self) -> (r: Option<Rc<String>>)
        ensures
            match r {
                Some(t) => self@ == ResModel::Text(t@),
                None => !(self@ is Text),
            },
    {
        match self {
            ResValue::Text(t) => Some(t.clone()),
            _ => None,
        }
    }

    /// The characters, if this value holds a character sequence.
    pub fn as_chars(&self) -> (r: Option<Rc<Vec<char>>>)
        ensures
            match r {
                Some(c) => self@ == ResModel::Chars(c@),
                None => !(self@ is Chars),
            },
    {
        match self {
            ResValue::Chars(c) => Some(c.clone()),
            _ => None,
        }
    }
}

} // verus!
