//! The two stages that come with the library: bytes to text, and text to
//! characters.

use super::processor::{CacheModel, ResProcesser, Rule};
use super::value::{ResModel, ResValue, CHARS_TYPE, TEXT_TYPE};
use std::rc::Rc;
use vstd::hash_map::StringHashMap;
use vstd::prelude::*;
use vstd::utf8::{decode_utf8, valid_utf8};

verus! {

/// Type identifier of the stage `TextRes`.
pub const TEXT_RES: u64 = 1;

/// Type identifier of the stage `CharArrRes`.
pub const CHAR_ARR_RES: u64 = 2;

/// What `TextRes` computes: the text that well-formed UTF-8 bytes encode.
/// Bytes that are not well-formed UTF-8, and values that are not bytes,
/// have no output.
pub open spec fn text_rule() -> Rule {
    |d: ResModel|
        match d {
            ResModel::Bytes(b) => if valid_utf8(b) {
                Some(ResModel::Text(decode_utf8(b)))
            } else {
                None
            },
            _ => None,
        }
}

/// What `CharArrRes` computes: the characters of a text, in order. Values
/// that are not text have no output.
pub open spec fn char_arr_rule() -> Rule {
    |d: ResModel|
        match d {
            ResModel::Text(t) => Some(ResModel::Chars(t)),
            _ => None,
        }
}

/// Calls `String::from_utf8`. Trusted: the call succeeds exactly on
/// well-formed UTF-8, and the string it then returns is the decoded bytes.
#[verifier::external_body]
fn string_from_utf8(bytes: Vec<u8>) -> (r: Option<String>)
    ensures
        match r {
            Some(s) => valid_utf8(bytes@) && s@ == decode_utf8(bytes@),
            None => !valid_utf8(bytes@),
        },
{
    String::from_utf8(bytes).ok()
}

/// Decodes raw bytes into text.
pub struct TextRes {
    cache: StringHashMap<Rc<String>>,
}

impl TextRes {
    /// A stage with an empty cache.
    pub fn new() -> (r: TextRes)
        ensures
            r.cache() == CacheModel::empty(),
    {
        let r = TextRes { cache: StringHashMap::new() };
        assert(r.cache() =~= CacheModel::empty());
        r
    }
}

impl ResProcesser for TextRes {
    open spec fn proc_type(&self) -> u64 {
        TEXT_RES
    }

    open spec fn out_type(&self) -> u64 {
        TEXT_TYPE
    }

    open spec fn rule(&self) -> Rule {
        text_rule()
    }

    closed spec fn cache(&self) -> CacheModel {
        self.cache@.map_values(|t: Rc<String>| ResModel::Text(t@))
    }

    fn type_key(&self) -> (k: u64) {
        TEXT_RES
    }

    fn out_key(&self) -> (k: u64) {
        TEXT_TYPE
    }

    fn process(&self, d: ResValue) -> (r: Option<ResValue>) {
        match d {
            ResValue::Bytes(b) => {
                let owned: Vec<u8> = (*b).clone();
                match string_from_utf8(owned) {
                    Some(s) => Some(ResValue::Text(Rc::new(s))),
                    None => None,
                }
            },
            _ => None,
        }
    }

    fn get_cache(&self, path: &String) -> (r: Option<ResValue>) {
        match self.cache.get(path.as_str()) {
            Some(t) => Some(ResValue::Text(t.clone())),
            None => None,
        }
    }

    fn add_cache(&mut self, path: String, data: ResValue) {
        match data {
            ResValue::Text(t) => {
                self.cache.insert(path, t);
                assert(self.cache() =~= old(self).cache().insert(path@, data@));
            },
            _ => {},
        }
    }

    fn clear_cache(&mut self) {
        self.cache.clear();
        assert(self.cache() =~= CacheModel::empty());
    }

    fn rm_cache(&mut self, path: &String) -> (r: Option<ResValue>) {
        let r = self.get_cache(path);
        self.cache.remove(path.as_str());
        assert(self.cache() =~= old(self).cache().remove(path@));
        r
    }
}

/// Splits text into its characters.
pub struct CharArrRes {
    cache: StringHashMap<Rc<Vec<char>>>,
}

impl CharArrRes {
    /// A stage with an empty cache.
    pub fn new() -> (r: CharArrRes)
        ensures
            r.cache() == CacheModel::empty(),
    {
        let r = CharArrRes { cache: StringHashMap::new() };
        assert(r.cache() =~= CacheModel::empty());
        r
    }
}

impl ResProcesser for CharArrRes {
    open spec fn proc_type(&self) -> u64 {
        CHAR_ARR_RES
    }

    open spec fn out_type(&self) -> u64 {
        CHARS_TYPE
    }

    open spec fn rule(&self) -> Rule {
        char_arr_rule()
    }

    closed spec fn cache(&self) -> CacheModel {
        self.cache@.map_values(|c: Rc<Vec<char>>| ResModel::Chars(c@))
    }

    fn type_key(&self) -> (k: u64) {
        CHAR_ARR_RES
    }

    fn out_key(&self) -> (k: u64) {
        CHARS_TYPE
    }

    fn process(&self, d: ResValue) -> (r: Option<ResValue>) {
        match d {
            ResValue::Text(t) => {
                let mut chars: Vec<char> = Vec::new();
                for c in it: t.as_str().chars()
                    invariant
                        it.seq() == t@,
                        chars@ == it.seq().take(it.index() as int),
                {
                    chars.push(c);
                }
                assert(chars@ =~= t@);
                Some(ResValue::Chars(Rc::new(chars)))
            },
            _ => None,
        }
    }

    fn get_cache(&self, path: &String) -> (r: Option<ResValue>) {
        match self.cache.get(path.as_str()) {
            Some(c) => Some(ResValue::Chars(c.clone())),
            None => None,
        }
    }

    fn add_cache(&mut self, path: String, data: ResValue) {
        match data {
            ResValue::Chars(c) => {
                self.cache.insert(path, c);
                assert(self.cache() =~= old(self).cache().insert(path@, data@));
            },
            _ => {},
        }
    }

    fn clear_cache(&mut self) {
        self.cache.clear();
        assert(self.cache() =~= CacheModel::empty());
    }

    fn rm_cache(&mut self, path: &String) -> (r: Option<ResValue>) {
        let r = self.get_cache(path);
        self.cache.remove(path.as_str());
        assert(self.cache() =~= old(self).cache().remove(path@));
        r
    }
}

} // verus!
