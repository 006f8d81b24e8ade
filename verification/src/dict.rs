//! The word dictionary: names mapped to stored token sequences.
//!
//! The table itself is hashbrown's hash map, held behind a small trusted
//! boundary: `dict_view` names its contents as a mathematical map from a
//! name's characters to its body's token sequences, and the three methods
//! state what the underlying map operations do to those contents.

use crate::Word;
use vstd::prelude::*;

verus! {

/// The dictionary of user-defined words.  Each body is kept in reading
/// order, unresolved: names inside it are looked up again at every call.
#[verifier::external_body]
pub struct Dict {
    map: hashbrown::HashMap<Word, Vec<Word>>,
}

/// What the dictionary holds: each defined name, as its characters, mapped
/// to the token sequences of its body.
pub uninterp spec fn dict_view(d: Dict) -> Map<Seq<char>, Seq<Seq<char>>>;

impl Dict {
    /// Relies on hashbrown::HashMap::with_capacity: a newly created map is
    /// empty.
    #[verifier::external_body]
    pub fn with_capacity(cap: usize) -> (d: Dict)
        ensures
            dict_view(d).dom() == Set::<Seq<char>>::empty(),
    {
        Dict { map: hashbrown::HashMap::with_capacity(cap) }
    }

    /// Relies on hashbrown::HashMap::insert: the value is stored under the
    /// key, replacing any earlier value; `String` keys hash and compare by
    /// their text.
    #[verifier::external_body]
    pub fn insert(&mut self, name: Word, body: Vec<Word>)
        ensures
            dict_view(*final(self)) == dict_view(*old(self)).insert(name@, body.deep_view()),
    {
        self.map.insert(name, body);
    }

    /// Relies on hashbrown::HashMap::get: the stored value for a key that
    /// compares equal, or nothing when the key is absent.
    #[verifier::external_body]
    pub fn get(&self, name: &Word) -> (r: Option<&Vec<Word>>)
        ensures
            match r {
                Some(body) => dict_view(*self).contains_key(name@) && body.deep_view() == dict_view(
                    *self,
                )[name@],
                None => !dict_view(*self).contains_key(name@),
            },
    {
        self.map.get(name)
    }
}

} // verus!
