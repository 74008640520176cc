//! The parameters bound while a path is matched against a pattern.

use vstd::hash_map::StringHashMap;
use vstd::prelude::*;
use vstd::string::*;

verus! {

/// The mathematical content of a set of route parameters: each name is bound
/// to one text.
pub type Bindings = Map<Seq<char>, Seq<char>>;

/// A mapping from parameter names to the texts bound to them. Names are
/// unique; the order of insertion plays no part.
pub struct RouteParams {
    pub params: StringHashMap<String>,
}

impl View for RouteParams {
    type V = Bindings;

    open spec fn view(&self) -> Bindings {
        self.params@.map_values(|v: String| v@)
    }
}

impl RouteParams {
    /// An empty set of parameters.
    pub fn new() -> (out: Self)
        ensures
            out@ == Bindings::empty(),
    {
        let out = RouteParams { params: StringHashMap::new() };
        assert(out@ =~= Bindings::empty());
        out
    }

    /// The text bound to `key`, if any.
    pub fn get(&self, key: &str) -> (out: Option<&str>)
        ensures
            out is Some <==> self@.contains_key(key@),
            out matches Some(text) ==> text@ == self@[key@],
    {
        match self.params.get(key) {
            Some(text) => Some(text.as_str()),
            None => None,
        }
    }

    /// Binds `key` to `value`, replacing what `key` was bound to before.
    pub fn insert(&mut self, key: String, value: String)
        ensures
            final(self)@ == old(self)@.insert(key@, value@),
    {
        self.params.insert(key, value);
        assert(self@ =~= old(self)@.insert(key@, value@));
    }
}

impl Default for RouteParams {
    fn default() -> (out: Self)
        ensures
            out@ == Bindings::empty(),
    {
        RouteParams::new()
    }
}

/// A value that was bound under a name is read back unchanged, character for
/// character, whatever else the parameters held and whatever the value contains.
pub proof fn lemma_bound_value_is_read_back(before: Bindings, key: Seq<char>, value: Seq<char>)
    ensures
        before.insert(key, value).contains_key(key),
        before.insert(key, value)[key] == value,
        forall|other: Seq<char>|
            other != key ==> before.insert(key, value).contains_key(other) == before.contains_key(
                other,
            ),
        forall|other: Seq<char>|
            other != key && before.contains_key(other) ==> before.insert(key, value)[other]
                == before[other],
{
}

} // verus!
