use vstd::prelude::*;

verus! {

/// A structured document as plain values: scalars, sequences and mappings.
/// A mapping keeps its entries in document order.
#[derive(Debug, PartialEq, Eq)]
pub enum Yaml {
    Null,
    Bool(bool),
    /// A number, kept as its text.
    Number(String),
    Str(String),
    Sequence(Vec<Yaml>),
    Mapping(Vec<(Yaml, Yaml)>),
}

/// `k` is the string key `key`.
pub open spec fn is_key(k: Yaml, key: Seq<char>) -> bool {
    k matches Yaml::Str(s) && s@ == key
}

/// Entry `i` is the first entry of `entries` whose key is `key`.
pub open spec fn first_key_at(entries: Seq<(Yaml, Yaml)>, key: Seq<char>, i: int) -> bool {
    &&& 0 <= i < entries.len()
    &&& is_key(entries[i].0, key)
    &&& forall|j: int| 0 <= j < i ==> !is_key(#[trigger] entries[j].0, key)
}

/// The value of the first entry whose key is `key`.
pub open spec fn entry_lookup(entries: Seq<(Yaml, Yaml)>, key: Seq<char>) -> Option<Yaml> {
    if exists|i: int| first_key_at(entries, key, i) {
        Some(entries[choose|i: int| first_key_at(entries, key, i)].1)
    } else {
        None
    }
}

/// The text of a string value.
pub open spec fn text_of(y: Yaml) -> Option<Seq<char>> {
    match y {
        Yaml::Str(s) => Some(s@),
        _ => None,
    }
}

/// The value under `key` when `y` is a mapping.
pub open spec fn field(y: Yaml, key: Seq<char>) -> Option<Yaml> {
    match y {
        Yaml::Mapping(entries) => entry_lookup(entries@, key),
        _ => None,
    }
}

/// The text under `key` when `y` is a mapping and that value is a string.
pub open spec fn text_field(y: Yaml, key: Seq<char>) -> Option<Seq<char>> {
    match field(y, key) {
        Some(v) => text_of(v),
        None => None,
    }
}

pub proof fn lemma_first_key_unique(entries: Seq<(Yaml, Yaml)>, key: Seq<char>, i: int, j: int)
    requires
        first_key_at(entries, key, i),
        first_key_at(entries, key, j),
    ensures
        i == j,
{
    if i < j {
        assert(!is_key(entries[i].0, key));
    } else if j < i {
        assert(!is_key(entries[j].0, key));
    }
}

/// The value of the first entry of `entries` whose key is the string `key`.
pub fn lookup_entry<'a>(entries: &'a Vec<(Yaml, Yaml)>, key: &str) -> (r: Option<&'a Yaml>)
    ensures
        r is Some <==> entry_lookup(entries@, key@) is Some,
        r matches Some(v) ==> entry_lookup(entries@, key@) == Some(*v),
{
    let wanted = String::from_str(key);
    let mut i: usize = 0;
    while i < entries.len()
        invariant
            wanted@ == key@,
            0 <= i <= entries@.len(),
            forall|j: int| 0 <= j < i ==> !is_key(#[trigger] entries@[j].0, key@),
        decreases entries@.len() - i,
    {
        let found = match &entries[i].0 {
            Yaml::Str(s) => *s == wanted,
            _ => false,
        };
        if found {
            proof {
                assert(first_key_at(entries@, key@, i as int));
                let k = choose|k: int| first_key_at(entries@, key@, k);
                lemma_first_key_unique(entries@, key@, i as int, k);
            }
            return Some(&entries[i].1);
        }
        i = i + 1;
    }
    proof {
        assert forall|k: int| !first_key_at(entries@, key@, k) by {
            if 0 <= k < entries@.len() {
                assert(!is_key(entries@[k].0, key@));
            }
        }
    }
    None
}

impl Yaml {
    /// The value under `key`, when this is a mapping that has it.
    pub fn get(&self, key: &str) -> (r: Option<&Yaml>)
        ensures
            r is Some <==> field(*self, key@) is Some,
            r matches Some(v) ==> field(*self, key@) == Some(*v),
    {
        match self {
            Yaml::Mapping(entries) => lookup_entry(entries, key),
            _ => None,
        }
    }

    /// The text, when this is a string.
    pub fn as_text(&self) -> (r: Option<&String>)
        ensures
            r is Some <==> text_of(*self) is Some,
            r matches Some(s) ==> text_of(*self) == Some(s@),
    {
        match self {
            Yaml::Str(s) => Some(s),
            _ => None,
        }
    }

    /// The elements, when this is a sequence.
    pub fn as_seq(&self) -> (r: Option<&Vec<Yaml>>)
        ensures
            r is Some <==> self is Sequence,
            r matches Some(v) ==> *self == Yaml::Sequence(*v),
    {
        match self {
            Yaml::Sequence(v) => Some(v),
            _ => None,
        }
    }

    /// The entries, when this is a mapping.
    pub fn as_map(&self) -> (r: Option<&Vec<(Yaml, Yaml)>>)
        ensures
            r is Some <==> self is Mapping,
            r matches Some(v) ==> *self == Yaml::Mapping(*v),
    {
        match self {
            Yaml::Mapping(v) => Some(v),
            _ => None,
        }
    }

    /// The text under `key`, when this is a mapping whose value there is a string.
    pub fn text_at(&self, key: &str) -> (r: Option<&String>)
        ensures
            r is Some <==> text_field(*self, key@) is Some,
            r matches Some(s) ==> text_field(*self, key@) == Some(s@),
    {
        match self.get(key) {
            Some(v) => v.as_text(),
            None => None,
        }
    }
}

} // verus!
