//! A small string-to-string mapping used for response headers, request
//! parameters and free-form settings. Entries nearer the front shadow later
//! entries with the same name, so its view is a plain map.
use vstd::prelude::*;
use crate::template::text::str_eq;

verus! {

#[derive(Debug, Clone)]
pub struct StrMap {
    pub entries: Vec<(String, String)>,
}

/// The mapping described by the entries from index `i` on; an entry binds its
/// name only where no earlier entry does.
pub open spec fn str_entries_map(s: Seq<(String, String)>, i: int) -> Map<Seq<char>, Seq<char>>
    decreases s.len() - i,
{
    if i < 0 || i >= s.len() {
        Map::empty()
    } else {
        str_entries_map(s, i + 1).insert(s[i].0@, s[i].1@)
    }
}

impl View for StrMap {
    type V = Map<Seq<char>, Seq<char>>;

    open spec fn view(&self) -> Map<Seq<char>, Seq<char>> {
        str_entries_map(self.entries@, 0)
    }
}

/// Prepending an entry shifts the rest of the sequence without changing the
/// mapping it describes.
proof fn lemma_str_entries_map_shift(x: (String, String), s: Seq<(String, String)>, i: int)
    requires
        0 <= i <= s.len(),
    ensures
        str_entries_map(seq![x] + s, i + 1) == str_entries_map(s, i),
    decreases s.len() - i,
{
    let t = seq![x] + s;
    if i < s.len() {
        lemma_str_entries_map_shift(x, s, i + 1);
        assert(t[i + 1] == s[i]);
    }
}

impl StrMap {
    pub fn new() -> (r: Self)
        ensures
            r@ == Map::<Seq<char>, Seq<char>>::empty(),
    {
        StrMap { entries: Vec::new() }
    }

    /// Whether the mapping binds nothing.
    pub fn is_empty(&self) -> (r: bool)
        ensures
            r == (self@ == Map::<Seq<char>, Seq<char>>::empty()),
    {
        if self.entries.len() == 0 {
            proof {
                assert(self@ =~= Map::<Seq<char>, Seq<char>>::empty());
            }
            true
        } else {
            proof {
                assert(self@.contains_key(self.entries@[0].0@));
            }
            false
        }
    }

    /// Look a name up; the first entry with that name decides.
    pub fn get<'a>(&'a self, key: &str) -> (r: Option<&'a String>)
        ensures
            match r {
                Some(v) => self@.contains_key(key@) && v@ == self@[key@],
                None => !self@.contains_key(key@),
            },
    {
        let n = self.entries.len();
        let mut i: usize = 0;
        while i < n
            invariant
                n == self.entries@.len(),
                0 <= i <= n,
                self@.contains_key(key@) == str_entries_map(self.entries@, i as int).contains_key(
                    key@,
                ),
                self@.contains_key(key@) ==> self@[key@] == str_entries_map(
                    self.entries@,
                    i as int,
                )[key@],
            decreases n - i,
        {
            if str_eq(self.entries[i].0.as_str(), key) {
                return Some(&self.entries[i].1);
            }
            i = i + 1;
        }
        None
    }

    /// Bind a name, shadowing any existing binding.
    pub fn insert(&mut self, key: String, value: String)
        ensures
            final(self)@ == old(self)@.insert(key@, value@),
    {
        let ghost s0 = self.entries@;
        self.entries.insert(0, (key, value));
        proof {
            assert(self.entries@ =~= seq![self.entries@[0]] + s0);
            lemma_str_entries_map_shift(self.entries@[0], s0, 0);
        }
    }
}

} // verus!
