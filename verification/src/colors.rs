//! The built-in named colors and the string-to-string table used for color
//! maps, legends and atom properties. The table's model is the map its
//! entries denote, later entries winning, like the evaluation environment.

use vstd::prelude::*;

use crate::ast::{lemma_pairs_view_push, pairs_view};
use crate::types::map_of_pairs;

verus! {

/// An ordered list of string bindings whose model is the map they denote.
#[derive(Debug)]
pub struct StrMap {
    pub entries: Vec<(String, String)>,
}

impl View for StrMap {
    type V = Map<Seq<char>, Seq<char>>;

    open spec fn view(&self) -> Map<Seq<char>, Seq<char>> {
        map_of_pairs(pairs_view(self.entries@))
    }
}

/// The string map of a nonempty binding list is the map of all but the last
/// binding, with the last binding inserted.
pub proof fn lemma_map_of_pairs_snoc(s: Seq<(String, String)>)
    requires
        s.len() > 0,
    ensures
        map_of_pairs(pairs_view(s)) == map_of_pairs(pairs_view(s.drop_last())).insert(
            s.last().0@,
            s.last().1@,
        ),
{
    let t = s.drop_last();
    assert(t.push(s.last()) =~= s);
    lemma_pairs_view_push(t, s.last());
    let q = pairs_view(s);
    assert(q == pairs_view(t).push((s.last().0@, s.last().1@)));
    assert(q.drop_last() =~= pairs_view(t));
    assert(q.len() > 0);
    assert(q.last() == (s.last().0@, s.last().1@));
}

/// Bindings beyond `i` that never match `k` do not affect lookup of `k`.
proof fn lemma_strmap_skip(s: Seq<(String, String)>, k: Seq<char>, i: int)
    requires
        0 <= i <= s.len(),
        forall|j: int| i <= j < s.len() ==> (#[trigger] s[j]).0@ != k,
    ensures
        map_of_pairs(pairs_view(s)).contains_key(k) <==> map_of_pairs(
            pairs_view(s.subrange(0, i)),
        ).contains_key(k),
        map_of_pairs(pairs_view(s)).contains_key(k) ==> map_of_pairs(pairs_view(s))[k]
            == map_of_pairs(pairs_view(s.subrange(0, i)))[k],
    decreases s.len() - i,
{
    if i == s.len() {
        assert(s.subrange(0, i) =~= s);
    } else {
        let t = s.drop_last();
        lemma_map_of_pairs_snoc(s);
        assert(s.last().0@ != k);
        if i == s.len() - 1 {
            assert(s.subrange(0, i) =~= t);
        } else {
            assert(forall|j: int| i <= j < t.len() ==> (#[trigger] t[j]).0@ != k) by {
                assert(forall|j: int| i <= j < t.len() ==> t[j] == s[j]);
            }
            lemma_strmap_skip(t, k, i);
            assert(t.subrange(0, i) =~= s.subrange(0, i));
        }
    }
}

impl StrMap {
    /// The empty table.
    pub fn new() -> (r: StrMap)
        ensures
            r@ == Map::<Seq<char>, Seq<char>>::empty(),
    {
        let r = StrMap { entries: Vec::new() };
        proof {
            assert(pairs_view(r.entries@) =~= Seq::<(Seq<char>, Seq<char>)>::empty());
        }
        r
    }

    /// Bind `key` to `value`, shadowing any earlier binding of that key.
    pub fn insert(&mut self, key: String, value: String)
        ensures
            final(self)@ == old(self)@.insert(key@, value@),
    {
        let ghost k = key@;
        let ghost v = value@;
        self.entries.push((key, value));
        proof {
            lemma_map_of_pairs_snoc(self.entries@);
            assert(self.entries@.drop_last() =~= old(self).entries@);
            assert(self.entries@.last().0@ == k && self.entries@.last().1@ == v);
        }
    }

    /// The value bound to `key`, if any: the latest binding wins.
    pub fn get(&self, key: &str) -> (r: Option<&String>)
        ensures
            match r {
                Some(v) => self@.contains_key(key@) && v@ == self@[key@],
                None => !self@.contains_key(key@),
            },
    {
        let n = self.entries.len();
        let mut i: usize = n;
        while i > 0
            invariant
                i <= n,
                n == self.entries@.len(),
                forall|j: int| i <= j < n ==> (#[trigger] self.entries@[j]).0@ != key@,
            decreases i,
        {
            i = i - 1;
            if crate::strutil::str_eq(self.entries[i].0.as_str(), key) {
                proof {
                    lemma_strmap_skip(self.entries@, key@, i + 1);
                    let post = self.entries@.subrange(0, i + 1);
                    lemma_map_of_pairs_snoc(post);
                    assert(post.drop_last() =~= self.entries@.subrange(0, i as int));
                    assert(post.last() == self.entries@[i as int]);
                }
                return Some(&self.entries[i].1);
            }
        }
        proof {
            lemma_strmap_skip(self.entries@, key@, 0);
            assert(self.entries@.subrange(0, 0) =~= Seq::<(String, String)>::empty());
            assert(pairs_view(Seq::<(String, String)>::empty()) =~= Seq::<
                (Seq<char>, Seq<char>),
            >::empty());
        }
        None
    }

    /// Whether `key` is bound.
    pub fn contains(&self, key: &str) -> (r: bool)
        ensures
            r == self@.contains_key(key@),
    {
        match self.get(key) {
            Some(_) => true,
            None => false,
        }
    }

    /// A copy of the table, equal to it in the model.
    pub fn duplicate(&self) -> (r: StrMap)
        ensures
            r@ == self@,
    {
        StrMap { entries: crate::ast::dup_string_pairs(&self.entries) }
    }
}

/// The value bound to `key` in a list of string bindings, if any: the latest
/// binding wins, as in the map the list denotes.
pub fn pairs_get<'a>(entries: &'a Vec<(String, String)>, key: &str) -> (r: Option<&'a String>)
    ensures
        match r {
            Some(v) => map_of_pairs(pairs_view(entries@)).contains_key(key@) && v@ == map_of_pairs(
                pairs_view(entries@),
            )[key@],
            None => !map_of_pairs(pairs_view(entries@)).contains_key(key@),
        },
{
    let n = entries.len();
    let mut i: usize = n;
    while i > 0
        invariant
            i <= n,
            n == entries@.len(),
            forall|j: int| i <= j < n ==> (#[trigger] entries@[j]).0@ != key@,
        decreases i,
    {
        i = i - 1;
        if crate::strutil::str_eq(entries[i].0.as_str(), key) {
            proof {
                lemma_strmap_skip(entries@, key@, i + 1);
                let post = entries@.subrange(0, i + 1);
                lemma_map_of_pairs_snoc(post);
                assert(post.drop_last() =~= entries@.subrange(0, i as int));
                assert(post.last() == entries@[i as int]);
            }
            return Some(&entries[i].1);
        }
    }
    proof {
        lemma_strmap_skip(entries@, key@, 0);
        assert(entries@.subrange(0, 0) =~= Seq::<(String, String)>::empty());
        assert(pairs_view(Seq::<(String, String)>::empty()) =~= Seq::<
            (Seq<char>, Seq<char>),
        >::empty());
    }
    None
}

/// The built-in named colors: a fixed table from color names to hex values,
/// available without any input or output.
pub open spec fn default_colors_spec() -> Map<Seq<char>, Seq<char>> {
    Map::<Seq<char>, Seq<char>>::empty().insert("red"@, "#ff0000"@).insert(
        "orange"@,
        "#ffa500"@,
    ).insert("yellow"@, "#ffff00"@).insert("green"@, "#00ff00"@).insert("blue"@, "#0000ff"@).insert(
        "purple"@,
        "#800080"@,
    ).insert("white"@, "#ffffff"@).insert("black"@, "#000000"@).insert("brown"@, "#8b4513"@).insert(
        "moxi-pink"@,
        "#fcb7b7"@,
    )
}

/// Build the table of built-in color names to hex values.
pub fn default_colors() -> (r: StrMap)
    ensures
        r@ == default_colors_spec(),
{
    let mut t = StrMap::new();
    t.insert("red".to_owned(), "#ff0000".to_owned());
    t.insert("orange".to_owned(), "#ffa500".to_owned());
    t.insert("yellow".to_owned(), "#ffff00".to_owned());
    t.insert("green".to_owned(), "#00ff00".to_owned());
    t.insert("blue".to_owned(), "#0000ff".to_owned());
    t.insert("purple".to_owned(), "#800080".to_owned());
    t.insert("white".to_owned(), "#ffffff".to_owned());
    t.insert("black".to_owned(), "#000000".to_owned());
    t.insert("brown".to_owned(), "#8b4513".to_owned());
    t.insert("moxi-pink".to_owned(), "#fcb7b7".to_owned());
    t
}

} // verus!
