//! The parameter store: an ordered mapping from string keys to value cells,
//! with copy-on-write mutators, a merge operator, value-based equality, and a
//! projection into a template-rendering context.

use vstd::prelude::*;

use crate::value::Param;
use crate::value::ParamFull;
use crate::value::ValueCell;

verus! {

/// The reserved key used as the default channel for single-value use.
pub open spec fn text_key() -> Seq<char> {
    "text"@
}

/// The reserved key, as a string the executable code can use.
pub fn text_key_str() -> (r: &'static str)
    ensures
        r@ == text_key(),
{
    "text"
}

/// The mathematical content of a sequence of entries: the map sending each
/// key to the text its cell resolves to, with a later entry overriding an
/// earlier one under the same key.
pub closed spec fn entries_map(s: Seq<(String, ValueCell)>) -> Map<Seq<char>, Seq<char>>
    decreases s.len(),
{
    if s.len() == 0 {
        Map::empty()
    } else {
        entries_map(s.drop_last()).insert(s.last().0@, s.last().1@)
    }
}

/// The mathematical content of a sequence of key/value pairs: the map sending
/// each key to its text, with a later pair overriding an earlier one under
/// the same key.
pub open spec fn pairs_map(s: Seq<(String, String)>) -> Map<Seq<char>, Seq<char>>
    decreases s.len(),
{
    if s.len() == 0 {
        Map::empty()
    } else {
        pairs_map(s.drop_last()).insert(s.last().0@, s.last().1@)
    }
}

/// The mathematical content of a sequence of borrowed key/value pairs, as
/// `pairs_map` but over string slices.
pub open spec fn str_pairs_map(s: Seq<(&str, &str)>) -> Map<Seq<char>, Seq<char>>
    decreases s.len(),
{
    if s.len() == 0 {
        Map::empty()
    } else {
        str_pairs_map(s.drop_last()).insert(s.last().0@, s.last().1@)
    }
}

/// No two entries share a key.
pub closed spec fn unique_keys(s: Seq<(String, ValueCell)>) -> bool {
    forall|i: int, j: int|
        0 <= i < j < s.len() ==> s[i].0@ != s[j].0@
}

/// A key is in the map of a sequence of entries exactly when some entry
/// carries it.
proof fn lemma_entries_map_contains(s: Seq<(String, ValueCell)>, k: Seq<char>)
    ensures
        entries_map(s).contains_key(k) <==> exists|i: int|
            0 <= i < s.len() && #[trigger] s[i].0@ == k,
    decreases s.len(),
{
    if s.len() > 0 {
        lemma_entries_map_contains(s.drop_last(), k);
        if entries_map(s).contains_key(k) {
            if s.last().0@ != k {
                let i = choose|i: int| 0 <= i < s.drop_last().len() && #[trigger] s.drop_last()[i].0@ == k;
                assert(s[i].0@ == k);
            }
        }
        if exists|i: int| 0 <= i < s.len() && #[trigger] s[i].0@ == k {
            let i = choose|i: int| 0 <= i < s.len() && #[trigger] s[i].0@ == k;
            if i < s.len() - 1 {
                assert(s.drop_last()[i].0@ == k);
            }
        }
    }
}

/// Under unique keys, the map of a sequence of entries sends each entry's key
/// to that entry's text.
proof fn lemma_entries_map_value(s: Seq<(String, ValueCell)>, i: int)
    requires
        unique_keys(s),
        0 <= i < s.len(),
    ensures
        entries_map(s).contains_key(s[i].0@),
        entries_map(s)[s[i].0@] == s[i].1@,
    decreases s.len(),
{
    if i < s.len() - 1 {
        assert(unique_keys(s.drop_last())) by {
            assert(forall|x: int, y: int|
                0 <= x < y < s.drop_last().len() ==> s.drop_last()[x].0@ != s.drop_last()[y].0@);
        }
        lemma_entries_map_value(s.drop_last(), i);
        assert(s.drop_last()[i] == s[i]);
        assert(s[i].0@ != s.last().0@);
    }
}

/// Under unique keys, the map of a sequence of entries has exactly one key
/// per entry.
proof fn lemma_entries_map_dom_len(s: Seq<(String, ValueCell)>)
    requires
        unique_keys(s),
    ensures
        entries_map(s).dom().finite(),
        entries_map(s).dom().len() == s.len(),
    decreases s.len(),
{
    if s.len() > 0 {
        let d = s.drop_last();
        assert(unique_keys(d)) by {
            assert(forall|x: int, y: int| 0 <= x < y < d.len() ==> d[x].0@ != d[y].0@);
        }
        lemma_entries_map_dom_len(d);
        lemma_entries_map_contains(d, s.last().0@);
        assert(forall|i: int| 0 <= i < d.len() ==> #[trigger] d[i].0@ != s.last().0@) by {
            assert(forall|i: int| 0 <= i < d.len() ==> d[i] == s[i]);
        }
        assert(!entries_map(d).contains_key(s.last().0@));
        assert(entries_map(s).dom() =~= entries_map(d).dom().insert(s.last().0@));
        vstd::set::axiom_set_insert_len(entries_map(d).dom(), s.last().0@);
    }
}

/// Appending one entry inserts its key and text into the map.
proof fn lemma_entries_map_push(s: Seq<(String, ValueCell)>, e: (String, ValueCell))
    ensures
        entries_map(s.push(e)) == entries_map(s).insert(e.0@, e.1@),
{
    assert(s.push(e).drop_last() =~= s);
    assert(s.push(e).last() == e);
}

/// Under unique keys, removing one entry removes exactly its key from the
/// map, and keeps the remaining keys unique.
proof fn lemma_entries_map_remove(s: Seq<(String, ValueCell)>, j: int)
    requires
        unique_keys(s),
        0 <= j < s.len(),
    ensures
        unique_keys(s.remove(j)),
        entries_map(s.remove(j)) == entries_map(s).remove(s[j].0@),
    decreases s.len(),
{
    let k = s[j].0@;
    assert(unique_keys(s.remove(j))) by {
        assert(forall|x: int, y: int| 0 <= x < y < s.remove(j).len()
            ==> s.remove(j)[x].0@ != s.remove(j)[y].0@);
    }
    if j == s.len() - 1 {
        assert(s.remove(j) =~= s.drop_last());
        assert(unique_keys(s.drop_last()));
        lemma_entries_map_contains(s.drop_last(), k);
        assert(forall|i: int| 0 <= i < s.drop_last().len()
            ==> #[trigger] s.drop_last()[i].0@ != k);
        assert(!entries_map(s.drop_last()).contains_key(k));
        assert(entries_map(s.drop_last()) =~= entries_map(s).remove(k));
    } else {
        let d = s.drop_last();
        assert(unique_keys(d)) by {
            assert(forall|x: int, y: int| 0 <= x < y < d.len() ==> d[x].0@ != d[y].0@);
        }
        lemma_entries_map_remove(d, j);
        assert(s.remove(j).drop_last() =~= d.remove(j));
        assert(s.remove(j).last() == s.last());
        assert(d[j] == s[j]);
        assert(k != s.last().0@);
        assert(entries_map(d).remove(k).insert(s.last().0@, s.last().1@)
            =~= entries_map(d).insert(s.last().0@, s.last().1@).remove(k));
    }
}

/// Deep-duplicate a sequence of entries, cell by cell.
fn duplicate_entries(entries: &Vec<(String, ValueCell)>) -> (r: Vec<(String, ValueCell)>)
    ensures
        r@ == entries@,
{
    let mut r: Vec<(String, ValueCell)> = Vec::new();
    let mut i: usize = 0;
    while i < entries.len()
        invariant
            i <= entries.len(),
            r@ =~= entries@.take(i as int),
        decreases entries.len() - i,
    {
        let key = entries[i].0.clone();
        let cell = entries[i].1.duplicate();
        r.push((key, cell));
        assert(r@ =~= entries@.take(i as int).push(entries@[i as int]));
        assert(entries@.take(i as int).push(entries@[i as int]) =~= entries@.take(i + 1));
        i = i + 1;
    }
    assert(entries@.take(entries@.len() as int) =~= entries@);
    r
}

/// Insert a cell under a key, replacing the entry already carrying that key
/// if there is one.
fn insert_entry(entries: &mut Vec<(String, ValueCell)>, key: String, cell: ValueCell)
    requires
        unique_keys(old(entries)@),
    ensures
        unique_keys(final(entries)@),
        entries_map(final(entries)@) == entries_map(old(entries)@).insert(key@, cell@),
{
    let ghost s0 = entries@;
    let mut i: usize = 0;
    while i < entries.len()
        invariant
            entries@ == s0,
            s0 == old(entries)@,
            unique_keys(s0),
            i <= s0.len(),
            forall|j: int| 0 <= j < i ==> #[trigger] s0[j].0@ != key@,
        decreases entries.len() - i,
    {
        if entries[i].0 == key {
            let ghost k = s0[i as int].0@;
            entries.remove(i);
            proof {
                lemma_entries_map_remove(s0, i as int);
                lemma_entries_map_push(s0.remove(i as int), (key, cell));
                assert forall|j: int| 0 <= j < s0.remove(i as int).len()
                    implies #[trigger] s0.remove(i as int)[j].0@ != key@ by {
                    if j < i {
                        assert(s0.remove(i as int)[j] == s0[j]);
                    } else {
                        assert(s0.remove(i as int)[j] == s0[j + 1]);
                    }
                }
            }
            entries.push((key, cell));
            proof {
                assert(entries_map(s0).remove(k).insert(key@, cell@)
                    =~= entries_map(s0).insert(key@, cell@));
            }
            return ;
        }
        i = i + 1;
    }
    proof {
        lemma_entries_map_push(s0, (key, cell));
    }
    entries.push((key, cell));
}

/// A store of named parameters. Abstractly it is a finite map from keys to
/// rendered text, exposed as the store's view.
#[derive(Debug)]
pub struct Parameters {
    entries: Vec<(String, ValueCell)>,
}

impl View for Parameters {
    type V = Map<Seq<char>, Seq<char>>;

    closed spec fn view(&self) -> Map<Seq<char>, Seq<char>> {
        entries_map(self.entries@)
    }
}

impl Parameters {
    #[verifier::type_invariant]
    spec fn wf(&self) -> bool {
        unique_keys(self.entries@)
    }

    /// Create an empty store.
    pub fn new() -> (r: Parameters)
        ensures
            r@ == Map::<Seq<char>, Seq<char>>::empty(),
    {
        Parameters { entries: Vec::new() }
    }

    /// Create a store holding `text` under the reserved key `"text"`.
    pub fn new_with_text(text: String) -> (r: Parameters)
        ensures
            r@ == Map::<Seq<char>, Seq<char>>::empty().insert(text_key(), text@),
    {
        Parameters::new().with_text(text)
    }

    /// Duplicate the store and insert `value` under `key`, replacing any
    /// earlier entry there. The receiver is left untouched.
    pub fn with(&self, key: String, value: String) -> (r: Parameters)
        ensures
            r@ == self@.insert(key@, value@),
    {
        proof {
            use_type_invariant(self);
        }
        let mut entries = duplicate_entries(&self.entries);
        insert_entry(&mut entries, key, ValueCell::Text(value));
        Parameters { entries }
    }

    /// Duplicate the store and insert a dynamic payload under `key`. The cell
    /// stores the text the payload renders to; the receiver is left
    /// untouched.
    pub fn with_dynamic<V: ParamFull>(&self, key: String, value: V) -> (r: Parameters)
        ensures
            r@ == self@.insert(key@, value.spec_get()),
    {
        proof {
            use_type_invariant(self);
        }
        let text = value.get();
        let mut entries = duplicate_entries(&self.entries);
        insert_entry(&mut entries, key, ValueCell::Rendered(text));
        Parameters { entries }
    }

    /// Duplicate the store and set the reserved key `"text"` to `text`.
    pub fn with_text(&self, text: String) -> (r: Parameters)
        ensures
            r@ == self@.insert(text_key(), text@),
    {
        self.with(text_key_str().to_owned(), text)
    }

    /// Apply a prior stage's primary textual output: with `Some(t)` this is
    /// `with_text(t)`; with `None` the result is an unchanged duplicate of
    /// the receiver.
    pub fn with_optional_text(&self, text: Option<String>) -> (r: Parameters)
        ensures
            match text {
                Some(t) => r@ == self@.insert(text_key(), t@),
                None => r@ == self@,
            },
    {
        match text {
            Some(t) => self.with_text(t),
            None => self.clone(),
        }
    }

    /// Merge two stores into a fresh one: keys only in `self` keep their
    /// cells, keys in `other` take `other`'s cells. Both receivers are left
    /// untouched.
    pub fn combine(&self, other: &Parameters) -> (r: Parameters)
        ensures
            r@ == self@.union_prefer_right(other@),
    {
        proof {
            use_type_invariant(self);
            use_type_invariant(other);
        }
        let mut entries = duplicate_entries(&self.entries);
        let mut i: usize = 0;
        while i < other.entries.len()
            invariant
                unique_keys(entries@),
                unique_keys(other.entries@),
                i <= other.entries@.len(),
                entries_map(entries@) == entries_map(self.entries@).union_prefer_right(
                    entries_map(other.entries@.take(i as int)),
                ),
            decreases other.entries.len() - i,
        {
            let ghost k = other.entries@[i as int].0@;
            let ghost c = other.entries@[i as int].1@;
            let key = other.entries[i].0.clone();
            let cell = other.entries[i].1.duplicate();
            insert_entry(&mut entries, key, cell);
            proof {
                assert(other.entries@.take(i + 1).drop_last() =~= other.entries@.take(i as int));
                assert(other.entries@.take(i + 1).last() == other.entries@[i as int]);
                assert(entries_map(other.entries@.take(i + 1))
                    == entries_map(other.entries@.take(i as int)).insert(k, c));
                assert(entries_map(self.entries@).union_prefer_right(
                    entries_map(other.entries@.take(i as int)).insert(k, c),
                ) =~= entries_map(self.entries@).union_prefer_right(
                    entries_map(other.entries@.take(i as int)),
                ).insert(k, c));
            }
            i = i + 1;
        }
        proof {
            assert(other.entries@.take(other.entries@.len() as int) =~= other.entries@);
        }
        Parameters { entries }
    }

    /// Render the cell stored under `key`, or report that the key is absent.
    pub fn get(&self, key: &str) -> (r: Option<String>)
        ensures
            match r {
                Some(v) => self@.contains_key(key@) && v@ == self@[key@],
                None => !self@.contains_key(key@),
            },
    {
        proof {
            use_type_invariant(self);
        }
        let k: String = key.to_owned();
        let mut i: usize = 0;
        while i < self.entries.len()
            invariant
                k@ == key@,
                unique_keys(self.entries@),
                i <= self.entries@.len(),
                forall|j: int| 0 <= j < i ==> #[trigger] self.entries@[j].0@ != key@,
            decreases self.entries.len() - i,
        {
            if self.entries[i].0 == k {
                let v = self.entries[i].1.render();
                proof {
                    lemma_entries_map_value(self.entries@, i as int);
                }
                return Some(v);
            }
            i = i + 1;
        }
        proof {
            lemma_entries_map_contains(self.entries@, key@);
        }
        None
    }

    /// Render the cell under the reserved key `"text"`, if any.
    pub fn get_text(&self) -> (r: Option<String>)
        ensures
            match r {
                Some(v) => self@.contains_key(text_key()) && v@ == self@[text_key()],
                None => !self@.contains_key(text_key()),
            },
    {
        self.get(text_key_str())
    }

    /// Project the store into a rendering context for the template engine:
    /// every key of the store is mapped to the text its cell resolves to.
    pub fn to_tera(&self) -> (r: tera::Context)
        ensures
            crate::render::context_entries(r) == self@,
    {
        proof {
            use_type_invariant(self);
        }
        let mut context = crate::render::context_new();
        let mut i: usize = 0;
        while i < self.entries.len()
            invariant
                i <= self.entries@.len(),
                crate::render::context_entries(context)
                    == entries_map(self.entries@.take(i as int)),
            decreases self.entries.len() - i,
        {
            let value = self.entries[i].1.render();
            crate::render::context_insert(&mut context, &self.entries[i].0, &value);
            proof {
                assert(self.entries@.take(i + 1).drop_last() =~= self.entries@.take(i as int));
                assert(self.entries@.take(i + 1).last() == self.entries@[i as int]);
            }
            i = i + 1;
        }
        proof {
            assert(self.entries@.take(self.entries@.len() as int) =~= self.entries@);
        }
        context
    }

    /// Build a store from a sequence of key/value pairs; a later pair under
    /// a key already seen overrides the earlier one.
    pub fn from_seq(pairs: Vec<(String, String)>) -> (r: Parameters)
        ensures
            r@ == pairs_map(pairs@),
    {
        let mut entries: Vec<(String, ValueCell)> = Vec::new();
        let mut i: usize = 0;
        while i < pairs.len()
            invariant
                unique_keys(entries@),
                i <= pairs@.len(),
                entries_map(entries@) == pairs_map(pairs@.take(i as int)),
            decreases pairs.len() - i,
        {
            let k = pairs[i].0.clone();
            let v = pairs[i].1.clone();
            insert_entry(&mut entries, k, ValueCell::Text(v));
            proof {
                assert(pairs@.take(i + 1).drop_last() =~= pairs@.take(i as int));
                assert(pairs@.take(i + 1).last() == pairs@[i as int]);
            }
            i = i + 1;
        }
        proof {
            assert(pairs@.take(pairs@.len() as int) =~= pairs@);
        }
        Parameters { entries }
    }
}

impl vstd::std_specs::cmp::PartialEqSpecImpl for Parameters {
    open spec fn obeys_eq_spec() -> bool {
        true
    }

    /// Two stores are equal exactly when they resolve to the same map from
    /// keys to rendered text; how a value was supplied plays no part.
    open spec fn eq_spec(&self, other: &Parameters) -> bool {
        self@ == other@
    }
}

impl PartialEq for Parameters {
    fn eq(&self, other: &Parameters) -> (r: bool) {
        proof {
            use_type_invariant(self);
            use_type_invariant(other);
            lemma_entries_map_dom_len(self.entries@);
            lemma_entries_map_dom_len(other.entries@);
        }
        if self.entries.len() != other.entries.len() {
            proof {
                assert(self@ != other@) by {
                    if self@ == other@ {
                        assert(self@.dom() == other@.dom());
                    }
                }
            }
            return false;
        }
        let mut i: usize = 0;
        while i < self.entries.len()
            invariant
                unique_keys(self.entries@),
                unique_keys(other.entries@),
                self.entries@.len() == other.entries@.len(),
                i <= self.entries@.len(),
                forall|j: int| 0 <= j < i ==> {
                    &&& other@.contains_key(#[trigger] self.entries@[j].0@)
                    &&& other@[self.entries@[j].0@] == self.entries@[j].1@
                },
            decreases self.entries.len() - i,
        {
            let ghost k = self.entries@[i as int].0@;
            proof {
                lemma_entries_map_value(self.entries@, i as int);
            }
            let rendered = self.entries[i].1.render();
            match other.get(self.entries[i].0.as_str()) {
                Some(v) => {
                    if rendered != v {
                        proof {
                            assert(self@[k] != other@[k]);
                            assert(self@ != other@);
                        }
                        return false;
                    }
                }
                None => {
                    proof {
                        assert(self@.contains_key(k) && !other@.contains_key(k));
                        assert(self@ != other@);
                    }
                    return false;
                }
            }
            i = i + 1;
        }
        proof {
            lemma_entries_map_dom_len(self.entries@);
            lemma_entries_map_dom_len(other.entries@);
            assert forall|k: Seq<char>| #[trigger] self@.dom().contains(k)
                implies other@.dom().contains(k) by {
                assert(self@.contains_key(k));
                lemma_entries_map_contains(self.entries@, k);
                let j = choose|j: int|
                    0 <= j < self.entries@.len() && #[trigger] self.entries@[j].0@ == k;
                lemma_entries_map_value(self.entries@, j);
            }
            assert forall|k: Seq<char>| #[trigger] self@.dom().contains(k)
                implies other@[k] == self@[k] by {
                lemma_entries_map_contains(self.entries@, k);
                let j = choose|j: int|
                    0 <= j < self.entries@.len() && #[trigger] self.entries@[j].0@ == k;
                lemma_entries_map_value(self.entries@, j);
            }
            assert(self@.dom().subset_of(other@.dom()));
            vstd::set_lib::lemma_subset_equality(self@.dom(), other@.dom());
            assert(self@ =~= other@);
        }
        true
    }
}

impl Clone for Parameters {
    /// Deep-duplicate the store: the result has the same view and shares no
    /// cell with the receiver.
    fn clone(&self) -> (r: Parameters)
        ensures
            r@ == self@,
    {
        proof {
            use_type_invariant(self);
        }
        Parameters { entries: duplicate_entries(&self.entries) }
    }
}

impl vstd::std_specs::convert::FromSpecImpl<String> for Parameters {
    open spec fn obeys_from_spec() -> bool {
        false
    }

    open spec fn from_spec(v: String) -> Parameters {
        choose|p: Parameters|
            p@ == Map::<Seq<char>, Seq<char>>::empty().insert(text_key(), v@)
    }
}

impl From<String> for Parameters {
    /// A single string becomes a store with that string under `"text"`.
    fn from(text: String) -> (r: Parameters)
        ensures
            r@ == Map::<Seq<char>, Seq<char>>::empty().insert(text_key(), text@),
    {
        Parameters::new_with_text(text)
    }
}

impl<'a> vstd::std_specs::convert::FromSpecImpl<&'a str> for Parameters {
    open spec fn obeys_from_spec() -> bool {
        false
    }

    open spec fn from_spec(v: &'a str) -> Parameters {
        choose|p: Parameters|
            p@ == Map::<Seq<char>, Seq<char>>::empty().insert(text_key(), v@)
    }
}

impl<'a> From<&'a str> for Parameters {
    /// A single string becomes a store with that string under `"text"`.
    fn from(text: &'a str) -> (r: Parameters)
        ensures
            r@ == Map::<Seq<char>, Seq<char>>::empty().insert(text_key(), text@),
    {
        Parameters::new_with_text(text.to_owned())
    }
}

impl vstd::std_specs::convert::FromSpecImpl<Vec<(String, String)>> for Parameters {
    open spec fn obeys_from_spec() -> bool {
        false
    }

    open spec fn from_spec(v: Vec<(String, String)>) -> Parameters {
        choose|p: Parameters| p@ == pairs_map(v@)
    }
}

impl From<Vec<(String, String)>> for Parameters {
    /// A sequence of pairs becomes a store with one entry per key; a later
    /// pair under a key already seen overrides the earlier one.
    fn from(data: Vec<(String, String)>) -> (r: Parameters)
        ensures
            r@ == pairs_map(data@),
    {
        Parameters::from_seq(data)
    }
}

impl<'a> vstd::std_specs::convert::FromSpecImpl<Vec<(&'a str, &'a str)>> for Parameters {
    open spec fn obeys_from_spec() -> bool {
        false
    }

    open spec fn from_spec(v: Vec<(&'a str, &'a str)>) -> Parameters {
        choose|p: Parameters| p@ == str_pairs_map(v@)
    }
}

impl<'a> From<Vec<(&'a str, &'a str)>> for Parameters {
    /// A sequence of borrowed pairs becomes a store with one entry per key;
    /// a later pair under a key already seen overrides the earlier one.
    fn from(data: Vec<(&'a str, &'a str)>) -> (r: Parameters)
        ensures
            r@ == str_pairs_map(data@),
    {
        let mut owned: Vec<(String, String)> = Vec::new();
        let mut i: usize = 0;
        while i < data.len()
            invariant
                i <= data@.len(),
                owned@.len() == i,
                forall|j: int| 0 <= j < i ==> {
                    &&& (#[trigger] owned@[j]).0@ == data@[j].0@
                    &&& owned@[j].1@ == data@[j].1@
                },
            decreases data.len() - i,
        {
            let k: String = data[i].0.to_owned();
            let v: String = data[i].1.to_owned();
            owned.push((k, v));
            i = i + 1;
        }
        proof {
            lemma_pairs_map_views(owned@, data@);
        }
        Parameters::from_seq(owned)
    }
}

/// Two pair sequences whose keys and values are the same texts have the same
/// mathematical content.
proof fn lemma_pairs_map_views(a: Seq<(String, String)>, b: Seq<(&str, &str)>)
    requires
        a.len() == b.len(),
        forall|j: int| 0 <= j < b.len() ==> {
            &&& (#[trigger] a[j]).0@ == b[j].0@
            &&& a[j].1@ == b[j].1@
        },
    ensures
        pairs_map(a) == str_pairs_map(b),
    decreases a.len(),
{
    if a.len() > 0 {
        lemma_pairs_map_views(a.drop_last(), b.drop_last());
    }
}

impl Default for Parameters {
    fn default() -> (r: Parameters)
        ensures
            r@ == Map::<Seq<char>, Seq<char>>::empty(),
    {
        Parameters::new()
    }
}

} // verus!
