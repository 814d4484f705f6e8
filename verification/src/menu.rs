use vstd::prelude::*;

use crate::codec;
use crate::error::Error;

verus! {

/// A named recipe entry: an identifying name and the entry's tags, kept in
/// the order they were given.
#[derive(Debug, PartialEq)]
pub struct Meal {
    pub name: String,
    pub tags: Vec<String>,
}

/// The mathematical content of a [`Meal`]: its name and its tags as
/// character sequences.
#[verifier::ext_equal]
pub ghost struct MealView {
    pub name: Seq<char>,
    pub tags: Seq<Seq<char>>,
}

impl View for Meal {
    type V = MealView;

    open spec fn view(&self) -> MealView {
        MealView { name: self.name@, tags: self.tags.deep_view() }
    }
}

impl Clone for Meal {
    /// A clone carries the same record.
    fn clone(&self) -> (res: Self)
        ensures
            res@ == self@,
    {
        let name = self.name.clone();
        let tags = self.tags.clone();
        proof {
            assert forall|i: int| 0 <= i < tags@.len() implies tags@[i] == self.tags@[i] by {
                assert(cloned::<String>(self.tags@[i], tags@[i]));
            }
            assert(tags.deep_view() =~= self.tags.deep_view());
        }
        Meal { name, tags }
    }
}

impl Meal {
    /// Builds an entry from a name and an optional tag list; absent tags mean
    /// no tags.
    pub fn new(name: String, tags: Option<Vec<String>>) -> (r: Meal)
        ensures
            r@.name == name@,
            tags matches Some(t) ==> r@.tags == t.deep_view(),
            tags is None ==> r@.tags == Seq::<Seq<char>>::empty(),
    {
        match tags {
            Some(t) => Meal { name, tags: t },
            None => {
                let empty: Vec<String> = Vec::new();
                proof {
                    assert(empty.deep_view() =~= Seq::<Seq<char>>::empty());
                }
                Meal { name, tags: empty }
            },
        }
    }
}

/// The records of a sequence of meals, in the same order.
pub open spec fn meals_view(s: Seq<Meal>) -> Seq<MealView> {
    s.map_values(|m: Meal| m@)
}

/// Whether some record in `entries` carries exactly the name `name`.
pub open spec fn has_name(entries: Seq<MealView>, name: Seq<char>) -> bool {
    exists|i: int| 0 <= i < entries.len() && entries[i].name == name
}

/// Whether no two records in `entries` share a name.
pub open spec fn unique_names(entries: Seq<MealView>) -> bool {
    forall|i: int, j: int|
        0 <= i < j < entries.len() ==> entries[i].name != entries[j].name
}

/// The predicate `search` filters with: the pattern occurs in the record's
/// name.
pub open spec fn name_matches(pat: Seq<char>) -> spec_fn(MealView) -> bool {
    |mv: MealView| codec::is_substring(pat, mv.name)
}

/// Uniqueness is kept by insertion of an absent name: appending a record
/// whose name no record carries leaves the names free of duplicates.
pub proof fn lemma_unique_after_insert(entries: Seq<MealView>, m: MealView)
    requires
        unique_names(entries),
        !has_name(entries, m.name),
    ensures
        unique_names(entries.push(m)),
{
    let pushed = entries.push(m);
    assert forall|i: int, j: int| 0 <= i < j < pushed.len() implies pushed[i].name != pushed[j].name by {
        if j < entries.len() {
        } else {
            assert(pushed[j] == m);
            assert(!(exists|k: int| 0 <= k < entries.len() && entries[k].name == m.name));
        }
    }
}

/// Filtering steps through an appended element: the element is kept exactly
/// when the predicate holds of it.
proof fn lemma_filter_push(s: Seq<MealView>, m: MealView, pred: spec_fn(MealView) -> bool)
    ensures
        s.push(m).filter(pred) == if pred(m) {
            s.filter(pred).push(m)
        } else {
            s.filter(pred)
        },
{
    reveal(Seq::filter);
    assert(s.push(m).drop_last() =~= s);
    assert(s.push(m).last() == m);
}

/// A record the filter kept was among the filtered records and satisfies the
/// predicate.
proof fn lemma_filter_subset(s: Seq<MealView>, pred: spec_fn(MealView) -> bool, e: MealView)
    requires
        s.filter(pred).contains(e),
    ensures
        s.contains(e) && pred(e),
    decreases s.len(),
{
    reveal(Seq::filter);
    if s.len() > 0 {
        let rest = s.drop_last();
        if pred(s.last()) && e == s.last() {
            assert(s[s.len() - 1] == e);
        } else {
            lemma_filter_subset(rest, pred, e);
            let i = choose|i: int| 0 <= i < rest.len() && rest[i] == e;
            assert(s[i] == e);
        }
    }
}

/// A filter whose predicate holds of every element keeps the sequence whole.
proof fn lemma_filter_true(s: Seq<MealView>, pred: spec_fn(MealView) -> bool)
    requires
        forall|i: int| 0 <= i < s.len() ==> pred(#[trigger] s[i]),
    ensures
        s.filter(pred) == s,
    decreases s.len(),
{
    reveal(Seq::filter);
    if s.len() == 0 {
        assert(s.filter(pred) =~= s);
    } else {
        lemma_filter_true(s.drop_last(), pred);
        assert(pred(s[s.len() - 1]));
        assert(s.filter(pred) =~= s);
    }
}

/// Search correctness: a record stands in the searched-for subsequence
/// exactly when it stands among the entries and the pattern occurs in its
/// name as a literal substring.
pub proof fn lemma_search_membership(entries: Seq<MealView>, pat: Seq<char>, e: MealView)
    ensures
        entries.filter(name_matches(pat)).contains(e) <==> entries.contains(e)
            && codec::is_substring(pat, e.name),
{
    let pred = name_matches(pat);
    if entries.filter(pred).contains(e) {
        lemma_filter_subset(entries, pred, e);
    }
    if entries.contains(e) && codec::is_substring(pat, e.name) {
        let i = choose|i: int| 0 <= i < entries.len() && entries[i] == e;
        entries.lemma_filter_contains(pred, i);
    }
}

/// The empty pattern matches every entry: searching with it keeps the whole
/// catalog, in its stored order.
pub proof fn lemma_search_empty_pattern(entries: Seq<MealView>)
    ensures
        entries.filter(name_matches(Seq::<char>::empty())) == entries,
{
    let pat = Seq::<char>::empty();
    assert forall|i: int| 0 <= i < entries.len() implies name_matches(pat)(#[trigger] entries[i]) by {
        assert(entries[i].name.subrange(0, 0 + pat.len() as int) =~= pat);
    }
    lemma_filter_true(entries, name_matches(pat));
}

/// Repeated listing is idempotent: `list`'s contract pins the records of its
/// result to the store's entries, so two results obtained from one state
/// carry the same records in the same order.
pub proof fn lemma_list_idempotent(
    entries: Seq<MealView>,
    first: Seq<MealView>,
    second: Seq<MealView>,
)
    requires
        first == entries,
        second == entries,
    ensures
        first == second,
{
}

/// The in-memory catalog: the ordered collection of entries and the location
/// of the backing file it was loaded from and is persisted to.
pub struct Cookbook {
    book: Vec<Meal>,
    path: String,
}

impl View for Cookbook {
    type V = Seq<MealView>;

    /// A store is observed as its ordered sequence of records.
    closed spec fn view(&self) -> Seq<MealView> {
        meals_view(self.book@)
    }
}

impl Cookbook {
    /// The location the store was bound to at construction.
    pub closed spec fn backing_path(&self) -> Seq<char> {
        self.path@
    }

    /// The store's invariant: entry names are unique.
    pub open spec fn wf(&self) -> bool {
        unique_names(self@)
    }

    /// Builds the store bound to `path` from the backing file's full
    /// contents, which the caller has read.  Contents that `commit` produced
    /// for some records decode to exactly those records, the empty catalog
    /// `[]` loads as a store with no entries, and contents that are not a
    /// valid encoded catalog are rejected.
    pub fn connect(path: String, contents: &str) -> (r: Result<Cookbook, Error>)
        ensures
            forall|m: Seq<MealView>|
                contents@ == codec::catalog_json(m) ==> r is Ok && r->Ok_0@ == m,
            contents@ == "[]"@ ==> r is Ok && r->Ok_0@ == Seq::<MealView>::empty(),
            r is Ok ==> r->Ok_0.backing_path() == path@,
            r matches Err(e) ==> e is DeserializationError,
    {
        match codec::decode_catalog(contents) {
            Ok(book) => Ok(Cookbook { book, path }),
            Err(msg) => Err(Error::DeserializationError(msg)),
        }
    }

    /// Serializes the current entries, in order, as the full new contents of
    /// the backing file; the caller writes them to `backing_path`.
    pub fn commit(&self) -> (r: String)
        ensures
            r@ == codec::catalog_json(self@),
    {
        codec::encode_catalog(&self.book)
    }

    /// Inserts `meal` at the end of the entries if and only if no entry
    /// carries its name already, and returns the new count of entries; a
    /// duplicate name is rejected and leaves the store unchanged.  Names that
    /// were unique stay unique.
    pub fn add(&mut self, meal: Meal) -> (r: Result<usize, Error>)
        ensures
            final(self).backing_path() == old(self).backing_path(),
            has_name(old(self)@, meal@.name) ==> {
                &&& final(self)@ == old(self)@
                &&& r matches Err(Error::AddError(n)) && n@ == meal@.name
            },
            !has_name(old(self)@, meal@.name) ==> {
                &&& final(self)@ == old(self)@.push(meal@)
                &&& r matches Ok(count) && count == old(self)@.len() + 1
            },
            old(self).wf() ==> final(self).wf(),
    {
        let ghost entries = self@;
        let mut i: usize = 0;
        while i < self.book.len()
            invariant
                *self == *old(self),
                entries == self@,
                i <= self.book.len(),
                forall|k: int| 0 <= k < i ==> self@[k].name != meal@.name,
            decreases self.book.len() - i,
        {
            if self.book[i].name == meal.name {
                assert(entries[i as int].name == meal@.name);
                assert(has_name(entries, meal@.name));
                return Err(Error::AddError(meal.name));
            }
            i += 1;
        }
        assert(!has_name(entries, meal@.name));
        proof {
            if old(self).wf() {
                lemma_unique_after_insert(entries, meal@);
            }
        }
        self.book.push(meal);
        proof {
            assert(meals_view(self.book@) =~= entries.push(self.book@.last()@));
        }
        Ok(self.book.len())
    }

    /// Returns the ordered subsequence of entries whose name contains
    /// `pattern` as a literal substring; the empty pattern matches every
    /// entry, and a pattern nothing matches gives the empty sequence, not an
    /// error.  Every literal substring pattern is accepted, so the result is
    /// never an error under substring-only search.
    pub fn search(&self, pattern: &str) -> (r: Result<Vec<Meal>, Error>)
        ensures
            r matches Ok(found) && meals_view(found@) == self@.filter(name_matches(pattern@)),
    {
        let ghost pred = name_matches(pattern@);
        let mut found: Vec<Meal> = Vec::new();
        let mut i: usize = 0;
        proof {
            assert(self@.subrange(0, 0) =~= Seq::<MealView>::empty());
            assert(Seq::<MealView>::empty().filter(pred) =~= Seq::<MealView>::empty()) by {
                reveal(Seq::filter);
            }
            assert(meals_view(found@) =~= Seq::<MealView>::empty());
        }
        while i < self.book.len()
            invariant
                i <= self.book.len(),
                pred == name_matches(pattern@),
                meals_view(found@) == self@.subrange(0, i as int).filter(pred),
            decreases self.book.len() - i,
        {
            let ghost seen = self@.subrange(0, i as int);
            let ghost here = self@[i as int];
            proof {
                lemma_filter_push(seen, here, pred);
                assert(self@.subrange(0, i as int + 1) =~= seen.push(here));
            }
            if codec::str_contains(self.book[i].name.as_str(), pattern) {
                let picked = self.book[i].clone();
                found.push(picked);
                proof {
                    assert(meals_view(found@) =~= seen.filter(pred).push(here));
                }
            }
            i += 1;
        }
        proof {
            assert(self@.subrange(0, self@.len() as int) =~= self@);
        }
        Ok(found)
    }

    /// Returns a copy of the single entry whose name equals `name` exactly —
    /// the first such entry, which under the store's invariant is the only
    /// one.  Succeeds if and only if some entry carries the name; a substring
    /// match does not count.
    pub fn info(&self, name: String) -> (r: Result<Meal, Error>)
        ensures
            r is Ok <==> has_name(self@, name@),
            r matches Ok(m) ==> exists|i: int|
                {
                    &&& 0 <= i < self@.len()
                    &&& #[trigger] self@[i] == m@
                    &&& self@[i].name == name@
                    &&& forall|j: int| 0 <= j < i ==> self@[j].name != name@
                },
            r matches Err(e) ==> e matches Error::MealDoesNotExist(n) && n@ == name@,
    {
        let mut i: usize = 0;
        while i < self.book.len()
            invariant
                i <= self.book.len(),
                forall|k: int| 0 <= k < i ==> self@[k].name != name@,
            decreases self.book.len() - i,
        {
            if self.book[i].name == name {
                let m = self.book[i].clone();
                proof {
                    let wi = i as int;
                    assert(0 <= wi < self@.len() && self@[wi] == m@ && self@[wi].name == name@);
                }
                return Ok(m);
            }
            i += 1;
        }
        Err(Error::MealDoesNotExist(name))
    }

    /// Returns a copy of all entries in current insertion order.
    pub fn list(&self) -> (r: Vec<Meal>)
        ensures
            meals_view(r@) == self@,
    {
        let copy = self.book.clone();
        proof {
            assert forall|i: int| 0 <= i < copy@.len() implies copy@[i]@ == self.book@[i]@ by {
                assert(cloned::<Meal>(self.book@[i], copy@[i]));
            }
            assert(meals_view(copy@) =~= meals_view(self.book@));
        }
        copy
    }
}

} // verus!
