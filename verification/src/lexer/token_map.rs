use vstd::prelude::*;
use crate::text::str_eq;

verus! {

/// The tokens of a language by their spelling: the keywords, and the
/// symbols. A spelling that is entered again gets the new token.
pub struct TokenMap<T> {
    keywords: Vec<(String, T)>,
    map: Vec<(String, T)>,
}

/// Mathematical model of a [`TokenMap`]: the entries of either kind, each a
/// spelling with its token, in the order they were entered.
pub struct TokenMapView<T> {
    pub keywords: Seq<(Seq<char>, T)>,
    pub map: Seq<(Seq<char>, T)>,
}

/// The token that `entries` give to the spelling `k`: that of the last
/// entry that holds it.
pub open spec fn lookup<T>(entries: Seq<(Seq<char>, T)>, k: Seq<char>) -> Option<T>
    decreases entries.len(),
{
    if entries.len() == 0 {
        None
    } else if entries.last().0 == k {
        Some(entries.last().1)
    } else {
        lookup(entries.drop_last(), k)
    }
}

/// The entries with each spelling as a sequence of characters.
pub open spec fn entries_view<T>(entries: Seq<(String, T)>) -> Seq<(Seq<char>, T)> {
    Seq::new(entries.len(), |i: int| (entries[i].0@, entries[i].1))
}

fn find<'a, T>(entries: &'a Vec<(String, T)>, k: &str) -> (r: Option<&'a T>)
    ensures
        match lookup(entries_view(entries@), k@) {
            Some(v) => r == Some(&v),
            None => r is None,
        },
{
    let ghost all = entries_view(entries@);
    let mut i: usize = entries.len();
    assert(all.take(i as int) =~= all);
    while i > 0
        invariant
            i <= entries.len(),
            all == entries_view(entries@),
            lookup(all, k@) == lookup(all.take(i as int), k@),
        decreases i,
    {
        i -= 1;
        proof {
            assert(all.take(i + 1).drop_last() =~= all.take(i as int));
            assert(all.take(i + 1).last() == all[i as int]);
        }
        if str_eq(entries[i].0.as_str(), k) {
            return Some(&entries[i].1);
        }
    }
    None
}

impl<T> View for TokenMap<T> {
    type V = TokenMapView<T>;

    closed spec fn view(&self) -> TokenMapView<T> {
        TokenMapView { keywords: entries_view(self.keywords@), map: entries_view(self.map@) }
    }
}

impl<T> TokenMapView<T> {
    /// The symbol spelled `k`, if there is one.
    pub open spec fn symbol(&self, k: Seq<char>) -> Option<T> {
        lookup(self.map, k)
    }

    /// The keyword spelled `k`, if there is one.
    pub open spec fn keyword(&self, k: Seq<char>) -> Option<T> {
        lookup(self.keywords, k)
    }
}

impl<T> TokenMap<T> {
    /// The spellings of the symbols as the strings that hold them, in the
    /// order they were entered.
    pub closed spec fn keys(&self) -> Seq<String> {
        Seq::new(self.map@.len(), |i: int| self.map@[i].0)
    }

    /// `keys` lists the spellings of the symbols of the view.
    pub proof fn lemma_keys(&self)
        ensures
            self.keys().len() == self@.map.len(),
            forall|i: int| 0 <= i < self.keys().len() ==> (#[trigger] self.keys()[i])@ == self@.map[i].0,
    {
    }

    pub fn new() -> (r: Self)
        ensures
            r@.keywords == Seq::<(Seq<char>, T)>::empty(),
            r@.map == Seq::<(Seq<char>, T)>::empty(),
    {
        let r = Self { keywords: Vec::new(), map: Vec::new() };
        assert(r@.keywords =~= Seq::empty());
        assert(r@.map =~= Seq::empty());
        r
    }

    /// Enters the symbol spelled `k`.
    pub fn make(&mut self, k: &str, v: T)
        ensures
            final(self)@.map == old(self)@.map.push((k@, v)),
            final(self)@.keywords == old(self)@.keywords,
    {
        self.map.push((k.to_owned(), v));
        assert(self@.map =~= old(self)@.map.push((k@, v)));
    }

    /// Enters the keyword spelled `k`.
    pub fn make_keyword(&mut self, k: &str, v: T)
        ensures
            final(self)@.keywords == old(self)@.keywords.push((k@, v)),
            final(self)@.map == old(self)@.map,
    {
        self.keywords.push((k.to_owned(), v));
        assert(self@.keywords =~= old(self)@.keywords.push((k@, v)));
    }

    /// The symbol spelled `k`, if there is one.
    pub fn get(&self, k: &String) -> (r: Option<&T>)
        ensures
            match self@.symbol(k@) {
                Some(v) => r == Some(&v),
                None => r is None,
            },
    {
        find(&self.map, k.as_str())
    }

    /// The keyword spelled `k`, if there is one.
    pub fn get_keyword(&self, k: &String) -> (r: Option<&T>)
        ensures
            match self@.keyword(k@) {
                Some(v) => r == Some(&v),
                None => r is None,
            },
    {
        find(&self.keywords, k.as_str())
    }

    /// Whether `f` holds of the spelling of some symbol.
    pub fn any_key<F>(&self, f: F) -> (b: bool) where F: Fn(&String) -> bool
        requires
            forall|i: int| 0 <= i < self.keys().len() ==> call_requires(f, (&self.keys()[i],)),
        ensures
            b ==> exists|i: int|
                0 <= i < self.keys().len() && call_ensures(f, (&#[trigger] self.keys()[i],), true),
            !b ==> forall|i: int|
                0 <= i < self.keys().len() ==> call_ensures(
                    f,
                    (&#[trigger] self.keys()[i],),
                    false,
                ),
    {
        let mut i: usize = 0;
        while i < self.map.len()
            invariant
                i <= self.map.len(),
                forall|j: int| 0 <= j < self.keys().len() ==> call_requires(f, (&self.keys()[j],)),
                forall|j: int|
                    0 <= j < i ==> call_ensures(f, (&#[trigger] self.keys()[j],), false),
            decreases self.map.len() - i,
        {
            assert(self.keys()[i as int] == self.map@[i as int].0);
            if f(&self.map[i].0) {
                return true;
            }
            i += 1;
        }
        false
    }
}

} // verus!
