//! Selection panels over loaded data: ordered entries, a search box,
//! and a tracked selection. The display layer renders them; the engine
//! owns the data and the search logic.

use vstd::prelude::*;
use vstd::utf8::encode_utf8;
use crate::text::{bytes_contain, contains_bytes, dec_chars, decimal_string, lower_of, to_lowercase};

verus! {

/// How a panel search compares text.
#[derive(Debug, Clone, Copy, PartialEq, Eq, PartialOrd, Ord, Structural)]
pub struct SearchConfig {
    pub case_sensitive: bool,
}

impl Default for SearchConfig {
    /// Searches fold case unless asked otherwise.
    fn default() -> (r: SearchConfig)
        ensures
            r == (SearchConfig { case_sensitive: false }),
    {
        SearchConfig { case_sensitive: false }
    }
}

/// The fragment occurs in the text: their UTF-8 bytes meet as a
/// contiguous run, after Unicode case folding of both unless the
/// configuration asks for a sensitive match.
pub open spec fn card_match(text: Seq<char>, fragment: Seq<char>, config: SearchConfig) -> bool {
    if config.case_sensitive {
        contains_bytes(encode_utf8(text), encode_utf8(fragment))
    } else {
        contains_bytes(encode_utf8(lower_of(text)), encode_utf8(lower_of(fragment)))
    }
}

/// Decides whether the fragment occurs in the text under the given
/// configuration.
pub fn text_matches(text: &str, fragment: &str, config: SearchConfig) -> (r: bool)
    ensures
        r == card_match(text@, fragment@, config),
{
    if config.case_sensitive {
        bytes_contain(text.as_bytes(), fragment.as_bytes())
    } else {
        let lowered_text = to_lowercase(text);
        let lowered_fragment = to_lowercase(fragment);
        bytes_contain(lowered_text.as_str().as_bytes(), lowered_fragment.as_str().as_bytes())
    }
}

/// An entry a panel can display and search.
pub trait Card {
    /// The entry's search text.
    spec fn text_spec(&self) -> Seq<char>;

    /// Decides whether the fragment occurs in the entry's search text.
    fn contains(&self, fragment: &str, config: SearchConfig) -> (r: bool)
        ensures
            r == card_match(self.text_spec(), fragment@, config),
    ;

    /// The entry's search text, as an owned string.
    fn text_string(&self) -> (r: String)
        ensures
            r@ == self.text_spec(),
    ;
}

/// Decides whether the fragment, as written, occurs in the case folded
/// search text of an entry.
fn lowered_match<C: Card>(entry: &C, fragment: &str) -> (r: bool)
    ensures
        r == contains_bytes(encode_utf8(lower_of(entry.text_spec())), encode_utf8(fragment@)),
{
    let text = entry.text_string();
    let lowered = to_lowercase(text.as_str());
    bytes_contain(lowered.as_str().as_bytes(), fragment.as_bytes())
}

/// A calendar year of the tabular statistics data.
#[derive(Debug, Clone, Copy, PartialEq, PartialOrd, Eq, Ord, Structural)]
pub struct Year(pub i32);

impl Year {
    /// Wraps a run of numeric years, preserving order.
    pub fn years(values: &[i32]) -> (r: Vec<Year>)
        ensures
            r@.len() == values@.len(),
            forall|i: int| 0 <= i < values@.len() ==> (#[trigger] r@[i]) == Year(values@[i]),
    {
        let mut out: Vec<Year> = Vec::new();
        let n = values.len();
        let mut i: usize = 0;
        while i < n
            invariant
                i <= n,
                n == values@.len(),
                out@.len() == i,
                forall|k: int| 0 <= k < i ==> (#[trigger] out@[k]) == Year(values@[k]),
            decreases n - i,
        {
            out.push(Year(values[i]));
            i = i + 1;
        }
        out
    }
}

impl Card for Year {
    /// A year reads as its decimal text.
    open spec fn text_spec(&self) -> Seq<char> {
        dec_chars(self.0 as int)
    }

    fn contains(&self, fragment: &str, config: SearchConfig) -> (r: bool)
        ensures
            r == card_match(self.text_spec(), fragment@, config),
    {
        let text = decimal_string(self.0);
        text_matches(text.as_str(), fragment, config)
    }

    fn text_string(&self) -> (r: String)
        ensures
            r@ == self.text_spec(),
    {
        decimal_string(self.0)
    }
}

impl Card for String {
    /// A text entry reads as itself.
    open spec fn text_spec(&self) -> Seq<char> {
        self@
    }

    fn contains(&self, fragment: &str, config: SearchConfig) -> (r: bool)
        ensures
            r == card_match(self.text_spec(), fragment@, config),
    {
        text_matches(self.as_str(), fragment, config)
    }

    fn text_string(&self) -> (r: String)
        ensures
            r@ == self.text_spec(),
    {
        self.clone()
    }
}

impl Card for i32 {
    /// A numeric entry reads as its decimal text.
    open spec fn text_spec(&self) -> Seq<char> {
        dec_chars(*self as int)
    }

    fn contains(&self, fragment: &str, config: SearchConfig) -> (r: bool)
        ensures
            r == card_match(self.text_spec(), fragment@, config),
    {
        let text = decimal_string(*self);
        text_matches(text.as_str(), fragment, config)
    }

    fn text_string(&self) -> (r: String)
        ensures
            r@ == self.text_spec(),
    {
        decimal_string(*self)
    }
}

/// The entries of a run whose search text matches the fragment, in
/// order.
pub open spec fn kept_entries<T: Card>(s: Seq<T>, fragment: Seq<char>, config: SearchConfig) -> Seq<
    T,
>
    decreases s.len(),
{
    if s.len() == 0 {
        Seq::empty()
    } else {
        kept_entries(s.drop_last(), fragment, config) + if card_match(
            s.last().text_spec(),
            fragment,
            config,
        ) {
            seq![s.last()]
        } else {
            Seq::<T>::empty()
        }
    }
}

/// A panel over an ordered run of entries.
#[derive(Debug, Clone, PartialEq)]
pub struct Panel<T> {
    pub data: Vec<T>,
    pub selected: usize,
    pub search: String,
    pub value: Option<T>,
}

impl<T: Card> Panel<T> {
    /// A fresh panel over the given entries: nothing tracked, nothing
    /// searched, nothing selected.
    pub fn new(data: Vec<T>) -> (r: Panel<T>)
        ensures
            r.data == data,
            r.selected == 0,
            r.search@ == Seq::<char>::empty(),
            r.value is None,
    {
        Panel { data, selected: 0, search: String::new(), value: None }
    }

    /// Keeps exactly the entries whose search text holds the fragment,
    /// case folded, preserving their order.
    pub fn contains(&mut self, fragment: &str)
        ensures
            final(self).data@ == kept_entries(
                old(self).data@,
                fragment@,
                SearchConfig { case_sensitive: false },
            ),
            final(self).selected == old(self).selected,
            final(self).search == old(self).search,
            final(self).value == old(self).value,
    {
        let ghost all = self.data@;
        let ghost config = SearchConfig { case_sensitive: false };
        let mut rest: Vec<T> = Vec::new();
        core::mem::swap(&mut rest, &mut self.data);
        let mut kept: Vec<T> = Vec::new();
        let ghost mut seen: int = 0;
        while rest.len() > 0
            invariant
                0 <= seen <= all.len(),
                config == (SearchConfig { case_sensitive: false }),
                rest@ =~= all.skip(seen),
                kept@ =~= kept_entries(all.take(seen), fragment@, config),
            decreases rest@.len(),
        {
            let v = rest.remove(0);
            proof {
                assert(v == all[seen]);
                assert(all.take(seen + 1).drop_last() =~= all.take(seen));
                assert(all.take(seen + 1).last() == all[seen]);
                assert(rest@ =~= all.skip(seen + 1));
            }
            if v.contains(fragment, SearchConfig::default()) {
                kept.push(v);
            }
            proof {
                seen = seen + 1;
            }
        }
        proof {
            assert(all.take(seen) =~= all);
        }
        self.data = kept;
    }
}

/// A keyed panel over an ordered run of key/value pairs.
#[derive(Debug, Clone, PartialEq)]
pub struct HashPanel<K, V> {
    pub data: Vec<(K, V)>,
    pub selected: usize,
    pub search: String,
    pub value: V,
    pub key: Option<K>,
}

/// The pairs whose key or value text, case folded, holds the raw
/// fragment, in order.
pub open spec fn kept_pairs<K: Card, V: Card>(s: Seq<(K, V)>, fragment: Seq<char>) -> Seq<(K, V)>
    decreases s.len(),
{
    if s.len() == 0 {
        Seq::empty()
    } else {
        kept_pairs(s.drop_last(), fragment) + if contains_bytes(
            encode_utf8(lower_of(s.last().0.text_spec())),
            encode_utf8(fragment),
        ) || contains_bytes(encode_utf8(lower_of(s.last().1.text_spec())), encode_utf8(fragment)) {
            seq![s.last()]
        } else {
            Seq::<(K, V)>::empty()
        }
    }
}

impl<K: Card, V: Card + Default> HashPanel<K, V> {
    /// A fresh panel over the given pairs: nothing tracked, nothing
    /// searched, no key picked.
    pub fn new(data: Vec<(K, V)>) -> (r: HashPanel<K, V>)
        ensures
            r.data == data,
            r.selected == 0,
            r.search@ == Seq::<char>::empty(),
            r.key is None,
    {
        HashPanel { data, selected: 0, search: String::new(), value: V::default(), key: None }
    }

    /// Decides whether the fragment occurs in the key's or the value's
    /// search text, exactly as written.
    pub fn entry_contains(fragment: &str, entry: (&K, &V)) -> (r: bool)
        ensures
            r == (card_match(
                entry.0.text_spec(),
                fragment@,
                SearchConfig { case_sensitive: true },
            ) || card_match(
                entry.1.text_spec(),
                fragment@,
                SearchConfig { case_sensitive: true },
            )),
    {
        let sensitive = SearchConfig { case_sensitive: true };
        if entry.0.contains(fragment, sensitive) {
            true
        } else {
            entry.1.contains(fragment, sensitive)
        }
    }

    /// Keeps exactly the pairs whose key or value text, case folded,
    /// holds the raw fragment, preserving their order.
    pub fn contains(&mut self, fragment: &str)
        ensures
            final(self).data@ == kept_pairs(old(self).data@, fragment@),
            final(self).selected == old(self).selected,
            final(self).search == old(self).search,
            final(self).value == old(self).value,
            final(self).key == old(self).key,
    {
        let ghost all = self.data@;
        let mut rest: Vec<(K, V)> = Vec::new();
        core::mem::swap(&mut rest, &mut self.data);
        let mut kept: Vec<(K, V)> = Vec::new();
        let ghost mut seen: int = 0;
        while rest.len() > 0
            invariant
                0 <= seen <= all.len(),
                rest@ =~= all.skip(seen),
                kept@ =~= kept_pairs(all.take(seen), fragment@),
            decreases rest@.len(),
        {
            let pair = rest.remove(0);
            proof {
                assert(pair == all[seen]);
                assert(all.take(seen + 1).drop_last() =~= all.take(seen));
                assert(all.take(seen + 1).last() == all[seen]);
                assert(rest@ =~= all.skip(seen + 1));
            }
            let keep = if lowered_match(&pair.0, fragment) {
                true
            } else {
                lowered_match(&pair.1, fragment)
            };
            if keep {
                kept.push(pair);
            }
            proof {
                seen = seen + 1;
            }
        }
        proof {
            assert(all.take(seen) =~= all);
        }
        self.data = kept;
    }

}

/// A panel of the tabular statistics source: its years, line codes,
/// and location identifiers.
#[derive(Debug, Clone, PartialEq)]
pub struct BeaPanel {
    pub times: Panel<Year>,
    pub codes: HashPanel<String, String>,
    pub fips: HashPanel<i32, String>,
}

impl BeaPanel {
    /// Builds the three panels from plain values: the years newest
    /// first, the line codes and location identifiers in their source
    /// order.
    pub fn new(times: Vec<i32>, codes: Vec<(String, String)>, fips: Vec<(i32, String)>) -> (r:
        BeaPanel)
        ensures
            r.times.data@.len() == times@.len(),
            forall|i: int|
                0 <= i < times@.len() ==> (#[trigger] r.times.data@[i]) == crate::panel::Year(
                    times@[times@.len() - 1 - i],
                ),
            r.codes.data == codes,
            r.fips.data == fips,
    {
        let mut reversed: Vec<i32> = Vec::new();
        let n = times.len();
        let mut i: usize = 0;
        while i < n
            invariant
                i <= n,
                n == times@.len(),
                reversed@.len() == i,
                forall|k: int| 0 <= k < i ==> (#[trigger] reversed@[k]) == times@[n - 1 - k],
            decreases n - i,
        {
            reversed.push(times[n - 1 - i]);
            i = i + 1;
        }
        let times_panel = Panel::new(Year::years(reversed.as_slice()));
        BeaPanel { times: times_panel, codes: HashPanel::new(codes), fips: HashPanel::new(fips) }
    }
}

} // verus!
