//! Per-language gram frequency profiles: accumulation of gram counts from
//! text, and pruning of rare and foreign-script grams.

use vstd::prelude::*;
use crate::utils::chars::{chars_of, chars_eq};
use crate::utils::ngram::{
    NGram,
    spec_normalize,
    spec_normalize_vi,
    spec_window_after,
    spec_capital_after_add,
    spec_get,
    lemma_normalize_vi_len,
};

verus! {

/// The mathematical content of a profile: its gram-to-count map and its
/// per-length totals as unbounded integers.
pub open spec fn spec_state(p: LangProfile) -> (Map<Seq<char>, nat>, Seq<int>) {
    (spec_freq_map(p.freq@), p.n_words@.map_values(|c: usize| c as int))
}

/// One recorded gram occurrence on the mathematical state: applies only with
/// a name and a gram of one to three characters.
pub open spec fn spec_add_state(
    st: (Map<Seq<char>, nat>, Seq<int>),
    named: bool,
    g: Seq<char>,
) -> (Map<Seq<char>, nat>, Seq<int>) {
    if named && 1 <= g.len() <= 3 {
        (
            st.0.insert(
                g,
                (if st.0.contains_key(g) {
                    st.0[g]
                } else {
                    0nat
                }) + 1,
            ),
            st.1.update(g.len() - 1, st.1[g.len() - 1] + 1),
        )
    } else {
        st
    }
}

/// Records the gram when the window offers one.
pub open spec fn spec_add_gram_opt(
    st: (Map<Seq<char>, nat>, Seq<int>),
    named: bool,
    og: Option<Seq<char>>,
) -> (Map<Seq<char>, nat>, Seq<int>) {
    match og {
        Some(g) => spec_add_state(st, named, g),
        None => st,
    }
}

/// Feeds the characters through a sliding window, recording after each one
/// the grams of lengths one to three that the window offers.
pub open spec fn spec_feed_chars(
    st: (Map<Seq<char>, nat>, Seq<int>),
    w: Seq<char>,
    cap: bool,
    named: bool,
    s: Seq<char>,
) -> (Map<Seq<char>, nat>, Seq<int>)
    decreases s.len(),
{
    if s.len() == 0 {
        st
    } else {
        let ch = spec_normalize(s[0]);
        let w2 = spec_window_after(w, ch);
        let c2 = spec_capital_after_add(w, cap, ch);
        let st1 = spec_add_gram_opt(st, named, spec_get(w2, c2, 1));
        let st2 = spec_add_gram_opt(st1, named, spec_get(w2, c2, 2));
        let st3 = spec_add_gram_opt(st2, named, spec_get(w2, c2, 3));
        spec_feed_chars(st3, w2, c2, named, s.skip(1))
    }
}

/// Errors from loading a profile record.
#[derive(Debug, Clone)]
pub enum LangProfileJsonError {
    /// Reading the record failed.
    IoError(String),
    /// The record's text was not a well-formed profile.
    ParseError(String),
}

/// A profile record as an external loader hands it over: gram frequencies,
/// declared per-length totals, and the language name.
pub struct LangProfileJson {
    /// Gram frequencies, each gram once.
    pub freq: Vec<(String, usize)>,
    /// Declared total gram occurrences by gram length; must have exactly
    /// three entries to be accepted.
    pub n_words: Vec<usize>,
    /// Language identifier.
    pub name: String,
}

impl LangProfileJson {
    /// Each gram occurs at most once among the frequencies.
    pub open spec fn wf(&self) -> bool {
        forall|p: int, q: int|
            0 <= p < q < self.freq@.len() ==> (#[trigger] self.freq@[p]).0@ != (
            #[trigger] self.freq@[q]).0@
    }
}

/// No gram occurs twice among the entries.
pub open spec fn unique_grams(entries: Seq<(Vec<char>, usize)>) -> bool {
    forall|p: int, q: int|
        0 <= p < q < entries.len() ==> (#[trigger] entries[p]).0@ != (#[trigger] entries[q]).0@
}

/// The gram-to-count map the entries denote.
pub open spec fn spec_freq_map(entries: Seq<(Vec<char>, usize)>) -> Map<Seq<char>, nat>
    decreases entries.len(),
{
    if entries.len() == 0 {
        Map::empty()
    } else {
        spec_freq_map(entries.drop_last()).insert(
            entries.last().0@,
            entries.last().1 as nat,
        )
    }
}

/// What one entry contributes to the total count of grams of length `glen`.
pub open spec fn spec_count_contrib(e: (Vec<char>, usize), glen: int) -> int {
    if e.0@.len() == glen {
        e.1 as int
    } else {
        0
    }
}

/// Total count over all entries whose gram has length `glen`.
pub open spec fn spec_count_sum(entries: Seq<(Vec<char>, usize)>, glen: int) -> int
    decreases entries.len(),
{
    if entries.len() == 0 {
        0
    } else {
        spec_count_sum(entries.drop_last(), glen) + spec_count_contrib(entries.last(), glen)
    }
}

/// A gram absent from every entry is absent from the map.
proof fn lemma_freq_map_absent(entries: Seq<(Vec<char>, usize)>, g: Seq<char>)
    requires
        forall|p: int| 0 <= p < entries.len() ==> (#[trigger] entries[p]).0@ != g,
    ensures
        !spec_freq_map(entries).contains_key(g),
    decreases entries.len(),
{
    if entries.len() > 0 {
        assert(forall|p: int|
            0 <= p < entries.len() - 1 ==> (#[trigger] entries.drop_last()[p]) == entries[p]);
        lemma_freq_map_absent(entries.drop_last(), g);
    }
}

/// With unique grams, the map's value at an entry's gram is that entry's
/// count.
proof fn lemma_freq_map_at(entries: Seq<(Vec<char>, usize)>, i: int)
    requires
        unique_grams(entries),
        0 <= i < entries.len(),
    ensures
        spec_freq_map(entries).contains_key(entries[i].0@),
        spec_freq_map(entries)[entries[i].0@] == entries[i].1 as nat,
    decreases entries.len(),
{
    if i < entries.len() - 1 {
        assert(forall|p: int|
            0 <= p < entries.len() - 1 ==> (#[trigger] entries.drop_last()[p]) == entries[p]);
        lemma_freq_map_at(entries.drop_last(), i);
        assert(entries[i].0@ != entries.last().0@);
    }
}

/// Replacing the entry at `i` by one with the same gram view updates the map
/// at that gram alone.
proof fn lemma_freq_map_update(entries: Seq<(Vec<char>, usize)>, i: int, e: (Vec<char>, usize))
    requires
        unique_grams(entries),
        0 <= i < entries.len(),
        e.0@ == entries[i].0@,
    ensures
        spec_freq_map(entries.update(i, e)) =~= spec_freq_map(entries).insert(e.0@, e.1 as nat),
        unique_grams(entries.update(i, e)),
    decreases entries.len(),
{
    let upd = entries.update(i, e);
    assert(forall|p: int| 0 <= p < entries.len() && p != i ==> upd[p] == entries[p]);
    if i == entries.len() - 1 {
        assert(upd.drop_last() =~= entries.drop_last());
    } else {
        assert(upd.drop_last() =~= entries.drop_last().update(i, e));
        assert(forall|p: int|
            0 <= p < entries.len() - 1 ==> (#[trigger] entries.drop_last()[p]) == entries[p]);
        lemma_freq_map_update(entries.drop_last(), i, e);
        assert(upd.last() == entries.last());
        assert(e.0@ != entries.last().0@);
    }
}

/// Replacing the entry at `i` changes each per-length total by the
/// difference of the contributions.
proof fn lemma_count_sum_update(
    entries: Seq<(Vec<char>, usize)>,
    i: int,
    e: (Vec<char>, usize),
    glen: int,
)
    requires
        0 <= i < entries.len(),
    ensures
        spec_count_sum(entries.update(i, e), glen) == spec_count_sum(entries, glen)
            - spec_count_contrib(entries[i], glen) + spec_count_contrib(e, glen),
    decreases entries.len(),
{
    let upd = entries.update(i, e);
    if i == entries.len() - 1 {
        assert(upd.drop_last() =~= entries.drop_last());
    } else {
        assert(upd.drop_last() =~= entries.drop_last().update(i, e));
        lemma_count_sum_update(entries.drop_last(), i, e, glen);
        assert(upd.last() == entries.last());
    }
}

/// Every per-length total is nonnegative.
proof fn lemma_count_sum_nonneg(entries: Seq<(Vec<char>, usize)>, glen: int)
    ensures
        spec_count_sum(entries, glen) >= 0,
    decreases entries.len(),
{
    if entries.len() > 0 {
        lemma_count_sum_nonneg(entries.drop_last(), glen);
    }
}

/// Whether the character is an unaccented Latin letter.
pub open spec fn spec_is_roman_char(c: char) -> bool {
    ('A' <= c && c <= 'Z') || ('a' <= c && c <= 'z')
}

/// Whether the gram holds any unaccented Latin letter.
pub open spec fn spec_has_roman(g: Seq<char>) -> bool {
    exists|k: int| 0 <= k < g.len() && spec_is_roman_char(g[k])
}

/// The entries whose count exceeds the threshold, in order.
pub open spec fn spec_prune(entries: Seq<(Vec<char>, usize)>, t: int) -> Seq<(Vec<char>, usize)>
    decreases entries.len(),
{
    if entries.len() == 0 {
        Seq::empty()
    } else {
        spec_prune(entries.drop_last(), t) + (if entries.last().1 > t {
            seq![entries.last()]
        } else {
            Seq::empty()
        })
    }
}

/// The entries whose gram holds no Latin letter, in order.
pub open spec fn spec_strip_roman(entries: Seq<(Vec<char>, usize)>) -> Seq<(Vec<char>, usize)>
    decreases entries.len(),
{
    if entries.len() == 0 {
        Seq::empty()
    } else {
        spec_strip_roman(entries.drop_last()) + (if !spec_has_roman(entries.last().0@) {
            seq![entries.last()]
        } else {
            Seq::empty()
        })
    }
}

/// Total count of the single-character Latin-letter grams among the entries.
pub open spec fn spec_roman_sum(entries: Seq<(Vec<char>, usize)>) -> int
    decreases entries.len(),
{
    if entries.len() == 0 {
        0
    } else {
        spec_roman_sum(entries.drop_last()) + (if entries.last().0@.len() == 1
            && spec_is_roman_char(entries.last().0@[0]) {
            entries.last().1 as int
        } else {
            0
        })
    }
}

/// The pruning threshold: the 1-gram total divided by the ratio, at least
/// the minimum count.
pub open spec fn spec_omit_threshold(p: LangProfile) -> int {
    let base = p.n_words@[0] as int / 100000;
    if base >= 2 {
        base
    } else {
        2
    }
}

/// Per-length totals split at any point of the entries.
proof fn lemma_count_sum_split(entries: Seq<(Vec<char>, usize)>, m: int, glen: int)
    requires
        0 <= m <= entries.len(),
    ensures
        spec_count_sum(entries, glen) == spec_count_sum(entries.take(m), glen) + spec_count_sum(
            entries.skip(m),
            glen,
        ),
    decreases entries.len(),
{
    if m == entries.len() {
        assert(entries.take(m) =~= entries);
        assert(entries.skip(m) =~= Seq::<(Vec<char>, usize)>::empty());
    } else {
        let d = entries.drop_last();
        lemma_count_sum_split(d, m, glen);
        assert(entries.take(m) =~= d.take(m));
        assert(entries.skip(m).drop_last() =~= d.skip(m));
        assert(entries.skip(m).last() == entries.last());
    }
}

/// Pruning never raises a per-length total.
proof fn lemma_prune_count_le(entries: Seq<(Vec<char>, usize)>, t: int, glen: int)
    ensures
        0 <= spec_count_sum(spec_prune(entries, t), glen),
        spec_count_sum(spec_prune(entries, t), glen) <= spec_count_sum(entries, glen),
    decreases entries.len(),
{
    lemma_count_sum_nonneg(spec_prune(entries, t), glen);
    if entries.len() > 0 {
        lemma_prune_count_le(entries.drop_last(), t, glen);
        let pr = spec_prune(entries, t);
        let prd = spec_prune(entries.drop_last(), t);
        if entries.last().1 > t {
            assert(pr.drop_last() =~= prd);
            assert(pr.last() == entries.last());
        } else {
            assert(pr =~= prd);
        }
    }
}

/// The Latin-letter 1-gram total is at most the 1-gram total.
proof fn lemma_roman_le_count1(entries: Seq<(Vec<char>, usize)>)
    ensures
        0 <= spec_roman_sum(entries),
        spec_roman_sum(entries) <= spec_count_sum(entries, 1),
    decreases entries.len(),
{
    if entries.len() > 0 {
        lemma_roman_le_count1(entries.drop_last());
    }
}

/// Removing an entry keeps the grams unique.
proof fn lemma_unique_remove(entries: Seq<(Vec<char>, usize)>, i: int)
    requires
        unique_grams(entries),
        0 <= i < entries.len(),
    ensures
        unique_grams(entries.remove(i)),
{
    let r = entries.remove(i);
    assert forall|p: int, q: int| 0 <= p < q < r.len() implies (#[trigger] r[p]).0@ != (
    #[trigger] r[q]).0@ by {
        let p0 = if p < i {
            p
        } else {
            p + 1
        };
        let q0 = if q < i {
            q
        } else {
            q + 1
        };
        assert(r[p] == entries[p0]);
        assert(r[q] == entries[q0]);
    }
}

/// A profile: the language name, the gram frequencies, and the per-length
/// total gram counts (index 0 for 1-grams, up to index 2 for 3-grams).
pub struct LangProfile {
    /// Language identifier; accumulation is refused without one.
    pub name: Option<String>,
    /// Gram frequencies, each gram once.
    pub freq: Vec<(Vec<char>, usize)>,
    /// Total gram occurrences by gram length; always three entries.
    pub n_words: Vec<usize>,
}

impl LangProfile {
    /// Minimum count a gram needs to survive pruning.
    pub const MINIMUM_FREQ: usize = 2;

    /// Divisor of the 1-gram total that sets the pruning threshold.
    pub const LESS_FREQ_RATIO: usize = 100000;

    /// Three per-length totals and unique grams: what every constructor
    /// establishes and every method keeps.
    pub open spec fn grams_ok(&self) -> bool {
        &&& self.n_words@.len() == 3
        &&& unique_grams(self.freq@)
    }

    /// Every stored gram has between one and three characters.
    pub open spec fn gram_lengths_ok(&self) -> bool {
        forall|p: int|
            0 <= p < self.freq@.len() ==> 1 <= (#[trigger] self.freq@[p]).0@.len() <= 3
    }

    /// Full well-formedness: each per-length total equals the sum of the
    /// counts of the stored grams of that length.
    pub open spec fn wf(&self) -> bool {
        &&& self.grams_ok()
        &&& self.gram_lengths_ok()
        &&& forall|k: int|
            1 <= k <= 3 ==> self.n_words@[k - 1] == spec_count_sum(self.freq@, k)
    }

    /// Each per-length total is at least the sum of the counts of the stored
    /// grams of that length (declared totals may exceed the stored counts).
    pub open spec fn counts_bounded(&self) -> bool {
        &&& self.grams_ok()
        &&& self.gram_lengths_ok()
        &&& forall|k: int|
            1 <= k <= 3 ==> spec_count_sum(self.freq@, k) <= self.n_words@[k - 1]
    }

    /// Whether adding this gram mutates the profile at all.
    pub open spec fn spec_add_applies(&self, g: Seq<char>) -> bool {
        self.name is Some && 1 <= g.len() <= 3
    }

    /// The touched counters have room for one more occurrence.
    pub open spec fn spec_addable(&self, g: Seq<char>) -> bool {
        self.spec_add_applies(g) ==> {
            &&& self.n_words@[g.len() - 1] < usize::MAX
            &&& (spec_freq_map(self.freq@).contains_key(g) ==> spec_freq_map(self.freq@)[g]
                < usize::MAX)
        }
    }

    /// A builder for an empty, unnamed profile.
    pub fn new() -> (r: LangProfileBuilder)
        ensures
            r.profile.name is None,
            r.profile.freq@.len() == 0,
            r.profile.n_words@ == seq![0usize, 0usize, 0usize],
            r.profile.wf(),
    {
        let mut n_words: Vec<usize> = Vec::new();
        n_words.push(0);
        n_words.push(0);
        n_words.push(0);
        proof {
            assert(n_words@ =~= seq![0usize, 0usize, 0usize]);
        }
        let profile = LangProfile { name: None, freq: Vec::new(), n_words };
        LangProfileBuilder { profile }
    }

    /// Builds a profile from a loaded record; refused when the declared
    /// per-length totals are not exactly three.
    pub fn from_json(json: LangProfileJson) -> (r: Result<LangProfile, &'static str>)
        requires
            json.wf(),
        ensures
            r is Err <==> json.n_words@.len() != 3,
            r is Err ==> r->Err_0@ == "Invalid n_words length"@,
            r is Ok ==> {
                let p = r->Ok_0;
                &&& p.name is Some
                &&& p.name->0@ == json.name@
                &&& p.n_words@ == json.n_words@
                &&& p.freq@.len() == json.freq@.len()
                &&& forall|i: int|
                    0 <= i < json.freq@.len() ==> (#[trigger] p.freq@[i]).0@ == json.freq@[i].0@
                        && p.freq@[i].1 == json.freq@[i].1
                &&& p.grams_ok()
            },
    {
        if json.n_words.len() != 3 {
            return Err("Invalid n_words length");
        }
        let LangProfileJson { freq, n_words, name } = json;
        let mut entries: Vec<(Vec<char>, usize)> = Vec::new();
        let mut i: usize = 0;
        while i < freq.len()
            invariant
                i <= freq@.len(),
                entries@.len() == i,
                forall|p: int|
                    0 <= p < i ==> (#[trigger] entries@[p]).0@ == freq@[p].0@ && entries@[p].1
                        == freq@[p].1,
            decreases freq@.len() - i,
        {
            let g = chars_of(freq[i].0.as_str());
            let c = freq[i].1;
            entries.push((g, c));
            i = i + 1;
        }
        let p = LangProfile { name: Some(name), freq: entries, n_words };
        proof {
            assert(unique_grams(p.freq@));
        }
        Ok(p)
    }

    /// Position of the gram among the entries, if stored.
    fn find_gram(&self, g: &Vec<char>) -> (r: Option<usize>)
        ensures
            match r {
                Some(i) => i < self.freq@.len() && self.freq@[i as int].0@ == g@,
                None => forall|p: int|
                    0 <= p < self.freq@.len() ==> (#[trigger] self.freq@[p]).0@ != g@,
            },
    {
        let mut i: usize = 0;
        while i < self.freq.len()
            invariant
                i <= self.freq@.len(),
                forall|p: int| 0 <= p < i ==> (#[trigger] self.freq@[p]).0@ != g@,
            decreases self.freq@.len() - i,
        {
            if chars_eq(&self.freq[i].0, g) {
                return Some(i);
            }
            i = i + 1;
        }
        None
    }

    /// The stored count of a gram, if any.
    pub fn freq_get(&self, gram: &str) -> (r: Option<usize>)
        requires
            self.grams_ok(),
        ensures
            r is Some <==> spec_freq_map(self.freq@).contains_key(gram@),
            r is Some ==> r->0 as nat == spec_freq_map(self.freq@)[gram@],
    {
        let g = chars_of(gram);
        match self.find_gram(&g) {
            Some(i) => {
                proof {
                    lemma_freq_map_at(self.freq@, i as int);
                }
                Some(self.freq[i].1)
            },
            None => {
                proof {
                    lemma_freq_map_absent(self.freq@, g@);
                }
                None
            },
        }
    }

    /// Records one occurrence of the gram: a no-op without a name or for a
    /// gram outside one to three characters; otherwise the gram's count and
    /// the matching per-length total each grow by one.
    pub fn add(&mut self, gram: &str)
        requires
            old(self).grams_ok(),
            old(self).spec_addable(gram@),
        ensures
            final(self).name == old(self).name,
            final(self).grams_ok(),
            old(self).spec_add_applies(gram@) ==> {
                &&& spec_freq_map(final(self).freq@) == spec_freq_map(old(self).freq@).insert(
                    gram@,
                    (if spec_freq_map(old(self).freq@).contains_key(gram@) {
                        spec_freq_map(old(self).freq@)[gram@]
                    } else {
                        0
                    }) + 1,
                )
                &&& final(self).n_words@ == old(self).n_words@.update(
                    gram@.len() - 1,
                    (old(self).n_words@[gram@.len() - 1] + 1) as usize,
                )
            },
            !old(self).spec_add_applies(gram@) ==> *final(self) == *old(self),
            old(self).wf() ==> final(self).wf(),
    {
        if self.name.is_none() || gram.is_empty() {
            return;
        }
        let g = chars_of(gram);
        let length = g.len();
        if length < 1 || length > 3 {
            return;
        }
        let old_total = self.n_words[length - 1];
        self.n_words[length - 1] = old_total + 1;
        match self.find_gram(&g) {
            Some(i) => {
                proof {
                    lemma_freq_map_at(self.freq@, i as int);
                }
                let c = self.freq[i].1;
                let ghost before = self.freq@;
                self.freq[i] = (g, c + 1);
                proof {
                    let e = self.freq@[i as int];
                    lemma_freq_map_update(before, i as int, e);
                    assert(spec_freq_map(self.freq@) =~= spec_freq_map(old(self).freq@).insert(
                        gram@,
                        (spec_freq_map(old(self).freq@)[gram@] + 1) as nat,
                    ));
                    if old(self).wf() {
                        assert forall|k: int| 1 <= k <= 3 implies self.n_words@[k - 1]
                            == spec_count_sum(self.freq@, k) by {
                            lemma_count_sum_update(before, i as int, e, k);
                        }
                        assert(self.wf());
                    }
                }
            },
            None => {
                proof {
                    lemma_freq_map_absent(self.freq@, g@);
                }
                let ghost before = self.freq@;
                self.freq.push((g, 1));
                proof {
                    assert(self.freq@.drop_last() =~= before);
                    assert(spec_freq_map(self.freq@) =~= spec_freq_map(old(self).freq@).insert(
                        gram@,
                        1nat,
                    ));
                    assert(unique_grams(self.freq@));
                    if old(self).wf() {
                        assert forall|k: int| 1 <= k <= 3 implies self.n_words@[k - 1]
                            == spec_count_sum(self.freq@, k) by {
                            assert(spec_count_sum(self.freq@, k) == spec_count_sum(before, k)
                                + spec_count_contrib(self.freq@.last(), k));
                        }
                        assert(self.wf());
                    }
                }
            },
        }
    }
}

impl LangProfile {
    /// Records the gram of length `n` the window currently offers, if any.
    fn add_window_gram(&mut self, gram: &NGram, n: usize)
        requires
            old(self).grams_ok(),
            forall|k: int| 0 <= k < 3 ==> (#[trigger] old(self).n_words@[k]) < usize::MAX,
            forall|g: Seq<char>|
                spec_freq_map(old(self).freq@).contains_key(g) ==> (#[trigger] spec_freq_map(
                    old(self).freq@,
                )[g]) < usize::MAX,
        ensures
            final(self).name == old(self).name,
            final(self).grams_ok(),
            old(self).wf() ==> final(self).wf(),
            spec_state(*final(self)) == spec_add_gram_opt(
                spec_state(*old(self)),
                old(self).name is Some,
                spec_get(gram.grams@, gram.capitalword, n as int),
            ),
            forall|k: int|
                0 <= k < 3 ==> old(self).n_words@[k] <= (#[trigger] final(self).n_words@[k])
                    <= old(self).n_words@[k] + 1,
            forall|g: Seq<char>|
                spec_freq_map(final(self).freq@).contains_key(g) ==> (#[trigger] spec_freq_map(
                    final(self).freq@,
                )[g]) <= (if spec_freq_map(old(self).freq@).contains_key(g) {
                    spec_freq_map(old(self).freq@)[g]
                } else {
                    0nat
                }) + 1,
    {
        let got = gram.get(n);
        match got {
            Some(g) => {
                proof {
                    let sg = spec_get(gram.grams@, gram.capitalword, n as int);
                    assert(sg is Some);
                    assert(g@ == sg.unwrap());
                    assert(1 <= n <= 3);
                    assert(1 <= g@.len() <= 3);
                }
                self.add(g.as_str());
                proof {
                    let stf = spec_state(*self);
                    let sta = spec_add_state(
                        spec_state(*old(self)),
                        old(self).name is Some,
                        g@,
                    );
                    if old(self).spec_add_applies(g@) {
                        assert(stf.1 =~= sta.1);
                        assert(stf.0 == sta.0);
                    } else {
                        assert(stf == sta);
                    }
                }
            },
            None => {},
        }
    }

    /// Scans the text: Vietnamese normalization first, then every character
    /// through a fresh window, recording each gram of lengths one to three
    /// the window offers along the way.
    pub fn update(&mut self, text: &str)
        requires
            old(self).grams_ok(),
            forall|k: int|
                0 <= k < 3 ==> (#[trigger] old(self).n_words@[k]) + 3 * text@.len()
                    <= usize::MAX,
            forall|g: Seq<char>|
                spec_freq_map(old(self).freq@).contains_key(g) ==> (#[trigger] spec_freq_map(
                    old(self).freq@,
                )[g]) + 3 * text@.len() <= usize::MAX,
        ensures
            final(self).name == old(self).name,
            final(self).grams_ok(),
            old(self).wf() ==> final(self).wf(),
            spec_state(*final(self)) == spec_feed_chars(
                spec_state(*old(self)),
                seq![' '],
                false,
                old(self).name is Some,
                spec_normalize_vi(text@),
            ),
    {
        if text.is_empty() {
            return;
        }
        let normalized = NGram::normalize_vi(text);
        let cs = chars_of(normalized.as_str());
        proof {
            lemma_normalize_vi_len(text@);
        }
        let ghost named = old(self).name is Some;
        let ghost goal = spec_feed_chars(
            spec_state(*old(self)),
            seq![' '],
            false,
            named,
            cs@,
        );
        let mut gram = NGram::new();
        let mut i: usize = 0;
        proof {
            assert(cs@.skip(0) =~= cs@);
        }
        while i < cs.len()
            invariant
                i <= cs@.len(),
                self.name == old(self).name,
                named == (old(self).name is Some),
                self.grams_ok(),
                old(self).wf() ==> self.wf(),
                forall|k: int|
                    0 <= k < 3 ==> (#[trigger] self.n_words@[k]) + 3 * (cs@.len() - i)
                        <= usize::MAX,
                forall|g: Seq<char>|
                    spec_freq_map(self.freq@).contains_key(g) ==> (#[trigger] spec_freq_map(
                        self.freq@,
                    )[g]) + 3 * (cs@.len() - i) <= usize::MAX,
                spec_feed_chars(
                    spec_state(*self),
                    gram.grams@,
                    gram.capitalword,
                    named,
                    cs@.skip(i as int),
                ) == goal,
            decreases cs@.len() - i,
        {
            let ghost st_top = spec_state(*self);
            let ghost w_old = gram.grams@;
            let ghost cap_old = gram.capitalword;
            let ghost tail = cs@.skip(i as int);
            proof {
                assert(tail[0] == cs@[i as int]);
            }
            gram.add_char(cs[i]);
            let ghost st0 = spec_state(*self);
            self.add_window_gram(&gram, 1);
            let ghost st1 = spec_state(*self);
            self.add_window_gram(&gram, 2);
            let ghost st2 = spec_state(*self);
            self.add_window_gram(&gram, 3);
            i = i + 1;
            proof {
                let ch = spec_normalize(tail[0]);
                let w2 = spec_window_after(w_old, ch);
                let c2 = spec_capital_after_add(w_old, cap_old, ch);
                assert(gram.grams@ == w2);
                assert(gram.capitalword == c2);
                assert(st0 == st_top);
                assert(named == (self.name is Some));
                assert(st1 == spec_add_gram_opt(st_top, named, spec_get(w2, c2, 1)));
                assert(st2 == spec_add_gram_opt(st1, named, spec_get(w2, c2, 2)));
                assert(spec_state(*self) == spec_add_gram_opt(st2, named, spec_get(w2, c2, 3)));
                assert(cs@.skip(i as int) =~= tail.skip(1));
                assert(spec_feed_chars(st_top, w_old, cap_old, named, tail) == spec_feed_chars(
                    spec_state(*self),
                    gram.grams@,
                    gram.capitalword,
                    named,
                    cs@.skip(i as int),
                ));
            }
        }
        proof {
            assert(cs@.skip(i as int) =~= Seq::<char>::empty());
        }
    }
}

/// Whether the character is an unaccented Latin letter.
fn is_roman_char(c: char) -> (r: bool)
    ensures
        r == spec_is_roman_char(c),
{
    ('A' <= c && c <= 'Z') || ('a' <= c && c <= 'z')
}

impl LangProfile {
    /// Removes every gram whose count is at most the threshold, keeping the
    /// per-length totals in step, and returns the total count of the
    /// surviving single-character Latin-letter grams.
    fn prune_rare_grams(&mut self, threshold: usize) -> (roman: usize)
        requires
            old(self).counts_bounded(),
        ensures
            final(self).name == old(self).name,
            final(self).freq@ == spec_prune(old(self).freq@, threshold as int),
            final(self).n_words@.len() == 3,
            forall|k: int|
                1 <= k <= 3 ==> (#[trigger] final(self).n_words@[k - 1]) as int == old(
                    self,
                ).n_words@[k - 1] - (spec_count_sum(old(self).freq@, k) - spec_count_sum(
                    final(self).freq@,
                    k,
                )),
            roman as int == spec_roman_sum(final(self).freq@),
            final(self).counts_bounded(),
    {
        let ghost orig = self.freq@;
        let ghost orig_n = self.n_words@;
        let ghost t = threshold as int;
        let mut p: usize = 0;
        let mut roman: usize = 0;
        let ghost mut j: int = 0;
        proof {
            assert(orig.take(0) =~= Seq::<(Vec<char>, usize)>::empty());
            assert(orig.skip(0) =~= orig);
            assert(self.freq@ =~= spec_prune(orig.take(0), t) + orig.skip(0));
        }
        while p < self.freq.len()
            invariant
                0 <= j <= orig.len(),
                orig == old(self).freq@,
                orig_n == old(self).n_words@,
                t == threshold as int,
                old(self).counts_bounded(),
                self.name == old(self).name,
                self.n_words@.len() == 3,
                unique_grams(self.freq@),
                self.gram_lengths_ok(),
                self.freq@ == spec_prune(orig.take(j), t) + orig.skip(j),
                p == spec_prune(orig.take(j), t).len(),
                forall|k: int|
                    1 <= k <= 3 ==> (#[trigger] self.n_words@[k - 1]) as int == orig_n[k
                        - 1] - (spec_count_sum(orig.take(j), k) - spec_count_sum(
                        spec_prune(orig.take(j), t),
                        k,
                    )),
                roman as int == spec_roman_sum(spec_prune(orig.take(j), t)),
            decreases self.freq@.len() - p,
        {
            proof {
                lemma_count_sum_nonneg(orig.skip(j), 1);
                assert(self.freq@.len() == p + orig.len() - j);
                assert(j < orig.len());
                assert(orig.skip(j)[0] == orig[j]);
                assert(self.freq@[p as int] == orig[j]);
            }
            let ghost takej1 = orig.take(j + 1);
            proof {
                assert(takej1.drop_last() =~= orig.take(j));
                assert(takej1.last() == orig[j]);
            }
            let count = self.freq[p].1;
            let glen = self.freq[p].0.len();
            proof {
                assert(old(self).freq@[j] == orig[j]);
                assert(1 <= glen <= 3);
            }
            if count <= threshold {
                proof {
                    let k = glen as int;
                    lemma_count_sum_split(orig, j + 1, k);
                    lemma_count_sum_nonneg(orig.skip(j + 1), k);
                    lemma_prune_count_le(orig.take(j), t, k);
                    assert(spec_count_sum(takej1, k) == spec_count_sum(orig.take(j), k)
                        + count);
                    assert(spec_count_sum(orig, k) <= orig_n[k - 1]);
                    assert(count <= self.n_words@[k - 1]);
                }
                let nw = self.n_words[glen - 1];
                self.n_words[glen - 1] = nw - count;
                let ghost before = self.freq@;
                self.freq.remove(p);
                proof {
                    lemma_unique_remove(before, p as int);
                    assert(spec_prune(takej1, t) =~= spec_prune(orig.take(j), t));
                    assert(self.freq@ =~= spec_prune(takej1, t) + orig.skip(j + 1));
                    assert forall|k: int|
                        1 <= k <= 3 implies (#[trigger] self.n_words@[k - 1]) as int == orig_n[k
                        - 1] - (spec_count_sum(takej1, k) - spec_count_sum(
                        spec_prune(takej1, t),
                        k,
                    )) by {
                        assert(spec_count_sum(takej1, k) == spec_count_sum(orig.take(j), k)
                            + spec_count_contrib(orig[j], k));
                    }
                    j = j + 1;
                }
            } else {
                let entry_is_roman = if glen == 1 {
                    let c0 = self.freq[p].0[0];
                    is_roman_char(c0)
                } else {
                    false
                };
                proof {
                    let pr1 = spec_prune(takej1, t);
                    assert(pr1.drop_last() =~= spec_prune(orig.take(j), t));
                    assert(pr1.last() == orig[j]);
                    lemma_roman_le_count1(pr1);
                    lemma_prune_count_le(takej1, t, 1);
                    lemma_count_sum_split(orig, j + 1, 1);
                    lemma_count_sum_nonneg(orig.skip(j + 1), 1);
                    assert(spec_count_sum(orig, 1) <= orig_n[0]);
                    assert(spec_roman_sum(pr1) <= orig_n[0]);
                }
                if entry_is_roman {
                    roman = roman + count;
                }
                p = p + 1;
                proof {
                    let pr1 = spec_prune(takej1, t);
                    assert(self.freq@ =~= pr1 + orig.skip(j + 1));
                    assert(p == pr1.len());
                    assert(roman as int == spec_roman_sum(pr1));
                    assert forall|k: int|
                        1 <= k <= 3 implies (#[trigger] self.n_words@[k - 1]) as int == orig_n[k
                        - 1] - (spec_count_sum(takej1, k) - spec_count_sum(pr1, k)) by {
                        assert(spec_count_sum(takej1, k) == spec_count_sum(orig.take(j), k)
                            + spec_count_contrib(orig[j], k));
                        assert(spec_count_sum(pr1, k) == spec_count_sum(
                            spec_prune(orig.take(j), t),
                            k,
                        ) + spec_count_contrib(orig[j], k));
                    }
                    j = j + 1;
                }
            }
        }
        proof {
            assert(j == orig.len());
            assert(orig.take(j) =~= orig);
            assert(self.freq@ =~= spec_prune(orig, t));
            assert forall|k: int|
                1 <= k <= 3 implies spec_count_sum(self.freq@, k) <= (
            #[trigger] self.n_words@[k - 1]) as int by {
                lemma_prune_count_le(orig, t, k);
            }
        }
        roman
    }
}

/// Whether the gram holds any unaccented Latin letter.
fn gram_has_roman(g: &Vec<char>) -> (r: bool)
    ensures
        r == spec_has_roman(g@),
{
    let mut i: usize = 0;
    while i < g.len()
        invariant
            i <= g@.len(),
            forall|k: int| 0 <= k < i ==> !spec_is_roman_char(g@[k]),
        decreases g@.len() - i,
    {
        if is_roman_char(g[i]) {
            return true;
        }
        i = i + 1;
    }
    false
}

/// Stripping Latin-letter grams never raises a per-length total.
proof fn lemma_strip_count_le(entries: Seq<(Vec<char>, usize)>, glen: int)
    ensures
        0 <= spec_count_sum(spec_strip_roman(entries), glen),
        spec_count_sum(spec_strip_roman(entries), glen) <= spec_count_sum(entries, glen),
    decreases entries.len(),
{
    lemma_count_sum_nonneg(spec_strip_roman(entries), glen);
    if entries.len() > 0 {
        lemma_strip_count_le(entries.drop_last(), glen);
        let st = spec_strip_roman(entries);
        let std_ = spec_strip_roman(entries.drop_last());
        if !spec_has_roman(entries.last().0@) {
            assert(st.drop_last() =~= std_);
            assert(st.last() == entries.last());
        } else {
            assert(st =~= std_);
        }
    }
}

impl LangProfile {
    /// Removes every gram that holds an unaccented Latin letter, keeping the
    /// per-length totals in step.
    fn strip_roman_grams(&mut self)
        requires
            old(self).counts_bounded(),
        ensures
            final(self).name == old(self).name,
            final(self).freq@ == spec_strip_roman(old(self).freq@),
            final(self).n_words@.len() == 3,
            forall|k: int|
                1 <= k <= 3 ==> (#[trigger] final(self).n_words@[k - 1]) as int == old(
                    self,
                ).n_words@[k - 1] - (spec_count_sum(old(self).freq@, k) - spec_count_sum(
                    final(self).freq@,
                    k,
                )),
            final(self).counts_bounded(),
    {
        let ghost orig = self.freq@;
        let ghost orig_n = self.n_words@;
        let mut p: usize = 0;
        let ghost mut j: int = 0;
        proof {
            assert(orig.take(0) =~= Seq::<(Vec<char>, usize)>::empty());
            assert(orig.skip(0) =~= orig);
            assert(self.freq@ =~= spec_strip_roman(orig.take(0)) + orig.skip(0));
        }
        while p < self.freq.len()
            invariant
                0 <= j <= orig.len(),
                orig == old(self).freq@,
                orig_n == old(self).n_words@,
                old(self).counts_bounded(),
                self.name == old(self).name,
                self.n_words@.len() == 3,
                unique_grams(self.freq@),
                self.gram_lengths_ok(),
                self.freq@ == spec_strip_roman(orig.take(j)) + orig.skip(j),
                p == spec_strip_roman(orig.take(j)).len(),
                forall|k: int|
                    1 <= k <= 3 ==> (#[trigger] self.n_words@[k - 1]) as int == orig_n[k
                        - 1] - (spec_count_sum(orig.take(j), k) - spec_count_sum(
                        spec_strip_roman(orig.take(j)),
                        k,
                    )),
            decreases self.freq@.len() - p,
        {
            proof {
                assert(self.freq@.len() == p + orig.len() - j);
                assert(j < orig.len());
                assert(orig.skip(j)[0] == orig[j]);
                assert(self.freq@[p as int] == orig[j]);
            }
            let ghost takej1 = orig.take(j + 1);
            proof {
                assert(takej1.drop_last() =~= orig.take(j));
                assert(takej1.last() == orig[j]);
            }
            let has = gram_has_roman(&self.freq[p].0);
            let count = self.freq[p].1;
            let glen = self.freq[p].0.len();
            proof {
                assert(old(self).freq@[j] == orig[j]);
                assert(1 <= glen <= 3);
            }
            if has {
                proof {
                    let k = glen as int;
                    lemma_count_sum_split(orig, j + 1, k);
                    lemma_count_sum_nonneg(orig.skip(j + 1), k);
                    lemma_strip_count_le(orig.take(j), k);
                    assert(spec_count_sum(takej1, k) == spec_count_sum(orig.take(j), k)
                        + count);
                    assert(spec_count_sum(orig, k) <= orig_n[k - 1]);
                    assert(count <= self.n_words@[k - 1]);
                }
                let nw = self.n_words[glen - 1];
                self.n_words[glen - 1] = nw - count;
                let ghost before = self.freq@;
                self.freq.remove(p);
                proof {
                    lemma_unique_remove(before, p as int);
                    assert(spec_strip_roman(takej1) =~= spec_strip_roman(orig.take(j)));
                    assert(self.freq@ =~= spec_strip_roman(takej1) + orig.skip(j + 1));
                    assert forall|k: int|
                        1 <= k <= 3 implies (#[trigger] self.n_words@[k - 1]) as int == orig_n[k
                        - 1] - (spec_count_sum(takej1, k) - spec_count_sum(
                        spec_strip_roman(takej1),
                        k,
                    )) by {
                        assert(spec_count_sum(takej1, k) == spec_count_sum(orig.take(j), k)
                            + spec_count_contrib(orig[j], k));
                    }
                    j = j + 1;
                }
            } else {
                p = p + 1;
                proof {
                    let st1 = spec_strip_roman(takej1);
                    assert(st1.drop_last() =~= spec_strip_roman(orig.take(j)));
                    assert(st1.last() == orig[j]);
                    assert(self.freq@ =~= st1 + orig.skip(j + 1));
                    assert(p == st1.len());
                    assert forall|k: int|
                        1 <= k <= 3 implies (#[trigger] self.n_words@[k - 1]) as int == orig_n[k
                        - 1] - (spec_count_sum(takej1, k) - spec_count_sum(st1, k)) by {
                        assert(spec_count_sum(takej1, k) == spec_count_sum(orig.take(j), k)
                            + spec_count_contrib(orig[j], k));
                        assert(spec_count_sum(st1, k) == spec_count_sum(
                            spec_strip_roman(orig.take(j)),
                            k,
                        ) + spec_count_contrib(orig[j], k));
                    }
                    j = j + 1;
                }
            }
        }
        proof {
            assert(j == orig.len());
            assert(orig.take(j) =~= orig);
            assert(self.freq@ =~= spec_strip_roman(orig));
            assert forall|k: int|
                1 <= k <= 3 implies spec_count_sum(self.freq@, k) <= (
            #[trigger] self.n_words@[k - 1]) as int by {
                lemma_strip_count_le(orig, k);
            }
        }
    }

    /// Prunes the profile: first every gram whose count is at most the
    /// threshold (the 1-gram total divided by [`Self::LESS_FREQ_RATIO`], at
    /// least [`Self::MINIMUM_FREQ`]) is dropped; then, when the surviving
    /// single Latin letters amount to less than a third of the remaining
    /// 1-gram total, every gram holding a Latin letter is dropped too. The
    /// per-length totals shrink by exactly the dropped counts, so no total
    /// ever grows and no count is left short.
    pub fn omit_less_freq(&mut self)
        requires
            old(self).counts_bounded(),
        ensures
            final(self).name == old(self).name,
            old(self).name is None ==> *final(self) == *old(self),
            old(self).name is Some ==> ({
                let t = spec_omit_threshold(*old(self));
                let kept = spec_prune(old(self).freq@, t);
                let n1 = old(self).n_words@[0] - (spec_count_sum(old(self).freq@, 1)
                    - spec_count_sum(kept, 1));
                let strip = spec_roman_sum(kept) < n1 / 3;
                &&& final(self).freq@ == (if strip {
                    spec_strip_roman(kept)
                } else {
                    kept
                })
                &&& forall|k: int|
                    1 <= k <= 3 ==> (#[trigger] final(self).n_words@[k - 1]) as int == old(
                        self,
                    ).n_words@[k - 1] - (spec_count_sum(old(self).freq@, k) - spec_count_sum(
                        final(self).freq@,
                        k,
                    ))
            }),
            forall|k: int|
                0 <= k < 3 ==> (#[trigger] final(self).n_words@[k]) <= old(self).n_words@[k],
            final(self).counts_bounded(),
            old(self).wf() ==> final(self).wf(),
    {
        if self.name.is_none() {
            return;
        }
        let base = self.n_words[0] / 100000;
        let threshold = if base >= 2 {
            base
        } else {
            2
        };
        let roman = self.prune_rare_grams(threshold);
        let ghost kept = self.freq@;
        proof {
            lemma_count_sum_nonneg(old(self).freq@, 1);
            lemma_prune_count_le(old(self).freq@, threshold as int, 1);
        }
        if roman < self.n_words[0] / 3 {
            let ghost pass1 = *self;
            self.strip_roman_grams();
            proof {
                assert forall|k: int|
                    1 <= k <= 3 implies (#[trigger] self.n_words@[k - 1]) as int == old(
                    self,
                ).n_words@[k - 1] - (spec_count_sum(old(self).freq@, k) - spec_count_sum(
                    self.freq@,
                    k,
                )) by {
                    assert(pass1.n_words@[k - 1] as int == old(self).n_words@[k - 1] - (
                    spec_count_sum(old(self).freq@, k) - spec_count_sum(pass1.freq@, k)));
                }
            }
        }
        proof {
            assert forall|k: int|
                0 <= k < 3 implies (#[trigger] self.n_words@[k]) <= old(self).n_words@[k] by {
                lemma_prune_count_le(old(self).freq@, threshold as int, k + 1);
                lemma_strip_count_le(kept, k + 1);
            }
            if old(self).wf() {
                assert forall|k: int|
                    1 <= k <= 3 implies (#[trigger] self.n_words@[k - 1]) as int
                    == spec_count_sum(self.freq@, k) by {}
            }
        }
    }
}

/// Builder for a [`LangProfile`].
pub struct LangProfileBuilder {
    /// The profile under construction.
    pub profile: LangProfile,
}

impl LangProfileBuilder {
    /// Sets the language name.
    pub fn with_name(self, name: &str) -> (r: Self)
        ensures
            r.profile.name is Some,
            r.profile.name->0@ == name@,
            r.profile.freq == self.profile.freq,
            r.profile.n_words == self.profile.n_words,
    {
        let LangProfileBuilder { profile } = self;
        let LangProfile { name: _, freq, n_words } = profile;
        LangProfileBuilder {
            profile: LangProfile { name: Some(String::from_str(name)), freq, n_words },
        }
    }

    /// Sets the gram frequencies directly; each gram may appear only once.
    pub fn with_freq(self, freq: Vec<(Vec<char>, usize)>) -> (r: Self)
        requires
            unique_grams(freq@),
        ensures
            r.profile.freq == freq,
            r.profile.name == self.profile.name,
            r.profile.n_words == self.profile.n_words,
    {
        let LangProfileBuilder { profile } = self;
        let LangProfile { name, freq: _, n_words } = profile;
        LangProfileBuilder { profile: LangProfile { name, freq, n_words } }
    }

    /// Sets the per-length totals directly.
    pub fn with_n_words(self, n_words: [usize; 3]) -> (r: Self)
        ensures
            r.profile.n_words@ == seq![n_words[0], n_words[1], n_words[2]],
            r.profile.name == self.profile.name,
            r.profile.freq == self.profile.freq,
    {
        let LangProfileBuilder { profile } = self;
        let LangProfile { name, freq, n_words: _ } = profile;
        let mut v: Vec<usize> = Vec::new();
        v.push(n_words[0]);
        v.push(n_words[1]);
        v.push(n_words[2]);
        proof {
            assert(v@ =~= seq![n_words[0], n_words[1], n_words[2]]);
        }
        LangProfileBuilder { profile: LangProfile { name, freq, n_words: v } }
    }

    /// Hands out the configured profile.
    pub fn build(self) -> (r: LangProfile)
        ensures
            r == self.profile,
    {
        self.profile
    }
}

} // verus!
