//! The profile registry: language list and gram probability table, built by
//! merging language profiles one by one.

use vstd::prelude::*;
use crate::detector::{
    GramProb,
    spec_model_map,
    unique_model_grams,
    lemma_model_map_at,
    lemma_model_map_absent,
    lemma_model_map_remove_entry,
};
use crate::utils::chars::{copy_chars, str_eq};
use crate::utils::lang_profile::{LangProfile, LangProfileJson};

verus! {

/// Errors from assembling the profile set.
#[derive(Debug, Clone)]
pub enum DetectorFactoryError {
    /// A profile's language name is already registered.
    DuplicatedLanguage(String),
    /// Inference needs at least two language profiles.
    NotEnoughProfiles,
}

/// The language names a list of identifiers denotes.
pub open spec fn spec_lang_names(ll: Seq<String>) -> Seq<Seq<char>> {
    ll.map_values(|s: String| s@)
}

/// The all-zero probability vector a gram starts from.
pub open spec fn spec_zero_probs(langsize: int) -> Seq<GramProb> {
    Seq::new(langsize as nat, |i: int| GramProb { num: 0, den: 1 })
}

/// One profile entry merged into the table: the gram's vector (all-zero
/// when new) gets, for grams of one to three characters, the profile's
/// count over its total for that length at the profile's index.
pub open spec fn spec_merge_entry(
    mm: Map<Seq<char>, Seq<GramProb>>,
    g: Seq<char>,
    count: usize,
    index: int,
    langsize: int,
    n_words: Seq<usize>,
) -> Map<Seq<char>, Seq<GramProb>> {
    let base = if mm.contains_key(g) {
        mm[g]
    } else {
        spec_zero_probs(langsize)
    };
    if 1 <= g.len() <= 3 {
        mm.insert(g, base.update(index, GramProb { num: count, den: n_words[g.len() - 1] }))
    } else {
        mm.insert(g, base)
    }
}

/// A whole profile merged into the table, entry by entry in order.
pub open spec fn spec_merge_profile(
    mm: Map<Seq<char>, Seq<GramProb>>,
    entries: Seq<(Seq<char>, usize)>,
    index: int,
    langsize: int,
    n_words: Seq<usize>,
) -> Map<Seq<char>, Seq<GramProb>>
    decreases entries.len(),
{
    if entries.len() == 0 {
        mm
    } else {
        spec_merge_entry(
            spec_merge_profile(mm, entries.drop_last(), index, langsize, n_words),
            entries.last().0,
            entries.last().1,
            index,
            langsize,
            n_words,
        )
    }
}

/// The gram views of a profile's frequency entries.
pub open spec fn spec_freq_views(entries: Seq<(Vec<char>, usize)>) -> Seq<(Seq<char>, usize)> {
    entries.map_values(|e: (Vec<char>, usize)| (e.0@, e.1))
}

/// The registry of loaded language profiles: the probability table and the
/// language list, in loading order, plus the seed detectors inherit.
pub struct DetectorFactory {
    /// Gram to per-language probability vector; index `i` belongs to
    /// `langlist[i]`.
    pub word_lang_prob_map: Vec<(Vec<char>, Vec<GramProb>)>,
    /// The registered language identifiers, in loading order.
    pub langlist: Vec<String>,
    /// Seed handed to every detector the registry configures.
    pub seed: Option<u64>,
}

impl DetectorFactory {
    /// Unique grams, and every probability vector of the configured length.
    pub open spec fn model_wf(&self, langsize: int) -> bool {
        &&& unique_model_grams(self.word_lang_prob_map@)
        &&& forall|p: int|
            0 <= p < self.word_lang_prob_map@.len() ==> (
            #[trigger] self.word_lang_prob_map@[p]).1@.len() == langsize
    }

    /// A builder for an empty registry.
    pub fn new() -> (r: DetectorFactoryBuilder)
        ensures
            r.factory.word_lang_prob_map@.len() == 0,
            r.factory.langlist@.len() == 0,
            r.factory.seed is None,
    {
        DetectorFactoryBuilder {
            factory: DetectorFactory {
                word_lang_prob_map: Vec::new(),
                langlist: Vec::new(),
                seed: None,
            },
        }
    }

    /// Drops every loaded profile; the seed stays.
    pub fn clear(&mut self)
        ensures
            final(self).word_lang_prob_map@.len() == 0,
            final(self).langlist@.len() == 0,
            final(self).seed == old(self).seed,
    {
        self.langlist.clear();
        self.word_lang_prob_map.clear();
    }

    /// Fixes the seed detectors will use.
    pub fn set_seed(&mut self, seed: u64)
        ensures
            final(self).seed == Some(seed),
            final(self).word_lang_prob_map == old(self).word_lang_prob_map,
            final(self).langlist == old(self).langlist,
    {
        self.seed = Some(seed);
    }

    /// The registered language identifiers, in loading order.
    pub fn get_lang_list(&self) -> (r: Vec<String>)
        ensures
            r@.len() == self.langlist@.len(),
            forall|i: int| 0 <= i < r@.len() ==> (#[trigger] r@[i])@ == self.langlist@[i]@,
    {
        let mut r: Vec<String> = Vec::new();
        let mut i: usize = 0;
        while i < self.langlist.len()
            invariant
                i <= self.langlist@.len(),
                r@.len() == i,
                forall|k: int| 0 <= k < i ==> (#[trigger] r@[k])@ == self.langlist@[k]@,
            decreases self.langlist@.len() - i,
        {
            r.push(self.langlist[i].clone());
            i = i + 1;
        }
        r
    }

    /// Registers the profile's name and merges its frequencies into the
    /// table at the given language index, unconditionally.
    pub fn override_profile(&mut self, profile: LangProfile, index: usize, langsize: usize) -> (r:
        Result<(), DetectorFactoryError>)
        requires
            old(self).model_wf(langsize as int),
            profile.name is Some,
            profile.grams_ok(),
            index < langsize,
        ensures
            r is Ok,
            final(self).langlist@ == old(self).langlist@.push(profile.name->0),
            spec_model_map(final(self).word_lang_prob_map@) == spec_merge_profile(
                spec_model_map(old(self).word_lang_prob_map@),
                spec_freq_views(profile.freq@),
                index as int,
                langsize as int,
                profile.n_words@,
            ),
            final(self).model_wf(langsize as int),
            final(self).seed == old(self).seed,
    {
        let LangProfile { name, freq, n_words } = profile;
        let lang = name.unwrap();
        self.langlist.push(lang);
        let ghost mm0 = spec_model_map(old(self).word_lang_prob_map@);
        let ghost views = spec_freq_views(freq@);
        let mut j: usize = 0;
        proof {
            assert(views.take(0) =~= Seq::<(Seq<char>, usize)>::empty());
        }
        while j < freq.len()
            invariant
                j <= freq@.len(),
                views == spec_freq_views(freq@),
                mm0 == spec_model_map(old(self).word_lang_prob_map@),
                index < langsize,
                n_words@.len() == 3,
                self.langlist@ == old(self).langlist@.push(profile.name->0),
                self.seed == old(self).seed,
                self.model_wf(langsize as int),
                spec_model_map(self.word_lang_prob_map@) == spec_merge_profile(
                    mm0,
                    views.take(j as int),
                    index as int,
                    langsize as int,
                    n_words@,
                ),
            decreases freq@.len() - j,
        {
            let ghost mm_before = spec_model_map(self.word_lang_prob_map@);
            proof {
                assert(views.take(j + 1).drop_last() =~= views.take(j as int));
                assert(views.take(j + 1).last() == views[j as int]);
                assert(views[j as int] == (freq@[j as int].0@, freq@[j as int].1));
            }
            let g = &freq[j].0;
            let count = freq[j].1;
            let glen = g.len();
            let prob = if 1 <= glen && glen <= 3 {
                GramProb { num: count, den: n_words[glen - 1] }
            } else {
                GramProb { num: 0, den: 1 }
            };
            match model_find(&self.word_lang_prob_map, g) {
                None => {
                    proof {
                        lemma_model_map_absent(self.word_lang_prob_map@, g@);
                    }
                    let mut vec: Vec<GramProb> = zero_probs(langsize);
                    if 1 <= glen && glen <= 3 {
                        vec[index] = prob;
                        proof {
                            assert(vec@ =~= spec_zero_probs(langsize as int).update(
                                index as int,
                                GramProb { num: count, den: n_words@[glen - 1] },
                            ));
                        }
                    }
                    let gcopy = copy_chars(g);
                    let ghost before = self.word_lang_prob_map@;
                    self.word_lang_prob_map.push((gcopy, vec));
                    proof {
                        assert(self.word_lang_prob_map@.drop_last() =~= before);
                        assert(unique_model_grams(self.word_lang_prob_map@));
                        assert(spec_model_map(self.word_lang_prob_map@) =~= spec_merge_entry(
                            mm_before,
                            g@,
                            count,
                            index as int,
                            langsize as int,
                            n_words@,
                        ));
                    }
                },
                Some(pos) => {
                    proof {
                        lemma_model_map_at(self.word_lang_prob_map@, pos as int);
                        lemma_model_map_remove_entry(self.word_lang_prob_map@, pos as int);
                    }
                    let ghost before = self.word_lang_prob_map@;
                    let entry = self.word_lang_prob_map.remove(pos);
                    let gkeep = entry.0;
                    let mut vec = entry.1;
                    if 1 <= glen && glen <= 3 {
                        vec[index] = prob;
                        proof {
                            assert(vec@ =~= mm_before[g@].update(
                                index as int,
                                GramProb { num: count, den: n_words@[glen - 1] },
                            ));
                        }
                    }
                    let ghost mid = self.word_lang_prob_map@;
                    self.word_lang_prob_map.push((gkeep, vec));
                    proof {
                        assert(self.word_lang_prob_map@.drop_last() =~= mid);
                        assert(forall|p: int|
                            0 <= p < mid.len() ==> (#[trigger] mid[p]).0@ != g@);
                        assert(unique_model_grams(self.word_lang_prob_map@));
                        assert(spec_model_map(self.word_lang_prob_map@) =~= spec_merge_entry(
                            mm_before,
                            g@,
                            count,
                            index as int,
                            langsize as int,
                            n_words@,
                        ));
                    }
                },
            }
            j = j + 1;
        }
        proof {
            assert(views.take(j as int) =~= views);
        }
        Ok(())
    }
}

/// Whether the record at `i` can be loaded: its declared totals have the
/// right length and its name collides neither with the already-registered
/// names nor with an earlier record's.
pub open spec fn spec_record_ok(
    records: Seq<LangProfileJson>,
    names0: Seq<Seq<char>>,
    i: int,
) -> bool {
    &&& records[i].n_words@.len() == 3
    &&& !names0.contains(records[i].name@)
    &&& forall|p: int| 0 <= p < i ==> (#[trigger] records[p]).name@ != records[i].name@
}

/// Every record before `upto` can be loaded.
pub open spec fn spec_records_ok(
    records: Seq<LangProfileJson>,
    names0: Seq<Seq<char>>,
    upto: int,
) -> bool {
    forall|i: int| 0 <= i < upto ==> spec_record_ok(records, names0, i)
}

/// Index of the first record that cannot be loaded, or the record count
/// when all can.
pub open spec fn spec_first_bad(
    records: Seq<LangProfileJson>,
    names0: Seq<Seq<char>>,
    j: int,
) -> int
    decreases records.len() - j,
{
    if j < 0 || j >= records.len() {
        records.len() as int
    } else if !spec_record_ok(records, names0, j) {
        j
    } else {
        spec_first_bad(records, names0, j + 1)
    }
}

/// The first bad index is the end of the longest loadable prefix.
proof fn lemma_first_bad_from(
    records: Seq<LangProfileJson>,
    names0: Seq<Seq<char>>,
    j: int,
    k: int,
)
    requires
        0 <= j <= k <= records.len(),
        forall|i: int| j <= i < k ==> spec_record_ok(records, names0, i),
        k == records.len() || !spec_record_ok(records, names0, k),
    ensures
        spec_first_bad(records, names0, j) == k,
    decreases k - j,
{
    if j < k {
        lemma_first_bad_from(records, names0, j + 1, k);
    }
}

/// The names of a sequence of records, in order.
pub open spec fn spec_record_names(records: Seq<LangProfileJson>) -> Seq<Seq<char>> {
    records.map_values(|r: LangProfileJson| r.name@)
}

/// The gram views of a record's frequency entries.
pub open spec fn spec_record_freq_views(entries: Seq<(String, usize)>) -> Seq<(Seq<char>, usize)> {
    entries.map_values(|e: (String, usize)| (e.0@, e.1))
}

/// The table after the first `upto` records are merged, each at its
/// position's index.
pub open spec fn spec_load_model(
    mm: Map<Seq<char>, Seq<GramProb>>,
    records: Seq<LangProfileJson>,
    upto: int,
    langsize: int,
) -> Map<Seq<char>, Seq<GramProb>>
    decreases upto,
{
    if upto <= 0 {
        mm
    } else {
        spec_merge_profile(
            spec_load_model(mm, records, upto - 1, langsize),
            spec_record_freq_views(records[upto - 1].freq@),
            upto - 1,
            langsize,
            records[upto - 1].n_words@,
        )
    }
}

impl DetectorFactory {
    /// Registers a profile at the given index unless its name is already
    /// present; a duplicate is refused before anything changes.
    pub fn add_profile(&mut self, profile: LangProfile, index: usize, langsize: usize) -> (r:
        Result<(), DetectorFactoryError>)
        requires
            old(self).model_wf(langsize as int),
            profile.name is Some,
            profile.grams_ok(),
            index < langsize,
        ensures
            final(self).seed == old(self).seed,
            spec_lang_names(old(self).langlist@).contains(profile.name->0@) ==> ({
                &&& r is Err
                &&& (r->Err_0 matches DetectorFactoryError::DuplicatedLanguage(l) && l@
                    == profile.name->0@)
                &&& *final(self) == *old(self)
            }),
            !spec_lang_names(old(self).langlist@).contains(profile.name->0@) ==> ({
                &&& r is Ok
                &&& final(self).langlist@ == old(self).langlist@.push(profile.name->0)
                &&& spec_model_map(final(self).word_lang_prob_map@) == spec_merge_profile(
                    spec_model_map(old(self).word_lang_prob_map@),
                    spec_freq_views(profile.freq@),
                    index as int,
                    langsize as int,
                    profile.n_words@,
                )
                &&& final(self).model_wf(langsize as int)
            }),
    {
        let ghost names = spec_lang_names(old(self).langlist@);
        let mut i: usize = 0;
        while i < self.langlist.len()
            invariant
                i <= self.langlist@.len(),
                *self == *old(self),
                names == spec_lang_names(old(self).langlist@),
                profile.name is Some,
                forall|p: int| 0 <= p < i ==> (#[trigger] self.langlist@[p])@ != profile.name->0@,
            decreases self.langlist@.len() - i,
        {
            let dup = match &profile.name {
                Some(n) => str_eq(self.langlist[i].as_str(), n.as_str()),
                None => false,
            };
            if dup {
                proof {
                    assert(names[i as int] == profile.name->0@);
                    assert(names.contains(profile.name->0@));
                }
                let lang = match profile.name {
                    Some(n) => n,
                    None => String::new(),
                };
                return Err(DetectorFactoryError::DuplicatedLanguage(lang));
            }
            i = i + 1;
        }
        proof {
            assert forall|p: int| 0 <= p < names.len() implies names[p]
                != profile.name->0@ by {
                assert(names[p] == (self.langlist@[p])@);
            }
            assert(!names.contains(profile.name->0@));
        }
        self.override_profile(profile, index, langsize)
    }

    /// Unregisters a language: its name leaves the list and its slot leaves
    /// every probability vector long enough to have one. An absent name is
    /// reported as [`DetectorFactoryError::DuplicatedLanguage`].
    pub fn delete_profile(&mut self, lang: &str) -> (r: Result<(), DetectorFactoryError>)
        ensures
            final(self).seed == old(self).seed,
            !spec_lang_names(old(self).langlist@).contains(lang@) ==> ({
                &&& r is Err
                &&& (r->Err_0 matches DetectorFactoryError::DuplicatedLanguage(l) && l@ == lang@)
                &&& *final(self) == *old(self)
            }),
            spec_lang_names(old(self).langlist@).contains(lang@) ==> (r is Ok && exists|pos: int|
                {
                    &&& 0 <= pos < old(self).langlist@.len()
                    &&& (#[trigger] old(self).langlist@[pos])@ == lang@
                    &&& (forall|q: int| 0 <= q < pos ==> (#[trigger] old(self).langlist@[q])@ != lang@)
                    &&& final(self).langlist@ == old(self).langlist@.remove(pos)
                    &&& final(self).word_lang_prob_map@.len() == old(self).word_lang_prob_map@.len()
                    &&& forall|p: int|
                        0 <= p < old(self).word_lang_prob_map@.len() ==> {
                            let before = #[trigger] old(self).word_lang_prob_map@[p];
                            let after = final(self).word_lang_prob_map@[p];
                            &&& after.0@ == before.0@
                            &&& after.1@ == (if before.1@.len() > pos {
                                before.1@.remove(pos)
                            } else {
                                before.1@
                            })
                        }
                }),
    {
        let ghost names = spec_lang_names(old(self).langlist@);
        let mut i: usize = 0;
        let mut found: Option<usize> = None;
        while found.is_none() && i < self.langlist.len()
            invariant
                i <= self.langlist@.len(),
                *self == *old(self),
                names == spec_lang_names(old(self).langlist@),
                forall|p: int| 0 <= p < i ==> (#[trigger] self.langlist@[p])@ != lang@,
                found matches Some(pos) ==> pos == i && pos < self.langlist@.len()
                    && (self.langlist@[pos as int])@ == lang@,
            decreases self.langlist@.len() - i, (if found is None { 1int } else { 0 }),
        {
            if str_eq(self.langlist[i].as_str(), lang) {
                found = Some(i);
            } else {
                i = i + 1;
            }
        }
        match found {
            None => {
                proof {
                    assert forall|p: int| 0 <= p < names.len() implies names[p] != lang@ by {
                        assert(names[p] == (self.langlist@[p])@);
                    }
                    assert(!names.contains(lang@));
                }
                Err(DetectorFactoryError::DuplicatedLanguage(String::from_str(lang)))
            },
            Some(pos) => {
                proof {
                    assert(names[pos as int] == lang@);
                    assert(names.contains(lang@));
                }
                self.langlist.remove(pos);
                let mut updated: Vec<(Vec<char>, Vec<GramProb>)> = Vec::new();
                let mut p: usize = 0;
                while p < self.word_lang_prob_map.len()
                    invariant
                        p <= self.word_lang_prob_map@.len(),
                        self.word_lang_prob_map == old(self).word_lang_prob_map,
                        updated@.len() == p,
                        forall|q: int|
                            0 <= q < p ==> {
                                let before = #[trigger] old(self).word_lang_prob_map@[q];
                                let after = updated@[q];
                                &&& after.0@ == before.0@
                                &&& after.1@ == (if before.1@.len() > pos {
                                    before.1@.remove(pos as int)
                                } else {
                                    before.1@
                                })
                            },
                    decreases self.word_lang_prob_map@.len() - p,
                {
                    let g = copy_chars(&self.word_lang_prob_map[p].0);
                    let mut v = copy_probs(&self.word_lang_prob_map[p].1);
                    if v.len() > pos {
                        v.remove(pos);
                    }
                    updated.push((g, v));
                    p = p + 1;
                }
                self.word_lang_prob_map = updated;
                Ok(())
            },
        }
    }

    /// Loads a batch of profile records, each registered at its position's
    /// index: refused outright with fewer than two records; a record whose
    /// declared totals are not three long stops the load as
    /// [`DetectorFactoryError::NotEnoughProfiles`], a name collision as
    /// [`DetectorFactoryError::DuplicatedLanguage`], either leaving the
    /// records before it loaded.
    pub fn load_json_profile(&mut self, profiles: Vec<LangProfileJson>) -> (r: Result<
        (),
        DetectorFactoryError,
    >)
        requires
            forall|i: int| 0 <= i < profiles@.len() ==> (#[trigger] profiles@[i]).wf(),
            profiles@.len() >= 2 ==> old(self).model_wf(profiles@.len() as int),
        ensures
            final(self).seed == old(self).seed,
            profiles@.len() < 2 ==> ({
                &&& r is Err
                &&& r->Err_0 matches DetectorFactoryError::NotEnoughProfiles
                &&& *final(self) == *old(self)
            }),
            profiles@.len() >= 2 ==> ({
                let names0 = spec_lang_names(old(self).langlist@);
                let done = spec_first_bad(profiles@, names0, 0);
                &&& (r is Ok <==> done == profiles@.len())
                &&& spec_lang_names(final(self).langlist@) == names0 + spec_record_names(
                    profiles@.take(done),
                )
                &&& spec_model_map(final(self).word_lang_prob_map@) == spec_load_model(
                    spec_model_map(old(self).word_lang_prob_map@),
                    profiles@,
                    done,
                    profiles@.len() as int,
                )
                &&& (r is Err ==> done < profiles@.len() && (if profiles@[done].n_words@.len()
                    != 3 {
                    r->Err_0 matches DetectorFactoryError::NotEnoughProfiles
                } else {
                    r->Err_0 matches DetectorFactoryError::DuplicatedLanguage(l) && l@
                        == profiles@[done].name@
                }))
            }),
    {
        let langsize = profiles.len();
        if langsize < 2 {
            return Err(DetectorFactoryError::NotEnoughProfiles);
        }
        let ghost all = profiles@;
        let ghost names0 = spec_lang_names(old(self).langlist@);
        let ghost mm0 = spec_model_map(old(self).word_lang_prob_map@);
        let mut rest = profiles;
        let mut index: usize = 0;
        proof {
            assert(all.take(0) =~= Seq::<LangProfileJson>::empty());
            assert(spec_record_names(all.take(0)) =~= Seq::<Seq<char>>::empty());
            assert(spec_lang_names(self.langlist@) =~= names0 + spec_record_names(all.take(0)));
        }
        while index < langsize
            invariant
                all == profiles@,
                2 <= langsize == all.len(),
                index <= langsize,
                rest@ == all.skip(index as int),
                names0 == spec_lang_names(old(self).langlist@),
                mm0 == spec_model_map(old(self).word_lang_prob_map@),
                forall|i: int| 0 <= i < all.len() ==> (#[trigger] all[i]).wf(),
                self.seed == old(self).seed,
                self.model_wf(langsize as int),
                spec_records_ok(all, names0, index as int),
                spec_lang_names(self.langlist@) == names0 + spec_record_names(
                    all.take(index as int),
                ),
                spec_model_map(self.word_lang_prob_map@) == spec_load_model(
                    mm0,
                    all,
                    index as int,
                    langsize as int,
                ),
            decreases langsize - index,
        {
            proof {
                assert(rest@[0] == all[index as int]);
            }
            let record = rest.remove(0);
            let ghost rec = all[index as int];
            let profile = match LangProfile::from_json(record) {
                Ok(p) => p,
                Err(_) => {
                    proof {
                        assert(rec.n_words@.len() != 3);
                        assert(!spec_record_ok(all, names0, index as int));
                        lemma_first_bad_from(all, names0, 0, index as int);
                    }
                    return Err(DetectorFactoryError::NotEnoughProfiles);
                },
            };
            let ghost cur_names = spec_lang_names(self.langlist@);
            let res = self.add_profile(profile, index, langsize);
            match res {
                Ok(()) => {},
                Err(e) => {
                    proof {
                        assert(cur_names.contains(profile.name->0@));
                        assert(profile.name->0@ == rec.name@);
                        lemma_concat_contains(
                            names0,
                            spec_record_names(all.take(index as int)),
                            rec.name@,
                        );
                        if !names0.contains(rec.name@) {
                            let pn = spec_record_names(all.take(index as int));
                            assert(pn.contains(rec.name@));
                            let w = choose|w: int| 0 <= w < pn.len() && pn[w] == rec.name@;
                            assert(all.take(index as int)[w].name@ == rec.name@);
                            assert(all[w].name@ == rec.name@);
                        }
                        assert(!spec_record_ok(all, names0, index as int));
                        lemma_first_bad_from(all, names0, 0, index as int);
                    }
                    return Err(e);
                },
            }
            proof {
                assert(!cur_names.contains(profile.name->0@));
                lemma_concat_contains(
                    names0,
                    spec_record_names(all.take(index as int)),
                    rec.name@,
                );
                assert(!names0.contains(rec.name@));
                assert forall|p: int| 0 <= p < index as int implies (#[trigger] all[p]).name@
                    != rec.name@ by {
                    let pn = spec_record_names(all.take(index as int));
                    assert(pn[p] == all.take(index as int)[p].name@);
                    if all[p].name@ == rec.name@ {
                        assert(pn.contains(rec.name@));
                    }
                }
                assert(spec_record_ok(all, names0, index as int));
                assert(spec_freq_views(profile.freq@) =~= spec_record_freq_views(rec.freq@));
                assert(profile.n_words@ == rec.n_words@);
                assert(all.take(index + 1).drop_last() =~= all.take(index as int));
                assert(all.take(index + 1).last() == rec);
                assert(spec_record_names(all.take(index + 1)) =~= spec_record_names(
                    all.take(index as int),
                ).push(rec.name@));
                assert(spec_lang_names(self.langlist@) =~= cur_names.push(profile.name->0@));
                assert(cur_names.push(rec.name@) =~= names0 + spec_record_names(
                    all.take(index as int),
                ).push(rec.name@));
                assert(spec_lang_names(self.langlist@) =~= names0 + spec_record_names(
                    all.take(index + 1),
                ));
                assert(rest@ =~= all.skip(index + 1));
            }
            index = index + 1;
        }
        proof {
            assert(all.take(index as int) =~= all);
            lemma_first_bad_from(all, names0, 0, all.len() as int);
        }
        Ok(())
    }
}

/// Helper for [`lemma_model_vectors_sized`]: entry-level vector lengths
/// carry over to the map's values.
proof fn lemma_model_map_value_len(entries: Seq<(Vec<char>, Vec<GramProb>)>, langsize: int)
    requires
        forall|p: int| 0 <= p < entries.len() ==> (#[trigger] entries[p]).1@.len() == langsize,
    ensures
        forall|g: Seq<char>|
            spec_model_map(entries).contains_key(g) ==> (#[trigger] spec_model_map(entries)[g]).len()
                == langsize,
    decreases entries.len(),
{
    if entries.len() > 0 {
        assert(forall|p: int|
            0 <= p < entries.len() - 1 ==> (#[trigger] entries.drop_last()[p]) == entries[p]);
        lemma_model_map_value_len(entries.drop_last(), langsize);
        assert forall|g: Seq<char>| spec_model_map(entries).contains_key(g) implies (
        #[trigger] spec_model_map(entries)[g]).len() == langsize by {
            if g == entries.last().0@ {
                assert(entries[entries.len() - 1].1@.len() == langsize);
            } else {
                assert(spec_model_map(entries.drop_last()).contains_key(g));
                assert(spec_model_map(entries)[g] == spec_model_map(entries.drop_last())[g]);
            }
        }
    }
}

/// In a well-formed registry configured for `langsize` languages, every
/// probability vector stored in the table has length exactly `langsize`;
/// and every entry is a ratio of nonnegative integers, so no stored
/// probability is negative.
pub proof fn lemma_model_vectors_sized(f: DetectorFactory, langsize: int)
    requires
        f.model_wf(langsize),
    ensures
        forall|g: Seq<char>|
            spec_model_map(f.word_lang_prob_map@).contains_key(g) ==> (#[trigger] spec_model_map(
                f.word_lang_prob_map@,
            )[g]).len() == langsize,
{
    lemma_model_map_value_len(f.word_lang_prob_map@, langsize);
}

/// Membership in a concatenation is membership in either part.
proof fn lemma_concat_contains(a: Seq<Seq<char>>, b: Seq<Seq<char>>, x: Seq<char>)
    ensures
        (a + b).contains(x) <==> (a.contains(x) || b.contains(x)),
{
    let c = a + b;
    if c.contains(x) {
        let w = choose|w: int| 0 <= w < c.len() && c[w] == x;
        if w < a.len() {
            assert(a[w] == x);
        } else {
            assert(b[w - a.len()] == x);
        }
    }
    if a.contains(x) {
        let w = choose|w: int| 0 <= w < a.len() && a[w] == x;
        assert(c[w] == x);
    }
    if b.contains(x) {
        let w = choose|w: int| 0 <= w < b.len() && b[w] == x;
        assert(c[a.len() + w] == x);
    }
}

/// A fresh vector holding the same probability entries.
fn copy_probs(v: &Vec<GramProb>) -> (r: Vec<GramProb>)
    ensures
        r@ == v@,
{
    let mut r: Vec<GramProb> = Vec::new();
    let mut i: usize = 0;
    while i < v.len()
        invariant
            i <= v@.len(),
            r@ == v@.take(i as int),
        decreases v@.len() - i,
    {
        r.push(v[i]);
        i = i + 1;
        proof {
            assert(r@ =~= v@.take(i as int));
        }
    }
    proof {
        assert(r@ =~= v@);
    }
    r
}

/// Position of the gram among the model's entries, if stored.
fn model_find(entries: &Vec<(Vec<char>, Vec<GramProb>)>, g: &Vec<char>) -> (r: Option<usize>)
    ensures
        match r {
            Some(i) => i < entries@.len() && entries@[i as int].0@ == g@,
            None => forall|p: int|
                0 <= p < entries@.len() ==> (#[trigger] entries@[p]).0@ != g@,
        },
{
    let mut i: usize = 0;
    while i < entries.len()
        invariant
            i <= entries@.len(),
            forall|p: int| 0 <= p < i ==> (#[trigger] entries@[p]).0@ != g@,
        decreases entries@.len() - i,
    {
        if crate::utils::chars::chars_eq(&entries[i].0, g) {
            return Some(i);
        }
        i = i + 1;
    }
    None
}

/// A probability vector of the given length, all zero.
fn zero_probs(langsize: usize) -> (r: Vec<GramProb>)
    ensures
        r@ == spec_zero_probs(langsize as int),
{
    let mut r: Vec<GramProb> = Vec::new();
    let mut i: usize = 0;
    while i < langsize
        invariant
            i <= langsize,
            r@.len() == i,
            forall|k: int| 0 <= k < i ==> r@[k] == (GramProb { num: 0, den: 1 }),
        decreases langsize - i,
    {
        r.push(GramProb { num: 0, den: 1 });
        i = i + 1;
    }
    proof {
        assert(r@ =~= spec_zero_probs(langsize as int));
    }
    r
}

/// Builder for a [`DetectorFactory`].
pub struct DetectorFactoryBuilder {
    /// The registry under construction.
    pub factory: DetectorFactory,
}

impl DetectorFactoryBuilder {
    /// Sets the probability table directly.
    pub fn with_word_lang_prob_map(self, word_lang_prob_map: Vec<(Vec<char>, Vec<GramProb>)>) -> (
        r: Self)
        ensures
            r.factory.word_lang_prob_map == word_lang_prob_map,
            r.factory.langlist == self.factory.langlist,
            r.factory.seed == self.factory.seed,
    {
        let DetectorFactoryBuilder { factory } = self;
        let DetectorFactory { word_lang_prob_map: _, langlist, seed } = factory;
        DetectorFactoryBuilder { factory: DetectorFactory { word_lang_prob_map, langlist, seed } }
    }

    /// Sets the language list directly.
    pub fn with_langlist(self, langlist: Vec<String>) -> (r: Self)
        ensures
            r.factory.langlist == langlist,
            r.factory.word_lang_prob_map == self.factory.word_lang_prob_map,
            r.factory.seed == self.factory.seed,
    {
        let DetectorFactoryBuilder { factory } = self;
        let DetectorFactory { word_lang_prob_map, langlist: _, seed } = factory;
        DetectorFactoryBuilder { factory: DetectorFactory { word_lang_prob_map, langlist, seed } }
    }

    /// Sets the seed detectors will use.
    pub fn with_seed(self, seed: Option<u64>) -> (r: Self)
        ensures
            r.factory.seed == seed,
            r.factory.word_lang_prob_map == self.factory.word_lang_prob_map,
            r.factory.langlist == self.factory.langlist,
    {
        let DetectorFactoryBuilder { factory } = self;
        let DetectorFactory { word_lang_prob_map, langlist, seed: _ } = factory;
        DetectorFactoryBuilder { factory: DetectorFactory { word_lang_prob_map, langlist, seed } }
    }

    /// Hands out the configured registry.
    pub fn build(self) -> (r: DetectorFactory)
        ensures
            r == self.factory,
    {
        self.factory
    }
}

} // verus!
