//! The detector's text pipeline: text accumulation with URL/mail stripping
//! and whitespace collapsing, the script-cleaning pass, and feature
//! extraction against the gram probability table.

use vstd::prelude::*;
use crate::utils::chars::{chars_of, chars_eq, string_from_chars};
use crate::utils::ngram::{
    NGram,
    spec_normalize,
    spec_normalize_vi,
    spec_window_after,
    spec_capital_after_add,
};

verus! {

/// Errors from language detection.
#[derive(Debug, Clone, PartialEq, Eq, Structural)]
pub enum DetectorError {
    /// The accumulated text yielded no usable gram.
    NoFeatures,
}

/// One per-language probability, kept exact as a ratio: the gram's count in
/// that language's profile over the profile's total for the gram's length.
#[derive(Debug, Clone, Copy, PartialEq, Eq, Structural)]
pub struct GramProb {
    /// The gram's count in the language's profile.
    pub num: usize,
    /// The profile's total gram count for the gram's length.
    pub den: usize,
}

/// The gram-to-probability-vector map the model entries denote.
pub open spec fn spec_model_map(entries: Seq<(Vec<char>, Vec<GramProb>)>) -> Map<
    Seq<char>,
    Seq<GramProb>,
>
    decreases entries.len(),
{
    if entries.len() == 0 {
        Map::empty()
    } else {
        spec_model_map(entries.drop_last()).insert(entries.last().0@, entries.last().1@)
    }
}

/// A gram stored at some entry is in the map.
pub proof fn lemma_model_map_present(entries: Seq<(Vec<char>, Vec<GramProb>)>, i: int)
    requires
        0 <= i < entries.len(),
    ensures
        spec_model_map(entries).contains_key(entries[i].0@),
    decreases entries.len(),
{
    if i < entries.len() - 1 {
        assert(forall|p: int|
            0 <= p < entries.len() - 1 ==> (#[trigger] entries.drop_last()[p]) == entries[p]);
        lemma_model_map_present(entries.drop_last(), i);
    }
}

/// A gram stored at no entry is not in the map.
pub proof fn lemma_model_map_absent(entries: Seq<(Vec<char>, Vec<GramProb>)>, g: Seq<char>)
    requires
        forall|p: int| 0 <= p < entries.len() ==> (#[trigger] entries[p]).0@ != g,
    ensures
        !spec_model_map(entries).contains_key(g),
    decreases entries.len(),
{
    if entries.len() > 0 {
        assert(forall|p: int|
            0 <= p < entries.len() - 1 ==> (#[trigger] entries.drop_last()[p]) == entries[p]);
        lemma_model_map_absent(entries.drop_last(), g);
    }
}

/// No gram occurs twice among the model's entries.
pub open spec fn unique_model_grams(entries: Seq<(Vec<char>, Vec<GramProb>)>) -> bool {
    forall|p: int, q: int|
        0 <= p < q < entries.len() ==> (#[trigger] entries[p]).0@ != (#[trigger] entries[q]).0@
}

/// With unique grams, the map's value at an entry's gram is that entry's
/// vector.
pub proof fn lemma_model_map_at(entries: Seq<(Vec<char>, Vec<GramProb>)>, i: int)
    requires
        unique_model_grams(entries),
        0 <= i < entries.len(),
    ensures
        spec_model_map(entries).contains_key(entries[i].0@),
        spec_model_map(entries)[entries[i].0@] == entries[i].1@,
    decreases entries.len(),
{
    if i < entries.len() - 1 {
        assert(forall|p: int|
            0 <= p < entries.len() - 1 ==> (#[trigger] entries.drop_last()[p]) == entries[p]);
        lemma_model_map_at(entries.drop_last(), i);
        assert(entries[i].0@ != entries.last().0@);
    }
}

/// Removing an entry removes exactly its gram from the map.
pub proof fn lemma_model_map_remove_entry(entries: Seq<(Vec<char>, Vec<GramProb>)>, i: int)
    requires
        unique_model_grams(entries),
        0 <= i < entries.len(),
    ensures
        spec_model_map(entries.remove(i)) =~= spec_model_map(entries).remove(entries[i].0@),
        unique_model_grams(entries.remove(i)),
        forall|p: int|
            0 <= p < entries.remove(i).len() ==> (#[trigger] entries.remove(i)[p]).0@
                != entries[i].0@,
    decreases entries.len(),
{
    let r = entries.remove(i);
    assert(forall|p: int| 0 <= p < i ==> r[p] == entries[p]);
    assert(forall|p: int| i <= p < r.len() ==> r[p] == entries[p + 1]);
    if i == entries.len() - 1 {
        assert(r =~= entries.drop_last());
        lemma_model_map_absent(entries.drop_last(), entries[i].0@);
    } else {
        let d = entries.drop_last();
        assert(forall|p: int| 0 <= p < d.len() ==> (#[trigger] d[p]) == entries[p]);
        lemma_model_map_remove_entry(d, i);
        assert(r.drop_last() =~= d.remove(i));
        assert(r.last() == entries.last());
        assert(entries[i].0@ != entries.last().0@);
    }
}

/// The pattern that finds URL-like substrings.
pub open spec fn spec_url_pattern() -> Seq<char> {
    "https?://[-_.?&~;+=/#0-9A-Za-z]{1,2076}"@
}

fn url_pattern_str() -> (r: &'static str)
    ensures
        r@ == spec_url_pattern(),
{
    "https?://[-_.?&~;+=/#0-9A-Za-z]{1,2076}"
}

/// The pattern that finds mail-address-like substrings.
pub open spec fn spec_mail_pattern() -> Seq<char> {
    "[-_.0-9A-Za-z]{1,64}@[-_0-9A-Za-z]{1,255}[-_.0-9A-Za-z]{1,255}"@
}

fn mail_pattern_str() -> (r: &'static str)
    ensures
        r@ == spec_mail_pattern(),
{
    "[-_.0-9A-Za-z]{1,64}@[-_0-9A-Za-z]{1,255}[-_.0-9A-Za-z]{1,255}"
}

/// The text with every match of the pattern replaced by one space, as the
/// regex engine computes it; a function of the pattern and the text alone.
pub uninterp spec fn replaced_of(pattern: Seq<char>, text: Seq<char>) -> Seq<char>;

/// Relies on regex::Regex::replace_all (with the pattern compiled by
/// regex::Regex::new): every match of the pattern is replaced by one space,
/// and the result depends on the pattern and the text alone. A pattern the
/// compiler refuses leaves the text unchanged.
#[verifier::external_body]
fn replace_matches_with_space(pattern: &str, text: &str) -> (r: String)
    ensures
        r@ == replaced_of(pattern@, text@),
{
    match regex::Regex::new(pattern) {
        Ok(re) => re.replace_all(text, " ").into_owned(),
        Err(_) => text.to_string(),
    }
}

/// The text with runs of spaces collapsed: a character is kept unless both
/// it and the character before it (in the input) are spaces.
pub open spec fn spec_collapse(s: Seq<char>, pre: char) -> Seq<char>
    decreases s.len(),
{
    if s.len() == 0 {
        Seq::empty()
    } else {
        (if s[0] != ' ' || pre != ' ' {
            seq![s[0]]
        } else {
            Seq::empty()
        }) + spec_collapse(s.skip(1), s[0])
    }
}

/// What one append call adds to the buffer: URL-like and mail-like
/// substrings become spaces, Vietnamese vowels are precomposed, the text is
/// cut to the length bound, and space runs collapse.
pub open spec fn spec_append_delta(text: Seq<char>, max_len: int) -> Seq<char> {
    let stripped = replaced_of(spec_mail_pattern(), replaced_of(spec_url_pattern(), text));
    let vi = spec_normalize_vi(stripped);
    let taken = if vi.len() <= max_len {
        vi
    } else {
        vi.take(max_len)
    };
    spec_collapse(taken, ' ')
}

/// Whether the cleaning pass counts the character as a Latin letter: an
/// unaccented ASCII letter of either case.
pub open spec fn spec_is_latin_letter(c: char) -> bool {
    ('A' <= c && c <= 'Z') || ('a' <= c && c <= 'z')
}

/// Whether the cleaning pass counts the character as non-Latin: at or above
/// the combining marks and outside the Latin Extended Additional block.
pub open spec fn spec_is_nonlatin(c: char) -> bool {
    c >= '\u{0300}' && !('\u{1E00}' <= c && c <= '\u{1EFF}')
}

/// How many characters of the text the cleaning pass counts as Latin.
pub open spec fn spec_latin_count(s: Seq<char>) -> int
    decreases s.len(),
{
    if s.len() == 0 {
        0
    } else {
        spec_latin_count(s.drop_last()) + (if spec_is_latin_letter(s.last()) {
            1int
        } else {
            0
        })
    }
}

/// How many characters of the text the cleaning pass counts as non-Latin.
pub open spec fn spec_nonlatin_count(s: Seq<char>) -> int
    decreases s.len(),
{
    if s.len() == 0 {
        0
    } else {
        spec_nonlatin_count(s.drop_last()) + (if spec_is_nonlatin(s.last()) {
            1int
        } else {
            0
        })
    }
}

/// The text with every Latin letter dropped.
pub open spec fn spec_without_latin(s: Seq<char>) -> Seq<char>
    decreases s.len(),
{
    if s.len() == 0 {
        Seq::empty()
    } else {
        spec_without_latin(s.drop_last()) + (if !spec_is_latin_letter(s.last()) {
            seq![s.last()]
        } else {
            Seq::empty()
        })
    }
}

/// The cleaning pass's result: when Latin letters are outnumbered two to one
/// by non-Latin characters, every Latin letter is dropped.
pub open spec fn spec_cleaned(s: Seq<char>) -> Seq<char> {
    if 2 * spec_latin_count(s) < spec_nonlatin_count(s) {
        spec_without_latin(s)
    } else {
        s
    }
}

/// The last `n` characters of the window, or all of them when it holds
/// fewer.
pub open spec fn spec_last_chars(w: Seq<char>, n: int) -> Seq<char> {
    if w.len() <= n {
        w
    } else {
        w.subrange(w.len() - n, w.len() as int)
    }
}

/// The candidate gram of length `n` at the current window: the last `n`
/// characters, kept when non-empty, not the lone sentinel space, and present
/// in the model.
pub open spec fn spec_candidate(
    model: Map<Seq<char>, Seq<GramProb>>,
    w: Seq<char>,
    n: int,
) -> Seq<Seq<char>> {
    let g = spec_last_chars(w, n);
    if g.len() > 0 && g != seq![' '] && model.contains_key(g) {
        seq![g]
    } else {
        Seq::empty()
    }
}

/// The grams collected at one window position: none during a capitalized
/// run; otherwise the candidates of lengths one to three, each length only
/// while the window holds that many characters.
pub open spec fn spec_collect_at(
    model: Map<Seq<char>, Seq<GramProb>>,
    w: Seq<char>,
    cap: bool,
) -> Seq<Seq<char>> {
    if cap {
        Seq::empty()
    } else {
        (if w.len() >= 1 {
            spec_candidate(model, w, 1)
        } else {
            Seq::empty()
        }) + (if w.len() >= 2 {
            spec_candidate(model, w, 2)
        } else {
            Seq::empty()
        }) + (if w.len() >= 3 {
            spec_candidate(model, w, 3)
        } else {
            Seq::empty()
        })
    }
}

/// The feature stream of a text: every gram the window offers while the text
/// runs through it, in order.
pub open spec fn spec_extract(
    model: Map<Seq<char>, Seq<GramProb>>,
    w: Seq<char>,
    cap: bool,
    s: Seq<char>,
) -> Seq<Seq<char>>
    decreases s.len(),
{
    if s.len() == 0 {
        Seq::empty()
    } else {
        let ch = spec_normalize(s[0]);
        let w2 = spec_window_after(w, ch);
        let c2 = spec_capital_after_add(w, cap, ch);
        spec_collect_at(model, w2, c2) + spec_extract(model, w2, c2, s.skip(1))
    }
}

/// The features a detector draws from its accumulated text after cleaning.
pub open spec fn spec_features(d: Detector) -> Seq<Seq<char>> {
    spec_extract(
        spec_model_map(d.word_lang_prob_map@),
        seq![' '],
        false,
        spec_cleaned(d.text@),
    )
}

/// Two detectors over the same probability table and the same accumulated
/// text draw exactly the same feature stream; the randomized trial loop that
/// consumes the stream is the only source of variation between detection
/// runs.
pub proof fn lemma_features_deterministic(a: Detector, b: Detector)
    requires
        spec_model_map(a.word_lang_prob_map@) == spec_model_map(b.word_lang_prob_map@),
        a.text@ == b.text@,
    ensures
        spec_features(a) == spec_features(b),
{
}

/// The language detection engine's verified state: the gram probability
/// table, the candidate languages, the accumulated text, and the run
/// parameters. The randomized trial loop that turns the features into a
/// probability vector consumes this state elsewhere; everything up to the
/// feature stream is computed here.
pub struct Detector {
    /// Gram to per-language probability vector; index `i` belongs to
    /// `langlist[i]`.
    pub word_lang_prob_map: Vec<(Vec<char>, Vec<GramProb>)>,
    /// The candidate language identifiers.
    pub langlist: Vec<String>,
    /// Seed for reproducible randomization.
    pub seed: Option<u64>,
    /// The accumulated, preprocessed text.
    pub text: Vec<char>,
    /// How many randomized trials a detection run averages.
    pub n_trial: usize,
    /// Upper bound on the preprocessed length one append contributes.
    pub max_text_length: usize,
}

impl Detector {
    /// A fresh detector over the given probability table and languages.
    pub fn new(
        word_lang_prob_map: Vec<(Vec<char>, Vec<GramProb>)>,
        langlist: Vec<String>,
        seed: Option<u64>,
    ) -> (r: Detector)
        ensures
            r.word_lang_prob_map == word_lang_prob_map,
            r.langlist == langlist,
            r.seed == seed,
            r.text@ == Seq::<char>::empty(),
            r.n_trial == 7,
            r.max_text_length == 10000,
    {
        Detector {
            word_lang_prob_map,
            langlist,
            seed,
            text: Vec::new(),
            n_trial: 7,
            max_text_length: 10000,
        }
    }

    /// Appends text: URL-like and mail-like substrings become spaces,
    /// Vietnamese vowels are precomposed, the text is cut to the length
    /// bound, and runs of spaces collapse to one.
    pub fn append(&mut self, text: &str)
        ensures
            final(self).text@ == old(self).text@ + spec_append_delta(
                text@,
                old(self).max_text_length as int,
            ),
            final(self).word_lang_prob_map == old(self).word_lang_prob_map,
            final(self).langlist == old(self).langlist,
            final(self).seed == old(self).seed,
            final(self).n_trial == old(self).n_trial,
            final(self).max_text_length == old(self).max_text_length,
    {
        let stripped_urls = replace_matches_with_space(url_pattern_str(), text);
        let stripped = replace_matches_with_space(mail_pattern_str(), stripped_urls.as_str());
        let vi = NGram::normalize_vi(stripped.as_str());
        let cs = chars_of(vi.as_str());
        let limit: usize = if cs.len() <= self.max_text_length {
            cs.len()
        } else {
            self.max_text_length
        };
        let ghost taken = if cs@.len() <= old(self).max_text_length as int {
            cs@
        } else {
            cs@.take(old(self).max_text_length as int)
        };
        proof {
            assert(taken =~= cs@.take(limit as int));
        }
        let mut pre: char = ' ';
        let mut i: usize = 0;
        proof {
            assert(cs@.take(limit as int).skip(0) =~= cs@.take(limit as int));
            assert(old(self).text@ + spec_collapse(taken, ' ') =~= self.text@ + spec_collapse(
                cs@.take(limit as int).skip(0),
                ' ',
            ));
        }
        while i < limit
            invariant
                i <= limit <= cs@.len(),
                taken == cs@.take(limit as int),
                self.word_lang_prob_map == old(self).word_lang_prob_map,
                self.langlist == old(self).langlist,
                self.seed == old(self).seed,
                self.n_trial == old(self).n_trial,
                self.max_text_length == old(self).max_text_length,
                old(self).text@ + spec_collapse(taken, ' ') == self.text@ + spec_collapse(
                    taken.skip(i as int),
                    pre,
                ),
            decreases limit - i,
        {
            let ghost tail = taken.skip(i as int);
            let ghost pre_old = pre;
            proof {
                assert(tail[0] == taken[i as int]);
                assert(taken[i as int] == cs@[i as int]);
            }
            let ch = cs[i];
            if ch != ' ' || pre != ' ' {
                self.text.push(ch);
            }
            pre = ch;
            i = i + 1;
            proof {
                assert(taken.skip(i as int) =~= tail.skip(1));
                assert(spec_collapse(tail, pre_old) == (if tail[0] != ' ' || pre_old != ' ' {
                    seq![tail[0]]
                } else {
                    Seq::<char>::empty()
                }) + spec_collapse(tail.skip(1), tail[0]));
            }
        }
        proof {
            assert(taken.skip(i as int) =~= Seq::<char>::empty());
            assert(self.text@ =~= old(self).text@ + spec_append_delta(
                text@,
                old(self).max_text_length as int,
            ));
        }
    }

    /// The cleaning pass: when Latin letters are outnumbered two to one by
    /// non-Latin characters, every Latin letter leaves the buffer.
    pub fn cleaning_text(&mut self)
        ensures
            final(self).text@ == spec_cleaned(old(self).text@),
            final(self).word_lang_prob_map == old(self).word_lang_prob_map,
            final(self).langlist == old(self).langlist,
            final(self).seed == old(self).seed,
            final(self).n_trial == old(self).n_trial,
            final(self).max_text_length == old(self).max_text_length,
    {
        let ghost whole = self.text@;
        let mut latin: usize = 0;
        let mut nonlatin: usize = 0;
        let mut i: usize = 0;
        proof {
            assert(whole.take(0) =~= Seq::<char>::empty());
        }
        while i < self.text.len()
            invariant
                i <= self.text@.len(),
                whole == self.text@,
                latin as int == spec_latin_count(whole.take(i as int)),
                nonlatin as int == spec_nonlatin_count(whole.take(i as int)),
                latin <= i,
                nonlatin <= i,
            decreases self.text@.len() - i,
        {
            let c = self.text[i];
            proof {
                assert(whole.take(i + 1).drop_last() =~= whole.take(i as int));
                assert(whole.take(i + 1).last() == whole[i as int]);
                lemma_latin_count_bounds(whole.take(i as int));
            }
            if ('A' <= c && c <= 'Z') || ('a' <= c && c <= 'z') {
                latin = latin + 1;
            } else if c >= '\u{0300}' && !('\u{1E00}' <= c && c <= '\u{1EFF}') {
                nonlatin = nonlatin + 1;
            }
            i = i + 1;
        }
        proof {
            assert(whole.take(i as int) =~= whole);
        }
        let strip = latin < nonlatin - nonlatin / 2;
        proof {
            assert(strip == (2 * spec_latin_count(whole) < spec_nonlatin_count(whole)))
                by (nonlinear_arith)
                requires
                    latin as int == spec_latin_count(whole),
                    nonlatin as int == spec_nonlatin_count(whole),
                    strip == (latin < nonlatin - nonlatin / 2),
                    latin >= 0,
                    nonlatin >= 0,
            ;
        }
        if strip {
            let mut kept: Vec<char> = Vec::new();
            let mut p: usize = 0;
            proof {
                assert(kept@ =~= spec_without_latin(whole.take(0)));
            }
            while p < self.text.len()
                invariant
                    p <= self.text@.len(),
                    whole == self.text@,
                    kept@ == spec_without_latin(whole.take(p as int)),
                decreases self.text@.len() - p,
            {
                let c = self.text[p];
                proof {
                    assert(whole.take(p + 1).drop_last() =~= whole.take(p as int));
                    assert(whole.take(p + 1).last() == whole[p as int]);
                }
                if !(('A' <= c && c <= 'Z') || ('a' <= c && c <= 'z')) {
                    kept.push(c);
                }
                p = p + 1;
            }
            proof {
                assert(whole.take(p as int) =~= whole);
            }
            self.text = kept;
        }
    }
}

/// The Latin and non-Latin counts never exceed the text's length.
proof fn lemma_latin_count_bounds(s: Seq<char>)
    ensures
        0 <= spec_latin_count(s) <= s.len(),
        0 <= spec_nonlatin_count(s) <= s.len(),
    decreases s.len(),
{
    if s.len() > 0 {
        lemma_latin_count_bounds(s.drop_last());
    }
}

/// The last `n` characters of the window, or all of them when it holds
/// fewer.
fn last_chars(w: &Vec<char>, n: usize) -> (r: Vec<char>)
    requires
        n >= 1,
    ensures
        r@ == spec_last_chars(w@, n as int),
{
    let start: usize = if w.len() > n {
        w.len() - n
    } else {
        0
    };
    let mut r: Vec<char> = Vec::new();
    let mut i: usize = start;
    proof {
        assert(r@ =~= w@.subrange(start as int, start as int));
    }
    while i < w.len()
        invariant
            start <= i <= w@.len(),
            r@ == w@.subrange(start as int, i as int),
        decreases w@.len() - i,
    {
        r.push(w[i]);
        i = i + 1;
        proof {
            assert(r@ =~= w@.subrange(start as int, i as int));
        }
    }
    proof {
        assert(r@ =~= spec_last_chars(w@, n as int));
    }
    r
}

/// Whether the model stores a probability vector for the gram.
fn model_contains(entries: &Vec<(Vec<char>, Vec<GramProb>)>, g: &Vec<char>) -> (r: bool)
    ensures
        r == spec_model_map(entries@).contains_key(g@),
{
    let mut i: usize = 0;
    while i < entries.len()
        invariant
            i <= entries@.len(),
            forall|p: int| 0 <= p < i ==> (#[trigger] entries@[p]).0@ != g@,
        decreases entries@.len() - i,
    {
        if chars_eq(&entries[i].0, g) {
            proof {
                lemma_model_map_present(entries@, i as int);
            }
            return true;
        }
        i = i + 1;
    }
    proof {
        lemma_model_map_absent(entries@, g@);
    }
    false
}

/// Appends the candidate gram of length `n` at the current window, when the
/// window offers one that the model knows.
fn push_candidate(
    entries: &Vec<(Vec<char>, Vec<GramProb>)>,
    w: &Vec<char>,
    n: usize,
    result: &mut Vec<String>,
)
    requires
        n >= 1,
    ensures
        final(result)@.map_values(|s: String| s@) == old(result)@.map_values(|s: String| s@)
            + spec_candidate(spec_model_map(entries@), w@, n as int),
{
    let ghost pre = result@.map_values(|s: String| s@);
    let g = last_chars(w, n);
    let lone_space = g.len() == 1 && g[0] == ' ';
    proof {
        if lone_space {
            assert(g@ =~= seq![' ']);
        } else if g@.len() == 1 {
            assert(g@ != seq![' ']);
        } else {
            assert(g@.len() != 1);
            assert(g@ != seq![' ']);
        }
    }
    if g.len() > 0 && !lone_space && model_contains(entries, &g) {
        let s = string_from_chars(&g);
        result.push(s);
        proof {
            assert(result@.drop_last() =~= old(result)@);
            assert(result@.map_values(|s: String| s@) =~= pre + seq![g@]);
        }
    } else {
        proof {
            assert(result@.map_values(|s: String| s@) =~= pre);
        }
    }
}

impl Detector {
    /// The feature stream of the accumulated text: every gram the window
    /// offers that the model knows, in scan order.
    pub fn extract_ngrams(&self) -> (r: Vec<String>)
        ensures
            r@.map_values(|s: String| s@) == spec_extract(
                spec_model_map(self.word_lang_prob_map@),
                seq![' '],
                false,
                self.text@,
            ),
    {
        let ghost model = spec_model_map(self.word_lang_prob_map@);
        let ghost goal = spec_extract(model, seq![' '], false, self.text@);
        let mut result: Vec<String> = Vec::new();
        let mut ngram = NGram::new();
        let mut i: usize = 0;
        proof {
            assert(self.text@.skip(0) =~= self.text@);
            assert(result@.map_values(|s: String| s@) =~= Seq::<Seq<char>>::empty());
            assert(Seq::<Seq<char>>::empty() + goal =~= goal);
        }
        while i < self.text.len()
            invariant
                i <= self.text@.len(),
                model == spec_model_map(self.word_lang_prob_map@),
                goal == spec_extract(model, seq![' '], false, self.text@),
                1 <= ngram.grams@.len() <= 3,
                result@.map_values(|s: String| s@) + spec_extract(
                    model,
                    ngram.grams@,
                    ngram.capitalword,
                    self.text@.skip(i as int),
                ) == goal,
            decreases self.text@.len() - i,
        {
            let ghost w_old = ngram.grams@;
            let ghost cap_old = ngram.capitalword;
            let ghost tail = self.text@.skip(i as int);
            let ghost pre = result@.map_values(|s: String| s@);
            proof {
                assert(tail[0] == self.text@[i as int]);
            }
            ngram.add_char(self.text[i]);
            let ghost here = spec_collect_at(model, ngram.grams@, ngram.capitalword);
            if !ngram.capitalword {
                let held = ngram.grams.len();
                if held >= 1 {
                    push_candidate(&self.word_lang_prob_map, &ngram.grams, 1, &mut result);
                }
                if held >= 2 {
                    push_candidate(&self.word_lang_prob_map, &ngram.grams, 2, &mut result);
                }
                if held >= 3 {
                    push_candidate(&self.word_lang_prob_map, &ngram.grams, 3, &mut result);
                }
                proof {
                    assert(result@.map_values(|s: String| s@) =~= pre + here);
                }
            } else {
                proof {
                    assert(result@.map_values(|s: String| s@) =~= pre + here);
                }
            }
            i = i + 1;
            proof {
                assert(self.text@.skip(i as int) =~= tail.skip(1));
                assert(spec_extract(model, w_old, cap_old, tail) == here + spec_extract(
                    model,
                    ngram.grams@,
                    ngram.capitalword,
                    self.text@.skip(i as int),
                ));
                assert(result@.map_values(|s: String| s@) + spec_extract(
                    model,
                    ngram.grams@,
                    ngram.capitalword,
                    self.text@.skip(i as int),
                ) =~= pre + spec_extract(model, w_old, cap_old, tail));
            }
        }
        proof {
            assert(self.text@.skip(i as int) =~= Seq::<char>::empty());
            assert(result@.map_values(|s: String| s@) =~= goal);
        }
        result
    }

    /// Runs the cleaning pass, then extracts the feature stream; an empty
    /// stream is the `NoFeatures` error, never a default answer.
    pub fn detect_features(&mut self) -> (r: Result<Vec<String>, DetectorError>)
        ensures
            final(self).text@ == spec_cleaned(old(self).text@),
            final(self).word_lang_prob_map == old(self).word_lang_prob_map,
            final(self).langlist == old(self).langlist,
            final(self).seed == old(self).seed,
            final(self).n_trial == old(self).n_trial,
            final(self).max_text_length == old(self).max_text_length,
            r is Ok <==> spec_features(*old(self)).len() > 0,
            r is Ok ==> r->Ok_0@.map_values(|s: String| s@) == spec_features(*old(self)),
            r is Err ==> r->Err_0 == DetectorError::NoFeatures,
    {
        self.cleaning_text();
        let ngrams = self.extract_ngrams();
        if ngrams.len() == 0 {
            proof {
                assert(spec_features(*old(self)).len() == 0);
            }
            Err(DetectorError::NoFeatures)
        } else {
            Ok(ngrams)
        }
    }
}

} // verus!
