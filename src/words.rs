//! Word frequency: whitespace tokenising, normalising each token, and a
//! table from normalised word to its number of occurrences.

use vstd::prelude::*;
use crate::chars::{alnum, chars_of, is_alnum, is_ws, lower_of, lowercase, string_of, whitespace};

verus! {

/// Scanning `s` from the left: the tokens finished so far and the token in
/// progress. White space ends a token; runs of it yield no empty tokens.
pub open spec fn scan(s: Seq<char>) -> (Seq<Seq<char>>, Seq<char>)
    decreases s.len(),
{
    if s.len() == 0 {
        (Seq::empty(), Seq::empty())
    } else {
        let prev = scan(s.drop_last());
        if is_ws(s.last()) {
            if prev.1.len() > 0 {
                (prev.0.push(prev.1), Seq::empty())
            } else {
                (prev.0, Seq::empty())
            }
        } else {
            (prev.0, prev.1.push(s.last()))
        }
    }
}

/// The maximal runs of non-white-space characters of `s`, in order.
pub open spec fn tokens(s: Seq<char>) -> Seq<Seq<char>> {
    let st = scan(s);
    if st.1.len() > 0 {
        st.0.push(st.1)
    } else {
        st.0
    }
}

/// `s` without its leading non-alphanumeric characters.
pub open spec fn trim_start(s: Seq<char>) -> Seq<char>
    decreases s.len(),
{
    if s.len() > 0 && !is_alnum(s[0]) {
        trim_start(s.drop_first())
    } else {
        s
    }
}

/// `s` without its trailing non-alphanumeric characters.
pub open spec fn trim_end(s: Seq<char>) -> Seq<char>
    decreases s.len(),
{
    if s.len() > 0 && !is_alnum(s.last()) {
        trim_end(s.drop_last())
    } else {
        s
    }
}

/// A token lower-cased, then stripped of non-alphanumeric characters at both
/// ends; interior characters are kept.
pub open spec fn normal(t: Seq<char>) -> Seq<char> {
    trim_end(trim_start(lower_of(t)))
}

/// The normalised tokens that are not empty, in order.
pub open spec fn kept(toks: Seq<Seq<char>>) -> Seq<Seq<char>>
    decreases toks.len(),
{
    if toks.len() == 0 {
        Seq::empty()
    } else if normal(toks.last()).len() > 0 {
        kept(toks.drop_last()).push(normal(toks.last()))
    } else {
        kept(toks.drop_last())
    }
}

/// The words of a text that the frequency table counts.
pub open spec fn words(s: Seq<char>) -> Seq<Seq<char>> {
    kept(tokens(s))
}

/// How many times `w` occurs in `ws`.
pub open spec fn occurrences(ws: Seq<Seq<char>>, w: Seq<char>) -> nat
    decreases ws.len(),
{
    if ws.len() == 0 {
        0
    } else {
        occurrences(ws.drop_last(), w) + if ws.last() == w { 1nat } else { 0nat }
    }
}

/// Each word of `ws` mapped to its number of occurrences; nothing else.
pub open spec fn frequencies(ws: Seq<Seq<char>>) -> Map<Seq<char>, nat> {
    Map::new(|w: Seq<char>| occurrences(ws, w) > 0, |w: Seq<char>| occurrences(ws, w))
}

proof fn lemma_occurrences_bound(ws: Seq<Seq<char>>, w: Seq<char>)
    ensures
        occurrences(ws, w) <= ws.len(),
    decreases ws.len(),
{
    if ws.len() > 0 {
        lemma_occurrences_bound(ws.drop_last(), w);
    }
}

/// A table from word to count, each word at most once.
pub struct WordFrequency {
    entries: Vec<(String, usize)>,
}

impl View for WordFrequency {
    type V = Map<Seq<char>, nat>;

    /// The table as a map from word to count.
    closed spec fn view(&self) -> Map<Seq<char>, nat> {
        Map::new(
            |w: Seq<char>| self.has(w),
            |w: Seq<char>|
                self.entries@[choose|k: int|
                    0 <= k < self.entries@.len() && #[trigger] self.entries@[k].0@ == w].1 as nat,
        )
    }
}

impl WordFrequency {
    /// No word appears twice among the entries.
    pub closed spec fn wf(&self) -> bool {
        forall|a: int, b: int|
            0 <= a < b < self.entries@.len() ==> #[trigger] self.entries@[a].0@
                != #[trigger] self.entries@[b].0@
    }

    /// Some entry holds the word `w`.
    pub closed spec fn has(&self, w: Seq<char>) -> bool {
        exists|k: int| 0 <= k < self.entries@.len() && #[trigger] self.entries@[k].0@ == w
    }

    proof fn lemma_at(&self, k: int)
        requires
            self.wf(),
            0 <= k < self.entries@.len(),
        ensures
            self@.contains_key(self.entries@[k].0@),
            self@[self.entries@[k].0@] == self.entries@[k].1 as nat,
    {
        let w = self.entries@[k].0@;
        assert(self.has(w));
        let j = choose|j: int| 0 <= j < self.entries@.len() && #[trigger] self.entries@[j].0@ == w;
        if j < k {
            assert(self.entries@[j].0@ != self.entries@[k].0@);
        } else if k < j {
            assert(self.entries@[k].0@ != self.entries@[j].0@);
        }
    }

    /// An empty table.
    pub fn new() -> (r: WordFrequency)
        ensures
            r.wf(),
            r@ == Map::<Seq<char>, nat>::empty(),
    {
        let r = WordFrequency { entries: Vec::new() };
        assert(r@ =~= Map::<Seq<char>, nat>::empty());
        r
    }

    /// The count of `word`, or `None` where it does not occur.
    pub fn get(&self, word: &str) -> (r: Option<&usize>)
        requires
            self.wf(),
        ensures
            r is Some <==> self@.contains_key(word@),
            r matches Some(n) ==> *n as nat == self@[word@],
    {
        let target = word.to_owned();
        let mut k: usize = 0;
        while k < self.entries.len()
            invariant
                self.wf(),
                target@ == word@,
                k <= self.entries@.len(),
                forall|j: int| 0 <= j < k ==> #[trigger] self.entries@[j].0@ != word@,
            decreases self.entries@.len() - k,
        {
            if self.entries[k].0 == target {
                proof {
                    self.lemma_at(k as int);
                }
                return Some(&self.entries[k].1);
            }
            k = k + 1;
        }
        None
    }

    /// The word held at position `i` of the table.
    pub closed spec fn key_at(&self, i: int) -> Seq<char> {
        self.entries@[i].0@
    }

    /// The number of distinct words. Positions `0..r` hold distinct words, and
    /// together they are exactly the words of the table.
    pub fn len(&self) -> (r: usize)
        requires
            self.wf(),
        ensures
            r == self@.dom().len(),
            forall|i: int, j: int| 0 <= i < j < r ==> self.key_at(i) != self.key_at(j),
            forall|i: int| 0 <= i < r ==> self@.contains_key(#[trigger] self.key_at(i)),
            forall|w: Seq<char>| #[trigger] self@.contains_key(w) ==> exists|i: int| 0 <= i < r && self.key_at(i) == w,
    {
        proof {
            self.lemma_dom();
            assert forall|i: int| 0 <= i < self.entries@.len() implies self@.contains_key(
                #[trigger] self.key_at(i),
            ) by {
                self.lemma_at(i);
            }
            assert forall|w: Seq<char>| #[trigger] self@.contains_key(w) implies exists|i: int|
                0 <= i < self.entries@.len() && self.key_at(i) == w by {
                let k = choose|k: int| 0 <= k < self.entries@.len() && #[trigger] self.entries@[k].0@ == w;
                assert(self.key_at(k) == w);
            }
        }
        self.entries.len()
    }

    proof fn lemma_dom(&self)
        requires
            self.wf(),
        ensures
            self@.dom().len() == self.entries@.len(),
            self@.dom().finite(),
    {
        let keys = self.entries@.map_values(|e: (String, usize)| e.0@);
        assert forall|a: int, b: int| 0 <= a < b < keys.len() implies keys[a] != keys[b] by {
            assert(self.entries@[a].0@ != self.entries@[b].0@);
        }
        keys.unique_seq_to_set();
        assert(self@.dom() =~= keys.to_set()) by {
            assert forall|w: Seq<char>| self@.dom().contains(w) implies keys.contains(w) by {
                let k = choose|k: int| 0 <= k < self.entries@.len() && #[trigger] self.entries@[k].0@ == w;
                assert(keys[k] == w);
            }
            assert forall|w: Seq<char>| keys.contains(w) implies self@.dom().contains(w) by {
                let k = choose|k: int| 0 <= k < keys.len() && keys[k] == w;
                assert(self.entries@[k].0@ == w);
            }
        }
    }

    /// The word and count at position `i` of the table.
    pub fn entry(&self, i: usize) -> (r: (&String, usize))
        requires
            self.wf(),
            i < self@.dom().len(),
        ensures
            r.0@ == self.key_at(i as int),
            self@.contains_key(r.0@),
            self@[r.0@] == r.1 as nat,
    {
        proof {
            self.lemma_dom();
            self.lemma_at(i as int);
        }
        (&self.entries[i].0, self.entries[i].1)
    }

    /// Counts one more occurrence of `w`.
    fn add(&mut self, w: String)
        requires
            old(self).wf(),
            old(self)@.contains_key(w@) ==> old(self)@[w@] < usize::MAX,
        ensures
            final(self).wf(),
            final(self)@ == old(self)@.insert(
                w@,
                if old(self)@.contains_key(w@) { old(self)@[w@] + 1 } else { 1 },
            ),
    {
        let ghost before = *self;
        let mut k: usize = 0;
        while k < self.entries.len()
            invariant
                self.wf(),
                *self == before,
                before == *old(self),
                before@.contains_key(w@) ==> before@[w@] < usize::MAX,
                k <= self.entries@.len(),
                forall|j: int| 0 <= j < k ==> #[trigger] self.entries@[j].0@ != w@,
            decreases self.entries@.len() - k,
        {
            if self.entries[k].0 == w {
                proof {
                    self.lemma_at(k as int);
                }
                let n = self.entries[k].1;
                let key = self.entries[k].0.clone();
                self.entries.set(k, (key, n + 1));
                proof {
                    let expect = before@.insert(w@, n as nat + 1);
                    assert forall|a: int, b: int| 0 <= a < b < self.entries@.len() implies
                        #[trigger] self.entries@[a].0@ != #[trigger] self.entries@[b].0@ by {
                        assert(before.entries@[a].0@ != before.entries@[b].0@);
                    }
                    assert forall|x: Seq<char>| self.has(x) <==> before.has(x) by {
                        if self.has(x) {
                            let j = choose|j: int| 0 <= j < self.entries@.len() && #[trigger] self.entries@[j].0@ == x;
                            assert(before.entries@[j].0@ == x);
                        }
                        if before.has(x) {
                            let j = choose|j: int| 0 <= j < before.entries@.len() && #[trigger] before.entries@[j].0@ == x;
                            assert(self.entries@[j].0@ == x);
                        }
                    }
                    assert forall|x: Seq<char>| #[trigger] self@.contains_key(x) implies self@[x] == expect[x] by {
                        let j = choose|j: int| 0 <= j < self.entries@.len() && #[trigger] self.entries@[j].0@ == x;
                        self.lemma_at(j);
                        before.lemma_at(j);
                    }
                    assert(self@ =~= expect);
                }
                return;
            }
            k = k + 1;
        }
        let ghost key = w@;
        self.entries.push((w, 1));
        proof {
            let len = before.entries@.len();
            let expect = before@.insert(key, 1);
            assert(self.entries@[len as int].0@ == key);
            assert forall|a: int, b: int| 0 <= a < b < self.entries@.len() implies
                #[trigger] self.entries@[a].0@ != #[trigger] self.entries@[b].0@ by {
                if b < len {
                    assert(before.entries@[a].0@ != before.entries@[b].0@);
                }
            }
            assert forall|x: Seq<char>| self.has(x) <==> (before.has(x) || x == key) by {
                if self.has(x) {
                    let j = choose|j: int| 0 <= j < self.entries@.len() && #[trigger] self.entries@[j].0@ == x;
                    if j < len {
                        assert(before.entries@[j].0@ == x);
                    }
                }
                if before.has(x) {
                    let j = choose|j: int| 0 <= j < before.entries@.len() && #[trigger] before.entries@[j].0@ == x;
                    assert(self.entries@[j].0@ == x);
                }
            }
            assert forall|x: Seq<char>| #[trigger] self@.contains_key(x) implies self@[x] == expect[x] by {
                let j = choose|j: int| 0 <= j < self.entries@.len() && #[trigger] self.entries@[j].0@ == x;
                self.lemma_at(j);
                if j < len {
                    before.lemma_at(j);
                }
            }
            assert(self@ =~= expect);
        }
    }
}

proof fn lemma_kept_len(toks: Seq<Seq<char>>)
    ensures
        kept(toks).len() <= toks.len(),
    decreases toks.len(),
{
    if toks.len() > 0 {
        lemma_kept_len(toks.drop_last());
    }
}

/// Counting one more word in the frequency model.
proof fn lemma_frequencies_push(ws: Seq<Seq<char>>, w: Seq<char>)
    ensures
        frequencies(ws.push(w)) == frequencies(ws).insert(
            w,
            if frequencies(ws).contains_key(w) { frequencies(ws)[w] + 1 } else { 1 },
        ),
{
    assert(ws.push(w).drop_last() =~= ws);
    assert(frequencies(ws.push(w)) =~= frequencies(ws).insert(
        w,
        if frequencies(ws).contains_key(w) { frequencies(ws)[w] + 1 } else { 1 },
    ));
}

/// Splits `text` into its maximal runs of non-white-space characters.
pub fn split_words(text: &str) -> (r: Vec<String>)
    ensures
        r@.map_values(|t: String| t@) == tokens(text@),
{
    let v = chars_of(text);
    let mut done: Vec<String> = Vec::new();
    let mut cur: Vec<char> = Vec::new();
    let mut i: usize = 0;
    while i < v.len()
        invariant
            v@ == text@,
            i <= v@.len(),
            done@.map_values(|t: String| t@) == scan(v@.subrange(0, i as int)).0,
            cur@ == scan(v@.subrange(0, i as int)).1,
        decreases v@.len() - i,
    {
        let c = v[i];
        assert(v@.subrange(0, i + 1).drop_last() =~= v@.subrange(0, i as int));
        if whitespace(c) {
            if cur.len() > 0 {
                let t = string_of(cur.as_slice());
                let ghost before = done@;
                done.push(t);
                assert(done@.map_values(|t: String| t@) =~= before.map_values(|t: String| t@).push(
                    cur@,
                ));
                cur = Vec::new();
            }
        } else {
            cur.push(c);
        }
        i = i + 1;
    }
    assert(v@.subrange(0, v@.len() as int) =~= v@);
    if cur.len() > 0 {
        let t = string_of(cur.as_slice());
        let ghost before = done@;
        done.push(t);
        assert(done@.map_values(|t: String| t@) =~= before.map_values(|t: String| t@).push(cur@));
    }
    done
}

/// `v` without its leading and trailing non-alphanumeric characters.
fn trim_chars(v: &Vec<char>) -> (r: Vec<char>)
    ensures
        r@ == trim_end(trim_start(v@)),
{
    let n = v.len();
    let mut i: usize = 0;
    assert(v@.subrange(0, n as int) =~= v@);
    while i < n && !alnum(v[i])
        invariant
            n == v@.len(),
            i <= n,
            trim_start(v@) == trim_start(v@.subrange(i as int, n as int)),
        decreases n - i,
    {
        assert(v@.subrange(i as int, n as int).drop_first() =~= v@.subrange(i + 1, n as int));
        i = i + 1;
    }
    let mut j: usize = n;
    while j > i && !alnum(v[j - 1])
        invariant
            n == v@.len(),
            i <= j <= n,
            trim_end(v@.subrange(i as int, n as int)) == trim_end(v@.subrange(i as int, j as int)),
        decreases j,
    {
        assert(v@.subrange(i as int, j as int).drop_last() =~= v@.subrange(i as int, j - 1));
        j = j - 1;
    }
    let mut out: Vec<char> = Vec::new();
    let mut k: usize = i;
    while k < j
        invariant
            i <= k <= j <= n,
            n == v@.len(),
            out@ =~= v@.subrange(i as int, k as int),
        decreases j - k,
    {
        out.push(v[k]);
        k = k + 1;
    }
    out
}

/// A token lower-cased and stripped of non-alphanumeric characters at both ends.
pub fn normalize_word(token: &str) -> (r: String)
    ensures
        r@ == normal(token@),
{
    let lower = lowercase(token);
    trim_word(lower.as_str())
}

/// `word` stripped of non-alphanumeric characters at both ends; interior
/// characters are kept.
pub fn trim_word(word: &str) -> (r: String)
    ensures
        r@ == trim_end(trim_start(word@)),
{
    let v = chars_of(word);
    let t = trim_chars(&v);
    string_of(t.as_slice())
}

/// How often each normalised word of `text` occurs. Tokens that normalise
/// to nothing are not counted.
pub fn word_frequency(text: &str) -> (r: WordFrequency)
    ensures
        r.wf(),
        r@ == frequencies(words(text@)),
{
    let toks = split_words(text);
    let ghost ts = tokens(text@);
    let mut table = WordFrequency::new();
    let mut i: usize = 0;
    assert(kept(ts.subrange(0, 0)) =~= Seq::<Seq<char>>::empty());
    assert(frequencies(Seq::<Seq<char>>::empty()) =~= Map::<Seq<char>, nat>::empty());
    while i < toks.len()
        invariant
            toks@.map_values(|t: String| t@) == ts,
            i <= toks@.len(),
            table.wf(),
            table@ == frequencies(kept(ts.subrange(0, i as int))),
        decreases toks@.len() - i,
    {
        let w = normalize_word(toks[i].as_str());
        let ghost ws = kept(ts.subrange(0, i as int));
        assert(ts.subrange(0, i + 1).drop_last() =~= ts.subrange(0, i as int));
        assert(toks@[i as int]@ == ts[i as int]);
        if !w.as_str().is_empty() {
            proof {
                lemma_occurrences_bound(ws, w@);
                lemma_kept_len(ts.subrange(0, i as int));
                lemma_frequencies_push(ws, w@);
            }
            table.add(w);
        }
        i = i + 1;
    }
    assert(ts.subrange(0, toks@.len() as int) =~= ts);
    table
}

} // verus!
