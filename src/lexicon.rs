use vstd::prelude::*;
use vstd::string::StringExecFns;

use crate::lexer::chars_of;
use crate::order::{
    compare_words, lemma_word_less_irreflexive, lemma_word_less_total, lemma_word_less_transitive,
    word_less,
};
use crate::text::push_char;

verus! {

/// The key of a word: the first character of the upper-case form of its
/// first character.
pub uninterp spec fn upper_initial(c: char) -> char;

/// Relies on `char::to_uppercase`: its first character, which is a function
/// of `c` alone (the mapping is never empty).
#[verifier::external_body]
fn upper_first(c: char) -> (r: char)
    ensures
        r == upper_initial(c),
{
    c.to_uppercase().next().unwrap()
}

/// Model of a lexicon entry.
pub struct EntryModel {
    pub key: char,
    pub word: Seq<char>,
    pub description: Seq<char>,
}

/// A word with its description, filed under its key.
#[derive(Debug)]
pub struct Entry {
    pub key: char,
    pub word: String,
    pub description: String,
}

impl View for Entry {
    type V = EntryModel;

    open spec fn view(&self) -> EntryModel {
        EntryModel { key: self.key, word: self.word@, description: self.description@ }
    }
}

pub open spec fn entry_models(s: Seq<Entry>) -> Seq<EntryModel> {
    s.map_values(|e: Entry| e@)
}

/// The order of entries: by key, then by word.
pub open spec fn before(k1: char, w1: Seq<char>, k2: char, w2: Seq<char>) -> bool {
    k1 < k2 || (k1 == k2 && word_less(w1, w2))
}

/// Entries in strictly increasing order, so that no (key, word) pair is filed twice.
pub open spec fn sorted(s: Seq<EntryModel>) -> bool {
    forall|i: int, j: int|
        0 <= i < j < s.len() ==> before(s[i].key, s[i].word, s[j].key, s[j].word)
}

/// The number of leading entries that come before (key, word): where it
/// stands or would be filed.
pub open spec fn rank(s: Seq<EntryModel>, key: char, word: Seq<char>) -> nat
    decreases s.len(),
{
    if s.len() == 0 {
        0
    } else if before(s[0].key, s[0].word, key, word) {
        1 + rank(s.drop_first(), key, word)
    } else {
        0
    }
}

/// Whether (key, word) is filed.
pub open spec fn holds(s: Seq<EntryModel>, key: char, word: Seq<char>) -> bool {
    exists|i: int| 0 <= i < s.len() && s[i].key == key && s[i].word == word
}

/// What a lexicon file begins with.
pub open spec fn header() -> Seq<char> {
    "<!--THIS FILE IS AUTOMATICALLY GENERATED - DO NOT EDIT-->\n"@
}

/// The text of entry `i`, after a heading where it opens a new key.
pub open spec fn entry_text(s: Seq<EntryModel>, i: int) -> Seq<char> {
    (if i == 0 || s[i - 1].key != s[i].key {
        "\n## "@ + seq![s[i].key] + "\n"@
    } else {
        Seq::empty()
    }) + "\n### "@ + s[i].word + "\n\n"@ + s[i].description + "\n"@
}

/// The text of the first `n` entries.
pub open spec fn entries_text(s: Seq<EntryModel>, n: int) -> Seq<char>
    decreases n,
{
    if n <= 0 {
        Seq::empty()
    } else {
        entries_text(s, n - 1) + entry_text(s, n - 1)
    }
}

/// The Markdown text of a lexicon.
pub open spec fn rendered(s: Seq<EntryModel>) -> Seq<char> {
    header() + entries_text(s, s.len() as int)
}

proof fn lemma_before_total(k1: char, w1: Seq<char>, k2: char, w2: Seq<char>)
    ensures
        (k1 == k2 && w1 == w2) || before(k1, w1, k2, w2) || before(k2, w2, k1, w1),
        !(before(k1, w1, k2, w2) && before(k2, w2, k1, w1)),
        !before(k1, w1, k1, w1),
{
    lemma_word_less_total(w1, w2);
    lemma_word_less_irreflexive(w1);
}

proof fn lemma_before_transitive(
    k1: char,
    w1: Seq<char>,
    k2: char,
    w2: Seq<char>,
    k3: char,
    w3: Seq<char>,
)
    requires
        before(k1, w1, k2, w2),
        before(k2, w2, k3, w3),
    ensures
        before(k1, w1, k3, w3),
{
    if k1 == k2 && k2 == k3 {
        lemma_word_less_transitive(w1, w2, w3);
    }
}

/// `i` is the rank where the first `i` entries come before (key, word) and
/// entry `i`, if any, does not.
proof fn lemma_rank_is(s: Seq<EntryModel>, key: char, word: Seq<char>, i: int)
    requires
        0 <= i <= s.len(),
        forall|k: int| 0 <= k < i ==> before(s[k].key, s[k].word, key, word),
        i == s.len() || !before(s[i].key, s[i].word, key, word),
    ensures
        rank(s, key, word) == i,
    decreases i,
{
    if i > 0 {
        let t = s.drop_first();
        assert forall|k: int| 0 <= k < i - 1 implies before(t[k].key, t[k].word, key, word) by {
            assert(t[k] == s[k + 1]);
        }
        if i < s.len() {
            assert(t[i - 1] == s[i]);
        }
        lemma_rank_is(t, key, word, i - 1);
    }
}

/// In a sorted sequence, (key, word) is filed exactly where its rank points,
/// and every entry from its rank on that is not it comes after it.
proof fn lemma_rank_sorted(s: Seq<EntryModel>, key: char, word: Seq<char>, p: int)
    requires
        sorted(s),
        0 <= p <= s.len(),
        forall|k: int| 0 <= k < p ==> before(s[k].key, s[k].word, key, word),
        p == s.len() || !before(s[p].key, s[p].word, key, word),
    ensures
        holds(s, key, word) <==> (p < s.len() && s[p].key == key && s[p].word == word),
        !holds(s, key, word) ==> forall|j: int|
            p <= j < s.len() ==> before(key, word, s[j].key, s[j].word),
{
    if p < s.len() && !(s[p].key == key && s[p].word == word) {
        lemma_before_total(s[p].key, s[p].word, key, word);
        assert forall|j: int| p <= j < s.len() implies before(key, word, s[j].key, s[j].word) by {
            if j > p {
                lemma_before_transitive(key, word, s[p].key, s[p].word, s[j].key, s[j].word);
            }
        }
    }
    if holds(s, key, word) {
        let i = choose|i: int| 0 <= i < s.len() && s[i].key == key && s[i].word == word;
        lemma_before_total(key, word, key, word);
        if i < p {
            assert(before(s[i].key, s[i].word, key, word));
        }
        if i > p && p < s.len() && !(s[p].key == key && s[p].word == word) {
            assert(before(key, word, s[i].key, s[i].word));
        }
    }
}

/// A new entry filed at its rank keeps the sequence sorted.
proof fn lemma_insert_sorted(s: Seq<EntryModel>, e: EntryModel, p: int)
    requires
        sorted(s),
        0 <= p <= s.len(),
        forall|k: int| 0 <= k < p ==> before(s[k].key, s[k].word, e.key, e.word),
        forall|j: int| p <= j < s.len() ==> before(e.key, e.word, s[j].key, s[j].word),
    ensures
        sorted(s.insert(p, e)),
{
    let t = s.insert(p, e);
    assert forall|i: int, j: int| 0 <= i < j < t.len() implies before(
        t[i].key,
        t[i].word,
        t[j].key,
        t[j].word,
    ) by {
        if i < p && j > p {
            assert(t[j] == s[j - 1]);
        } else if i > p {
            assert(t[i] == s[i - 1] && t[j] == s[j - 1]);
        }
    }
}

proof fn lemma_remove_sorted(s: Seq<EntryModel>, p: int)
    requires
        sorted(s),
        0 <= p < s.len(),
    ensures
        sorted(s.remove(p)),
{
    let t = s.remove(p);
    assert forall|i: int, j: int| 0 <= i < j < t.len() implies before(
        t[i].key,
        t[i].word,
        t[j].key,
        t[j].word,
    ) by {
        let i2 = if i < p { i } else { i + 1 };
        let j2 = if j < p { j } else { j + 1 };
        assert(t[i] == s[i2] && t[j] == s[j2]);
    }
}

/// What an update of a description came to.
#[derive(Debug, PartialEq, Eq)]
pub enum UpdateOutcome {
    Missing,
    Unchanged,
    Updated,
}

/// A named lexicon: words with descriptions, filed by key, stored in two
/// files of a repository.
pub struct Lexicon {
    pub name: String,
    pub file: String,
    pub target_file: String,
    pub entries: Vec<Entry>,
}

impl Lexicon {
    /// The entries as values.
    pub open spec fn model(&self) -> Seq<EntryModel> {
        entry_models(self.entries@)
    }

    /// The entries are sorted, so that each (key, word) is filed once.
    pub open spec fn wf(&self) -> bool {
        sorted(self.model())
    }

    /// An empty lexicon.
    pub fn new(name: String, file: String, target_file: String) -> (r: Lexicon)
        ensures
            r.wf(),
            r.model() == Seq::<EntryModel>::empty(),
            r.name == name,
            r.file == file,
            r.target_file == target_file,
    {
        let r = Lexicon { name, file, target_file, entries: Vec::new() };
        assert(r.model() =~= Seq::<EntryModel>::empty());
        r
    }

    /// Where (key, word) stands or would be filed, and whether it is filed.
    pub fn find(&self, key: char, word: &str) -> (r: (usize, bool))
        requires
            self.wf(),
        ensures
            r.0 == rank(self.model(), key, word@),
            r.1 == holds(self.model(), key, word@),
            r.1 ==> self.model()[r.0 as int].key == key && self.model()[r.0 as int].word == word@,
            !r.1 ==> forall|j: int|
                r.0 <= j < self.model().len() ==> before(
                    key,
                    word@,
                    #[trigger] self.model()[j].key,
                    self.model()[j].word,
                ),
            r.0 <= self.model().len(),
            r.1 ==> r.0 < self.model().len(),
    {
        let ghost s = self.model();
        let w = chars_of(word);
        let mut i: usize = 0;
        let mut stop = false;
        while i < self.entries.len() && !stop
            invariant
                s == self.model(),
                w@ == word@,
                i <= s.len(),
                forall|k: int| 0 <= k < i ==> before(s[k].key, s[k].word, key, word@),
                stop ==> i < s.len() && !before(s[i as int].key, s[i as int].word, key, word@),
            decreases s.len() - i + (if stop { 0int } else { 1int }),
        {
            let e = &self.entries[i];
            assert(s[i as int] == e@);
            let ew = chars_of(e.word.as_str());
            assert(ew@ == s[i as int].word);
            assert(w@ == word@);
            if e.key < key || (e.key == key && compare_words(ew.as_slice(), w.as_slice()) < 0) {
                assert(before(s[i as int].key, s[i as int].word, key, word@));
                i += 1;
            } else {
                stop = true;
            }
        }
        proof {
            lemma_rank_is(s, key, word@, i as int);
            lemma_rank_sorted(s, key, word@, i as int);
        }
        if i < self.entries.len() {
            let e = &self.entries[i];
            assert(s[i as int] == e@);
            let ew = chars_of(e.word.as_str());
            let same = e.key == key && compare_words(ew.as_slice(), w.as_slice()) == 0;
            (i, same)
        } else {
            (i, false)
        }
    }

    /// The description of (key, word), if it is filed.
    pub fn query(&self, key: char, word: &str) -> (r: Option<&String>)
        requires
            self.wf(),
        ensures
            r is Some <==> holds(self.model(), key, word@),
            r is Some ==> exists|i: int|
                0 <= i < self.model().len() && self.model()[i].key == key && self.model()[i].word
                    == word@ && self.model()[i].description == r->Some_0@,
    {
        let (p, found) = self.find(key, word);
        if found {
            let d = &self.entries[p].description;
            assert(self.model()[p as int] == self.entries@[p as int]@);
            Some(d)
        } else {
            None
        }
    }

    /// Files `word` with `description` under `key`, unless (key, word) is
    /// filed already; returns whether it was added.
    pub fn add(&mut self, key: char, word: String, description: String) -> (r: bool)
        requires
            old(self).wf(),
        ensures
            final(self).wf(),
            r == !holds(old(self).model(), key, word@),
            r ==> final(self).model() == old(self).model().insert(
                rank(old(self).model(), key, word@) as int,
                EntryModel { key, word: word@, description: description@ },
            ),
            !r ==> final(self).model() == old(self).model(),
            final(self).name == old(self).name,
            final(self).file == old(self).file,
            final(self).target_file == old(self).target_file,
    {
        let (p, found) = self.find(key, word.as_str());
        if found {
            return false;
        }
        let ghost s = self.model();
        let e = Entry { key, word, description };
        proof {
            assert forall|k: int| 0 <= k < p implies before(s[k].key, s[k].word, key, e.word@) by {
                lemma_rank_prefix(s, key, e.word@, k);
            }
            lemma_insert_sorted(s, e@, p as int);
        }
        self.entries.insert(p, e);
        assert(self.model() =~= s.insert(p as int, e@));
        true
    }

    /// Sets the description of (key, word) if it is filed and differs.
    pub fn update(&mut self, key: char, word: &str, description: String) -> (r: UpdateOutcome)
        requires
            old(self).wf(),
        ensures
            final(self).wf(),
            ({
                let s = old(self).model();
                let p = rank(s, key, word@) as int;
                match r {
                    UpdateOutcome::Missing => !holds(s, key, word@) && final(self).model() == s,
                    UpdateOutcome::Unchanged => holds(s, key, word@) && s[p].description
                        == description@ && final(self).model() == s,
                    UpdateOutcome::Updated => holds(s, key, word@) && s[p].description
                        != description@ && final(self).model() == s.update(
                        p,
                        EntryModel { key, word: word@, description: description@ },
                    ),
                }
            }),
            final(self).name == old(self).name,
            final(self).file == old(self).file,
            final(self).target_file == old(self).target_file,
    {
        let (p, found) = self.find(key, word);
        if !found {
            return UpdateOutcome::Missing;
        }
        let ghost s = self.model();
        assert(s[p as int] == self.entries@[p as int]@);
        if self.entries[p].description == description {
            return UpdateOutcome::Unchanged;
        }
        let old_entry = self.entries.remove(p);
        let e = Entry { key: old_entry.key, word: old_entry.word, description };
        self.entries.insert(p, e);
        assert(self.model() =~= s.update(p as int, e@));
        assert forall|i: int, j: int| 0 <= i < j < self.model().len() implies before(
            self.model()[i].key,
            self.model()[i].word,
            self.model()[j].key,
            self.model()[j].word,
        ) by {
            assert(before(s[i].key, s[i].word, s[j].key, s[j].word));
        }
        UpdateOutcome::Updated
    }

    /// Takes (key, word) out if it is filed; returns whether it was.
    pub fn remove(&mut self, key: char, word: &str) -> (r: bool)
        requires
            old(self).wf(),
        ensures
            final(self).wf(),
            r == holds(old(self).model(), key, word@),
            r ==> final(self).model() == old(self).model().remove(
                rank(old(self).model(), key, word@) as int,
            ),
            !r ==> final(self).model() == old(self).model(),
            final(self).name == old(self).name,
            final(self).file == old(self).file,
            final(self).target_file == old(self).target_file,
    {
        let (p, found) = self.find(key, word);
        if !found {
            return false;
        }
        let ghost s = self.model();
        self.entries.remove(p);
        assert(self.model() =~= s.remove(p as int));
        proof {
            lemma_remove_sorted(s, p as int);
        }
        true
    }

    /// The Markdown text of the lexicon, a section for each key and an entry
    /// for each word, in order.
    pub fn render(&self) -> (r: String)
        ensures
            r@ == rendered(self.model()),
    {
        let ghost s = self.model();
        let mut out = String::from_str("<!--THIS FILE IS AUTOMATICALLY GENERATED - DO NOT EDIT-->\n");
        let mut i: usize = 0;
        while i < self.entries.len()
            invariant
                s == self.model(),
                i <= s.len(),
                out@ == header() + entries_text(s, i as int),
            decreases s.len() - i,
        {
            let e = &self.entries[i];
            assert(s[i as int] == e@);
            let ghost before_out = out@;
            if i == 0 || self.entries[i - 1].key != e.key {
                proof {
                    if i > 0 {
                        assert(s[i - 1] == self.entries@[i - 1]@);
                    }
                }
                out.append("\n## ");
                push_char(&mut out, e.key);
                out.append("\n");
            } else {
                assert(s[i - 1] == self.entries@[i - 1]@);
            }
            out.append("\n### ");
            out.append(e.word.as_str());
            out.append("\n\n");
            out.append(e.description.as_str());
            out.append("\n");
            assert(out@ =~= before_out + entry_text(s, i as int));
            i += 1;
        }
        out
    }
}

proof fn lemma_rank_prefix(s: Seq<EntryModel>, key: char, word: Seq<char>, k: int)
    requires
        0 <= k < rank(s, key, word),
    ensures
        k < s.len(),
        before(s[k].key, s[k].word, key, word),
    decreases k,
{
    assert(before(s[0].key, s[0].word, key, word));
    if k > 0 {
        lemma_rank_prefix(s.drop_first(), key, word, k - 1);
        assert(s.drop_first()[k - 1] == s[k]);
    }
}

/// The key `word` is filed under.
pub fn key_of(word: &str) -> (r: char)
    requires
        word@.len() > 0,
    ensures
        r == upper_initial(word@[0]),
{
    upper_first(word.get_char(0))
}

/// The position of the first of `names` that equals `name`.
pub fn find_named(names: &[String], name: &str) -> (r: Option<usize>)
    ensures
        match r {
            Some(i) => i < names@.len() && names@[i as int]@ == name@ && forall|k: int|
                0 <= k < i ==> (#[trigger] names@[k])@ != name@,
            None => forall|k: int| 0 <= k < names@.len() ==> (#[trigger] names@[k])@ != name@,
        },
{
    let target = chars_of(name);
    let mut i: usize = 0;
    while i < names.len()
        invariant
            i <= names@.len(),
            target@ == name@,
            forall|k: int| 0 <= k < i ==> (#[trigger] names@[k])@ != name@,
        decreases names@.len() - i,
    {
        let candidate = chars_of(names[i].as_str());
        if compare_words(candidate.as_slice(), target.as_slice()) == 0 {
            return Some(i);
        }
        i += 1;
    }
    None
}

} // verus!
