//! Searching text for regular expressions and for sets of words.
//!
//! Both are compiled once, from their texts, and searched many times. A compiled object
//! stands for the texts it was compiled from.

use crate::objects;
use crate::strings;
use vstd::prelude::*;

verus! {

/// The compiled regular expressions of the `regex` crate.
#[verifier::external_type_specification]
#[verifier::external_body]
pub struct ExRegex(regex::Regex);

/// The automata of the `aho-corasick` crate.
#[verifier::external_type_specification]
#[verifier::external_body]
pub struct ExAhoCorasick(aho_corasick::AhoCorasick);

/// Whether `regex::Regex::new` accepts a text.
pub uninterp spec fn regex_valid(pattern: Seq<char>) -> bool;

/// Whether a regular expression, compiled by `regex::Regex::new`, matches somewhere in a text.
pub uninterp spec fn regex_found(pattern: Seq<char>, text: Seq<char>) -> bool;

/// A compiled regular expression. The only way to one is [`CompiledRegex::new`].
#[derive(Debug)]
pub struct CompiledRegex {
    pattern: String,
    regex: regex::Regex,
}

impl View for CompiledRegex {
    type V = Seq<char>;

    /// The text that the expression was compiled from.
    closed spec fn view(&self) -> Seq<char> {
        self.pattern@
    }
}

impl CompiledRegex {
    /// Compiles a regular expression: `regex::Regex::new`. It succeeds on the texts that
    /// `regex_valid` names, and the result stands for the text.
    #[verifier::external_body]
    pub(crate) fn new(pattern: &str) -> (r: Option<CompiledRegex>)
        ensures
            r is Some == regex_valid(pattern@),
            r matches Some(c) ==> c@ == pattern@,
    {
        let regex = regex::Regex::new(pattern).ok()?;
        Some(CompiledRegex { pattern: pattern.to_owned(), regex })
    }

    /// Whether the expression matches somewhere in a text: `regex::Regex::is_match`. The
    /// answer is a function of the text that the expression was compiled from and of the
    /// text searched.
    #[verifier::external_body]
    pub(crate) fn is_match(&self, text: &str) -> (r: bool)
        ensures
            r == regex_found(self@, text@),
    {
        self.regex.is_match(text)
    }
}

/// Whether some of the words occurs in a text.
pub open spec fn some_occurs(words: Seq<Seq<char>>, text: Seq<char>) -> bool {
    exists|i: int| 0 <= i < words.len() && strings::occurs_in(#[trigger] words[i], text)
}

/// Whether each of the words occurs in a text.
pub open spec fn all_occur(words: Seq<Seq<char>>, text: Seq<char>) -> bool {
    forall|i: int| 0 <= i < words.len() ==> strings::occurs_in(#[trigger] words[i], text)
}

/// How many of the words occur in a text.
pub open spec fn occurring(words: Seq<Seq<char>>, text: Seq<char>) -> nat
    decreases words.len(),
{
    if words.len() == 0 {
        0
    } else {
        occurring(words.drop_last(), text) + (if strings::occurs_in(words.last(), text) {
            1nat
        } else {
            0
        })
    }
}

/// As many words occur as there are where each of them does, and at least one where some
/// word does.
pub proof fn law_occurring(words: Seq<Seq<char>>, text: Seq<char>)
    ensures
        occurring(words, text) <= words.len(),
        occurring(words, text) == words.len() <==> all_occur(words, text),
        occurring(words, text) >= 1 <==> some_occurs(words, text),
    decreases words.len(),
{
    if words.len() > 0 {
        let before = words.drop_last();
        law_occurring(before, text);
        if all_occur(words, text) {
            assert forall|i: int| 0 <= i < before.len() implies strings::occurs_in(
                #[trigger] before[i],
                text,
            ) by {
                assert(before[i] == words[i]);
            }
            assert(strings::occurs_in(words[words.len() - 1], text));
        }
        if all_occur(before, text) && strings::occurs_in(words.last(), text) {
            assert forall|i: int| 0 <= i < words.len() implies strings::occurs_in(
                #[trigger] words[i],
                text,
            ) by {
                if i < before.len() {
                    assert(before[i] == words[i]);
                }
            }
        }
        if some_occurs(before, text) {
            let i = choose|i: int|
                0 <= i < before.len() && strings::occurs_in(#[trigger] before[i], text);
            assert(words[i] == before[i]);
        }
        if some_occurs(words, text) && !strings::occurs_in(words.last(), text) {
            let i = choose|i: int|
                0 <= i < words.len() && strings::occurs_in(#[trigger] words[i], text);
            assert(before[i] == words[i]);
        }
        if strings::occurs_in(words.last(), text) {
            assert(strings::occurs_in(words[words.len() - 1], text));
        }
    }
}

/// Whether `aho_corasick::AhoCorasick::new` builds an automaton for the words.
pub uninterp spec fn word_set_fits(words: Seq<Seq<char>>) -> bool;

/// The positions, in the list of words, of the words that
/// `aho_corasick::AhoCorasick::find_iter` finds in a text, in the order of the finds.
pub uninterp spec fn word_finds(words: Seq<Seq<char>>, text: Seq<char>) -> Seq<u64>;

/// A set of words compiled for being searched at once. The only way to one is
/// [`WordSet::new`].
#[derive(Debug)]
pub struct WordSet {
    words: Vec<String>,
    automaton: aho_corasick::AhoCorasick,
}

impl View for WordSet {
    type V = Seq<Seq<char>>;

    /// The words.
    closed spec fn view(&self) -> Seq<Seq<char>> {
        objects::texts(self.words@)
    }
}

impl WordSet {
    /// Compiles a set of words: `aho_corasick::AhoCorasick::new`, with its standard match
    /// kind. It succeeds where `word_set_fits` says so, and the result stands for the words.
    #[verifier::external_body]
    pub(crate) fn new(words: Vec<String>) -> (r: Option<WordSet>)
        ensures
            r is Some == word_set_fits(objects::texts(words@)),
            r matches Some(s) ==> s@ == objects::texts(words@),
    {
        let automaton = aho_corasick::AhoCorasick::new(&words).ok()?;
        Some(WordSet { words, automaton })
    }

    /// Whether some word occurs in a text: `aho_corasick::AhoCorasick::is_match`. The search
    /// is over bytes; a word occurs in a text in UTF-8 where its bytes do.
    #[verifier::external_body]
    pub(crate) fn is_match(&self, text: &str) -> (r: bool)
        ensures
            r == some_occurs(self@, text@),
    {
        self.automaton.is_match(text)
    }

    /// The words that a scan finds one after the other, none overlapping the one before:
    /// `aho_corasick::AhoCorasick::find_iter`, each find given by the number of its pattern.
    /// The finds are a function of the words and the text. Every find is of a word that is
    /// there, and there is a find where a word is there at all.
    #[verifier::external_body]
    pub(crate) fn finds(&self, text: &str) -> (r: Vec<u64>)
        ensures
            r@ == word_finds(self@, text@),
            forall|i: int|
                0 <= i < r@.len() ==> (#[trigger] r@[i]) < self@.len() && strings::occurs_in(
                    self@[r@[i] as int],
                    text@,
                ),
            r@.len() > 0 <==> some_occurs(self@, text@),
    {
        self.automaton.find_iter(text).map(|m| m.pattern().as_u64()).collect()
    }

    /// The words that are there, each find given by the number of its pattern, overlapping
    /// ones included: `aho_corasick::AhoCorasick::find_overlapping_iter`, which the standard
    /// match kind allows. A word is found where it occurs, and no other is.
    #[verifier::external_body]
    pub(crate) fn overlapping_finds(&self, text: &str) -> (r: Vec<u64>)
        ensures
            forall|k: u64|
                #[trigger] r@.contains(k) <==> (k < self@.len() && strings::occurs_in(
                    self@[k as int],
                    text@,
                )),
    {
        self.automaton.find_overlapping_iter(text).map(|m| m.pattern().as_u64()).collect()
    }

    /// How many of the words occur in a text.
    pub(crate) fn count(&self, text: &str) -> (r: usize)
        ensures
            r == occurring(self@, text@),
    {
        let finds = self.overlapping_finds(text);
        let n = self.words.len();
        let mut there: Vec<bool> = Vec::new();
        let mut k: usize = 0;
        while k < n
            invariant
                k <= n,
                there@.len() == k,
                forall|j: int| 0 <= j < k ==> !there@[j],
            decreases n - k,
        {
            there.push(false);
            k += 1;
        }
        let mut f: usize = 0;
        while f < finds.len()
            invariant
                f <= finds@.len(),
                n == self@.len(),
                there@.len() == n,
                forall|k: u64|
                    #[trigger] finds@.contains(k) <==> (k < self@.len() && strings::occurs_in(
                        self@[k as int],
                        text@,
                    )),
                forall|j: int|
                    0 <= j < n ==> (#[trigger] there@[j] <==> exists|i: int|
                        0 <= i < f && #[trigger] finds@[i] == j),
            decreases finds@.len() - f,
        {
            let pid = finds[f];
            assert(finds@.contains(pid));
            let ghost before = there@;
            there.set(pid as usize, true);
            f += 1;
            proof {
                assert forall|j: int| 0 <= j < n implies (#[trigger] there@[j] <==> exists|i: int|
                    0 <= i < f && #[trigger] finds@[i] == j) by {
                    assert(before[j] <==> exists|i: int| 0 <= i < f - 1 && #[trigger] finds@[i] == j);
                    assert(finds@[f - 1] == pid);
                }
            }
        }
        let mut count: usize = 0;
        let mut k: usize = 0;
        assert(self@.subrange(0, 0) =~= Seq::<Seq<char>>::empty());
        while k < n
            invariant
                k <= n,
                n == self@.len(),
                there@.len() == n,
                count <= k,
                f == finds@.len(),
                forall|k: u64|
                    #[trigger] finds@.contains(k) <==> (k < self@.len() && strings::occurs_in(
                        self@[k as int],
                        text@,
                    )),
                forall|j: int|
                    0 <= j < n ==> (#[trigger] there@[j] <==> exists|i: int|
                        0 <= i < f && #[trigger] finds@[i] == j),
                count == occurring(self@.subrange(0, k as int), text@),
            decreases n - k,
        {
            proof {
                let part = self@.subrange(0, k + 1);
                assert(part.drop_last() =~= self@.subrange(0, k as int));
                assert(there@[k as int] <==> finds@.contains(k as u64));
            }
            if there[k] {
                count += 1;
            }
            k += 1;
        }
        assert(self@.subrange(0, k as int) =~= self@);
        count
    }
}

} // verus!
