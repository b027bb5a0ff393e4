//! Words you say, and the text that is written instead.
//!
//! Dictation is bad at symbols. Saying "minus minus" and getting `--` is the
//! sort of thing a keyboard does without being asked, and no model will ever do
//! it, because what you want written is not what you said.
//!
//! Rules are matched word by word rather than as raw text, so a rule survives
//! the model's own punctuation and capitals: "minus minus" catches "Minus,
//! minus" too. What it will not do is span a sentence, because two separate
//! sentences ending and starting with the same word are not the phrase you
//! meant.
use vstd::prelude::*;

use crate::order::{
    descending, has_key, largest_first, of_key, place, place_is, same_by_key,
    sorting_ignores_the_order_of_keys, sorting_is_stable, sorting_keeps_a_property, sorting_orders,
};
use crate::text::{characters, contents, string_of};

verus! {

// --- what the standard library decides ---------------------------------------

/// Whether Unicode counts a character beyond ASCII as a letter or a number.
pub uninterp spec fn alphanumeric_beyond_ascii(c: char) -> bool;

/// Whether a character of ASCII is a letter or a digit.
pub open spec fn ascii_alphanumeric(c: char) -> bool {
    '0' <= c <= '9' || 'A' <= c <= 'Z' || 'a' <= c <= 'z'
}

/// Whether a character is a letter or a number.
pub open spec fn alphanumeric(c: char) -> bool {
    if (c as u32) < 0x80 {
        ascii_alphanumeric(c)
    } else {
        alphanumeric_beyond_ascii(c)
    }
}

/// A text in lower case.
pub uninterp spec fn lowercase(s: Seq<char>) -> Seq<char>;

/// `char::is_alphanumeric` says whether Unicode counts a character as a letter or a
/// number. Of ASCII those are the letters and digits; beyond it, the answer comes
/// from Unicode's tables, and depends on the character alone.
pub assume_specification[ char::is_alphanumeric ](c: char) -> (yes: bool)
    ensures
        yes == if (c as u32) < 0x80 {
            ascii_alphanumeric(c)
        } else {
            alphanumeric_beyond_ascii(c)
        },
;

/// `str::to_lowercase` follows Unicode's tables and no locale, so its answer
/// depends on the text alone.
pub assume_specification[ str::to_lowercase ](text: &str) -> (lower: String)
    ensures
        lower@ == lowercase(text@),
;

// --- rules and words ---------------------------------------------------------

/// One rule: say this, write that.
#[derive(Debug, Clone, Default, PartialEq, Eq)]
pub struct Replacement {
    /// The words to listen for, as you would say them.
    pub say: String,
    /// What to write in their place, exactly as written here.
    pub write: String,
}

/// A word in the text: where it sits, counted in characters, and how it
/// compares.
pub struct Word {
    pub start: usize,
    pub end: usize,
    pub lower: String,
}

/// What a [`Word`] says.
#[verifier::ext_equal]
pub struct WordModel {
    pub start: int,
    pub end: int,
    pub lower: Seq<char>,
}

impl View for Word {
    type V = WordModel;

    open spec fn view(&self) -> WordModel {
        WordModel { start: self.start as int, end: self.end as int, lower: self.lower@ }
    }
}

/// A rule split into the words it listens for, lowercased once rather than
/// once per transcript.
pub struct Prepared {
    pub words: Vec<String>,
    pub write: String,
}

/// What a [`Prepared`] rule says.
#[verifier::ext_equal]
pub struct PreparedModel {
    pub words: Seq<Seq<char>>,
    pub write: Seq<char>,
}

impl View for Prepared {
    type V = PreparedModel;

    open spec fn view(&self) -> PreparedModel {
        PreparedModel { words: contents(self.words@), write: self.write@ }
    }
}

/// What a list of words says.
pub open spec fn word_models(words: Seq<Word>) -> Seq<WordModel> {
    words.map_values(|word: Word| word@)
}

/// What a list of prepared rules says.
pub open spec fn rule_models(rules: Seq<Prepared>) -> Seq<PreparedModel> {
    rules.map_values(|rule: Prepared| rule@)
}

// --- finding the words -------------------------------------------------------

/// Whether a character is an apostrophe, of either kind.
pub open spec fn apostrophe(c: char) -> bool {
    c == '\'' || c == '\u{2019}'
}

/// Whether nothing but apostrophes lies between a letter or digit and here.
pub open spec fn follows_letter(s: Seq<char>, at: int) -> bool {
    exists|i: int|
        0 <= i < at && alphanumeric(#[trigger] s[i]) && forall|k: int|
            i < k < at ==> apostrophe(#[trigger] s[k])
}

/// Whether nothing but apostrophes lies between here and a letter or digit.
pub open spec fn leads_to_letter(s: Seq<char>, at: int) -> bool {
    exists|j: int|
        at < j < s.len() && alphanumeric(#[trigger] s[j]) && forall|k: int|
            at < k < j ==> apostrophe(#[trigger] s[k])
}

/// Letters and digits make up words, with any apostrophes that fall inside one;
/// everything else is what separates them.
pub open spec fn in_word(s: Seq<char>, at: int) -> bool {
    alphanumeric(s[at]) || (apostrophe(s[at]) && follows_letter(s, at) && leads_to_letter(s, at))
}

/// Where the run of marked positions from `at` stops.
pub open spec fn run_end(marks: Seq<bool>, at: int) -> int
    decreases marks.len() - at,
{
    if 0 <= at < marks.len() && marks[at] {
        run_end(marks, at + 1)
    } else {
        at
    }
}

/// The runs of marked positions from `at` on, each as where it starts and where
/// it stops.
pub open spec fn runs(marks: Seq<bool>, at: int) -> Seq<(int, int)>
    decreases marks.len() - at,
    via runs_shrink
{
    if at < 0 || at >= marks.len() {
        Seq::empty()
    } else if marks[at] {
        seq![(at, run_end(marks, at))] + runs(marks, run_end(marks, at))
    } else {
        runs(marks, at + 1)
    }
}

#[via_fn]
proof fn runs_shrink(marks: Seq<bool>, at: int) {
    if 0 <= at < marks.len() && marks[at] {
        run_end_is_past(marks, at);
    }
}

/// A run is marked throughout, and stops at the end or at the first position
/// that is not.
pub proof fn run_end_is_past(marks: Seq<bool>, at: int)
    requires
        0 <= at <= marks.len(),
    ensures
        at <= run_end(marks, at) <= marks.len(),
        at < marks.len() && marks[at] ==> at < run_end(marks, at),
        forall|i: int| at <= i < run_end(marks, at) ==> marks[i],
        run_end(marks, at) < marks.len() ==> !marks[run_end(marks, at)],
    decreases marks.len() - at,
{
    if at < marks.len() && marks[at] {
        run_end_is_past(marks, at + 1);
    }
}

/// Which characters of a text belong to words.
pub open spec fn marked(s: Seq<char>) -> Seq<bool> {
    Seq::new(s.len(), |at: int| in_word(s, at))
}

/// The word between two positions of a text.
pub open spec fn word_between(s: Seq<char>, run: (int, int)) -> WordModel {
    WordModel { start: run.0, end: run.1, lower: lowercase(s.subrange(run.0, run.1)) }
}

/// The words of a text, in order.
pub open spec fn words_of(s: Seq<char>) -> Seq<WordModel> {
    runs(marked(s), 0).map_values(|run: (int, int)| word_between(s, run))
}

proof fn apostrophes_share_a_fate(s: Seq<char>, start: int, end: int, at: int)
    requires
        0 <= start <= at < end <= s.len(),
        forall|k: int| start <= k < end ==> apostrophe(#[trigger] s[k]) && !alphanumeric(s[k]),
        start > 0 ==> alphanumeric(s[start - 1]) || !apostrophe(s[start - 1]),
        end < s.len() ==> alphanumeric(s[end]) || !apostrophe(s[end]),
    ensures
        in_word(s, at) == (start > 0 && alphanumeric(s[start - 1]) && end < s.len() && alphanumeric(
            s[end],
        )),
{
    if start > 0 && alphanumeric(s[start - 1]) && end < s.len() && alphanumeric(s[end]) {
        assert(follows_letter(s, at));
        assert(leads_to_letter(s, at));
    }
    assert(!alphanumeric(s[at]));
    if follows_letter(s, at) {
        let i = choose|i: int|
            0 <= i < at && alphanumeric(#[trigger] s[i]) && forall|k: int|
                i < k < at ==> apostrophe(#[trigger] s[k]);
        if i < start - 1 {
            assert(apostrophe(s[start - 1]));
        }
    }
    if leads_to_letter(s, at) {
        let j = choose|j: int|
            at < j < s.len() && alphanumeric(#[trigger] s[j]) && forall|k: int|
                at < k < j ==> apostrophe(#[trigger] s[k]);
        if j > end {
            assert(apostrophe(s[end]));
        }
    }
}

fn is_apostrophe(c: char) -> (yes: bool)
    ensures
        yes == apostrophe(c),
{
    c == '\'' || c == '\u{2019}'
}

/// Which characters belong to words.
fn mark(chars: &[char]) -> (marks: Vec<bool>)
    ensures
        marks@ == marked(chars@),
{
    let mut marks: Vec<bool> = Vec::new();
    let count: usize = chars.len();
    let mut at: usize = 0;
    while at < count
        invariant
            count == chars@.len(),
            at <= count,
            marks@ == marked(chars@).take(at as int),
            0 < at < count ==> alphanumeric(chars@[at - 1]) || !apostrophe(chars@[at - 1])
                || !(apostrophe(chars@[at as int]) && !alphanumeric(chars@[at as int])),
        decreases count - at,
    {
        if chars[at].is_alphanumeric() {
            marks.push(true);
            at += 1;
        } else if !is_apostrophe(chars[at]) {
            marks.push(false);
            at += 1;
        } else {
            let start: usize = at;
            let mut end: usize = at + 1;
            while end < count && is_apostrophe(chars[end]) && !chars[end].is_alphanumeric()
                invariant
                    count == chars@.len(),
                    start < end <= count,
                    forall|k: int|
                        start <= k < end ==> apostrophe(#[trigger] chars@[k]) && !alphanumeric(
                            chars@[k],
                        ),
                decreases count - end,
            {
                end += 1;
            }
            let inside = start > 0 && chars[start - 1].is_alphanumeric() && end < count
                && chars[end].is_alphanumeric();
            while at < end
                invariant
                    count == chars@.len(),
                    start <= at <= end <= count,
                    marks@ == marked(chars@).take(at as int),
                    forall|k: int|
                        start <= k < end ==> apostrophe(#[trigger] chars@[k]) && !alphanumeric(
                            chars@[k],
                        ),
                    start > 0 ==> alphanumeric(chars@[start - 1]) || !apostrophe(chars@[start - 1]),
                    end < count ==> alphanumeric(chars@[end as int]) || !apostrophe(
                        chars@[end as int],
                    ),
                    inside == (start > 0 && alphanumeric(chars@[start - 1]) && end < count
                        && alphanumeric(chars@[end as int])),
                decreases end - at,
            {
                proof {
                    apostrophes_share_a_fate(chars@, start as int, end as int, at as int);
                }
                marks.push(inside);
                at += 1;
            }
        }
    }
    marks
}

/// Where a run of marked positions starts and stops.
pub struct Run {
    pub start: usize,
    pub end: usize,
}

/// What a list of runs says.
pub open spec fn run_pairs(found: Seq<Run>) -> Seq<(int, int)> {
    found.map_values(|run: Run| (run.start as int, run.end as int))
}

/// Group the marked positions into runs.
pub fn find_runs(marks: &[bool]) -> (found: Vec<Run>)
    ensures
        run_pairs(found@) == runs(marks@, 0),
        forall|i: int|
            0 <= i < found@.len() ==> (#[trigger] found@[i]).start < found@[i].end <= marks@.len(),
{
    let mut found: Vec<Run> = Vec::new();
    let mut at: usize = 0;
    assert(run_pairs(found@) + runs(marks@, 0) =~= runs(marks@, 0));
    while at < marks.len()
        invariant
            at <= marks@.len(),
            run_pairs(found@) + runs(marks@, at as int) == runs(marks@, 0),
            forall|i: int|
                0 <= i < found@.len() ==> (#[trigger] found@[i]).start < found@[i].end
                    <= marks@.len(),
        decreases marks@.len() - at,
    {
        if marks[at] {
            let ghost before = run_pairs(found@);
            let start: usize = at;
            while at < marks.len() && marks[at]
                invariant
                    start <= at <= marks@.len(),
                    marks@[start as int],
                    run_end(marks@, start as int) == run_end(marks@, at as int),
                decreases marks@.len() - at,
            {
                at += 1;
            }
            proof {
                run_end_is_past(marks@, start as int);
            }
            let run = Run { start, end: at };
            found.push(run);
            assert(run_pairs(found@) =~= before.push((start as int, at as int)));
            assert(run_pairs(found@) + runs(marks@, at as int) =~= before + (seq![
                (start as int, at as int),
            ] + runs(marks@, at as int)));
        } else {
            at += 1;
        }
    }
    assert(run_pairs(found@) + Seq::<(int, int)>::empty() =~= run_pairs(found@));
    found
}

fn word(chars: &[char], start: usize, end: usize) -> (found: Word)
    requires
        start <= end <= chars@.len(),
    ensures
        found@ == word_between(chars@, (start as int, end as int)),
{
    Word { start, end, lower: string_of(chars, start, end).to_lowercase() }
}

/// Split into words, where a word is letters and digits with any apostrophes
/// that fall inside it: everything else is what separates them.
pub fn words(text: &str) -> (found: Vec<Word>)
    ensures
        word_models(found@) == words_of(text@),
{
    let chars = characters(text);
    let marks = mark(chars.as_slice());
    let spans = find_runs(marks.as_slice());
    let mut found: Vec<Word> = Vec::new();
    let mut at: usize = 0;
    while at < spans.len()
        invariant
            chars@ == text@,
            at <= spans@.len(),
            run_pairs(spans@) == runs(marked(text@), 0),
            forall|i: int|
                0 <= i < spans@.len() ==> (#[trigger] spans@[i]).start < spans@[i].end
                    <= chars@.len(),
            word_models(found@) == words_of(text@).take(at as int),
        decreases spans@.len() - at,
    {
        assert(run_pairs(spans@)[at as int] == (
            spans@[at as int].start as int,
            spans@[at as int].end as int,
        ));
        let ghost before = word_models(found@);
        let next = word(chars.as_slice(), spans[at].start, spans[at].end);
        found.push(next);
        assert(word_models(found@) =~= before.push(words_of(text@)[at as int]));
        at += 1;
        assert(words_of(text@).take(at as int) =~= before.push(words_of(text@)[at - 1]));
    }
    assert(run_pairs(spans@).len() == spans@.len());
    assert(words_of(text@).take(at as int) =~= words_of(text@));
    found
}

// --- preparing the rules -----------------------------------------------------

/// A rule as it listens and writes.
pub open spec fn prepared(rule: Replacement) -> PreparedModel {
    PreparedModel {
        words: words_of(rule.say@).map_values(|word: WordModel| word.lower),
        write: rule.write@,
    }
}

/// How many words a rule listens for.
pub open spec fn length(rule: PreparedModel) -> int {
    rule.words.len() as int
}

/// The rules with anything to listen for, the ones with the most words first.
pub open spec fn usable(rules: Seq<PreparedModel>) -> Seq<PreparedModel> {
    largest_first(
        rules.filter(|rule: PreparedModel| rule.words.len() > 0),
        |rule: PreparedModel| length(rule),
    )
}

/// The rules as a transcript meets them.
pub open spec fn prepared_rules(rules: Seq<Replacement>) -> Seq<PreparedModel> {
    usable(rules.map_values(|rule: Replacement| prepared(rule)))
}

/// Put a rule among those already there, after the ones with as many words. One
/// with nothing to listen for would match everywhere, and is dropped.
pub fn place_rule(rules: &mut Vec<Prepared>, rule: Prepared)
    ensures
        rule@.words.len() == 0 ==> rule_models(final(rules)@) == rule_models(old(rules)@),
        rule@.words.len() > 0 ==> rule_models(final(rules)@) == rule_models(old(rules)@).insert(
            place(
                rule_models(old(rules)@),
                |known: PreparedModel| length(known),
                length(rule@),
            ),
            rule@,
        ),
{
    if rule.words.len() == 0 {
        return ;
    }
    let ghost rank = |known: PreparedModel| length(known);
    let ghost models = rule_models(rules@);
    let mut at: usize = 0;
    while at < rules.len() && rules[at].words.len() >= rule.words.len()
        invariant
            rules@ == old(rules)@,
            models == rule_models(rules@),
            rank == (|known: PreparedModel| length(known)),
            at <= rules@.len(),
            forall|i: int| 0 <= i < at ==> rank(#[trigger] models[i]) >= length(rule@),
        decreases rules@.len() - at,
    {
        assert(models[at as int] == rules@[at as int]@);
        at += 1;
    }
    proof {
        if at < models.len() {
            assert(models[at as int] == rules@[at as int]@);
        }
        place_is(models, rank, length(rule@), at as int);
    }
    rules.insert(at, rule);
    assert(rule_models(rules@) =~= models.insert(at as int, rule@));
}

/// Split a rule into the words it listens for.
fn prepare_one(rule: &Replacement) -> (ready: Prepared)
    ensures
        ready@ == prepared(*rule),
{
    let said = words(rule.say.as_str());
    let mut listened: Vec<String> = Vec::new();
    let mut at: usize = 0;
    while at < said.len()
        invariant
            at <= said@.len(),
            contents(listened@) == word_models(said@).map_values(
                |word: WordModel| word.lower,
            ).take(at as int),
        decreases said@.len() - at,
    {
        let ghost before = contents(listened@);
        listened.push(said[at].lower.clone());
        assert(contents(listened@) =~= before.push(said@[at as int].lower@));
        at += 1;
    }
    let ready = Prepared { words: listened, write: rule.write.clone() };
    assert(ready@.words =~= prepared(*rule).words);
    ready
}

/// Ready the rules for matching: longest first, so the more specific rule is the
/// one that gets to match.
pub fn prepare(rules: &[Replacement]) -> (ready: Vec<Prepared>)
    ensures
        rule_models(ready@) == prepared_rules(rules@),
{
    let ghost models = rules@.map_values(|rule: Replacement| prepared(rule));
    let ghost keep = |rule: PreparedModel| rule.words.len() > 0;
    let mut ready: Vec<Prepared> = Vec::new();
    let mut at: usize = 0;
    proof {
        reveal_with_fuel(Seq::filter, 1);
        assert(models.take(0).filter(keep) =~= Seq::empty());
        assert(rule_models(ready@) =~= Seq::empty());
    }
    while at < rules.len()
        invariant
            at <= rules@.len(),
            models == rules@.map_values(|rule: Replacement| prepared(rule)),
            keep == (|rule: PreparedModel| rule.words.len() > 0),
            rule_models(ready@) == usable(models.take(at as int)),
        decreases rules@.len() - at,
    {
        let rule = prepare_one(&rules[at]);
        place_rule(&mut ready, rule);
        proof {
            let next = models.take(at + 1);
            assert(next.drop_last() =~= models.take(at as int));
            assert(next.last() == rule@);
            reveal_with_fuel(Seq::filter, 1);
            if rule@.words.len() > 0 {
                let kept = next.filter(keep);
                assert(kept == models.take(at as int).filter(keep).push(rule@));
                assert(kept.drop_last() =~= models.take(at as int).filter(keep));
            }
        }
        at += 1;
    }
    assert(models.take(at as int) =~= models);
    ready
}

// --- matching ----------------------------------------------------------------

/// Whether a character ends a sentence, which a line break does too.
pub open spec fn ends_sentence(c: char) -> bool {
    c == '.' || c == '!' || c == '?' || c == '\n'
}

/// Whether a sentence ends somewhere in a text.
pub open spec fn sentence_ends(s: Seq<char>) -> bool {
    exists|i: int| 0 <= i < s.len() && ends_sentence(#[trigger] s[i])
}

/// Whether the words from `at` on are the ones listened for, with no sentence
/// ending between them.
pub open spec fn heard_at(
    s: Seq<char>,
    words: Seq<WordModel>,
    at: int,
    listened: Seq<Seq<char>>,
) -> bool {
    &&& at + listened.len() <= words.len()
    &&& forall|k: int| 0 <= k < listened.len() ==> words[at + k].lower == #[trigger] listened[k]
    &&& forall|k: int|
        0 < k < listened.len() ==> !sentence_ends(
            s.subrange(words[at + k - 1].end, (#[trigger] words[at + k]).start),
        )
}

/// Whether words lie one after the other in a text of `len` characters.
pub open spec fn in_order(words: Seq<WordModel>, len: int) -> bool {
    &&& forall|i: int|
        0 <= i < words.len() ==> 0 <= (#[trigger] words[i]).start <= words[i].end <= len
    &&& forall|i: int, j: int|
        0 <= i < j < words.len() ==> (#[trigger] words[i]).end <= (#[trigger] words[j]).start
}

/// Whether a sentence ends between two positions.
fn sentence_ends_between(chars: &[char], start: usize, end: usize) -> (found: bool)
    requires
        start <= end <= chars@.len(),
    ensures
        found == sentence_ends(chars@.subrange(start as int, end as int)),
{
    let ghost between = chars@.subrange(start as int, end as int);
    let mut at: usize = start;
    while at < end
        invariant
            start <= at <= end <= chars@.len(),
            between == chars@.subrange(start as int, end as int),
            forall|i: int| 0 <= i < at - start ==> !ends_sentence(#[trigger] between[i]),
        decreases end - at,
    {
        let c: char = chars[at];
        assert(between[at - start] == c);
        if c == '.' || c == '!' || c == '?' || c == '\n' {
            return true;
        }
        at += 1;
    }
    false
}

/// Whether a rule's words run from `at`, allowing for whatever the model put
/// between them — a comma, a hyphen, a stray space — but not the end of a
/// sentence.
pub fn matches_at(chars: &[char], words: &[Word], at: usize, rule: &Prepared) -> (heard: bool)
    requires
        in_order(word_models(words@), chars@.len() as int),
        at <= words@.len(),
    ensures
        heard == heard_at(chars@, word_models(words@), at as int, rule@.words),
{
    let ghost models = word_models(words@);
    let ghost listened = rule@.words;
    let count: usize = words.len();
    if rule.words.len() > count - at {
        return false;
    }
    let mut k: usize = 0;
    while k < rule.words.len()
        invariant
            models == word_models(words@),
            listened == rule@.words,
            in_order(models, chars@.len() as int),
            count == words@.len(),
            at + rule.words@.len() <= count,
            k <= rule.words@.len(),
            forall|i: int| 0 <= i < k ==> models[at + i].lower == #[trigger] listened[i],
            forall|i: int|
                0 < i < k ==> !sentence_ends(
                    chars@.subrange(models[at + i - 1].end, (#[trigger] models[at + i]).start),
                ),
        decreases rule.words@.len() - k,
    {
        assert(models[at + k] == words@[at + k]@);
        assert(listened[k as int] == rule.words@[k as int]@);
        if words[at + k].lower != rule.words[k] {
            return false;
        }
        if k > 0 {
            assert(models[at + k - 1] == words@[at + k - 1]@);
            assert(models[at + k - 1].end <= models[at + k].start);
            if sentence_ends_between(chars, words[at + k - 1].end, words[at + k].start) {
                return false;
            }
        }
        k += 1;
    }
    true
}

// --- rewriting ---------------------------------------------------------------

/// The first rule, from the one at `from` on, whose words run from `at`.
pub open spec fn chosen(
    s: Seq<char>,
    words: Seq<WordModel>,
    at: int,
    rules: Seq<PreparedModel>,
    from: int,
) -> Option<int>
    decreases rules.len() - from,
{
    if from < 0 || from >= rules.len() {
        None
    } else if heard_at(s, words, at, rules[from].words) {
        Some(from)
    } else {
        chosen(s, words, at, rules, from + 1)
    }
}

/// A rule that gets to match: the word it starts at, and which rule it is.
pub struct Hit {
    pub word: int,
    pub rule: int,
}

/// How many words a match takes up.
pub open spec fn width(rule: PreparedModel) -> int {
    if rule.words.len() > 0 {
        rule.words.len() as int
    } else {
        1
    }
}

/// Every match from the word at `at` on, left to right. The words of one match
/// are not looked at again.
pub open spec fn hits(
    s: Seq<char>,
    words: Seq<WordModel>,
    rules: Seq<PreparedModel>,
    at: int,
) -> Seq<Hit>
    decreases
            (if at < words.len() {
                words.len() - at
            } else {
                0
            }),
{
    if at < 0 || at >= words.len() {
        Seq::empty()
    } else {
        match chosen(s, words, at, rules, 0) {
            Some(rule) => seq![Hit { word: at, rule }] + hits(
                s,
                words,
                rules,
                at + width(rules[rule]),
            ),
            None => hits(s, words, rules, at + 1),
        }
    }
}

/// The text between the last match and the one that takes up `start` to `end`.
/// A rule that writes nothing is there to drop a word, and leaving the space from
/// each side of it would leave a gap where the word was.
pub open spec fn kept(
    s: Seq<char>,
    copied: int,
    start: int,
    end: int,
    write: Seq<char>,
) -> Seq<char> {
    let before = s.subrange(copied, start);
    if write.len() == 0 && before.len() > 0 && before.last() == ' ' && end < s.len() && s[end]
        == ' ' {
        before.drop_last()
    } else {
        before
    }
}

/// The text from `copied` on, with what the rules write in place of the matches.
pub open spec fn assembled(
    s: Seq<char>,
    words: Seq<WordModel>,
    rules: Seq<PreparedModel>,
    matches: Seq<Hit>,
    copied: int,
) -> Seq<char>
    decreases matches.len(),
{
    if matches.len() == 0 {
        s.skip(copied)
    } else {
        let rule = rules[matches[0].rule];
        let start = words[matches[0].word].start;
        let end = words[matches[0].word + width(rule) - 1].end;
        kept(s, copied, start, end, rule.write) + rule.write + assembled(
            s,
            words,
            rules,
            matches.skip(1),
            end,
        )
    }
}

/// A text with every rule applied that matches.
pub open spec fn rewritten(
    s: Seq<char>,
    words: Seq<WordModel>,
    rules: Seq<PreparedModel>,
) -> Seq<char> {
    assembled(s, words, rules, hits(s, words, rules, 0), 0)
}

/// Whether every rule has something to listen for.
pub open spec fn all_listen(rules: Seq<PreparedModel>) -> bool {
    forall|i: int| 0 <= i < rules.len() ==> (#[trigger] rules[i]).words.len() > 0
}

/// The first rule whose words run from `at`.
fn choose_rule(chars: &[char], words: &[Word], at: usize, rules: &[Prepared]) -> (found: Option<
    usize,
>)
    requires
        in_order(word_models(words@), chars@.len() as int),
        at <= words@.len(),
    ensures
        match found {
            Some(rule) => rule < rules@.len() && chosen(
                chars@,
                word_models(words@),
                at as int,
                rule_models(rules@),
                0,
            ) == Some(rule as int) && heard_at(
                chars@,
                word_models(words@),
                at as int,
                rules@[rule as int]@.words,
            ),
            None => chosen(chars@, word_models(words@), at as int, rule_models(rules@), 0) is None,
        },
{
    let ghost models = rule_models(rules@);
    let mut from: usize = 0;
    while from < rules.len()
        invariant
            in_order(word_models(words@), chars@.len() as int),
            at <= words@.len(),
            models == rule_models(rules@),
            from <= rules@.len(),
            chosen(chars@, word_models(words@), at as int, models, 0) == chosen(
                chars@,
                word_models(words@),
                at as int,
                models,
                from as int,
            ),
        decreases rules@.len() - from,
    {
        assert(models[from as int] == rules@[from as int]@);
        if matches_at(chars, words, at, &rules[from]) {
            return Some(from);
        }
        from += 1;
    }
    None
}

/// Copy the characters from `start` up to `end` to the end of a string.
fn push_chars(out: &mut String, chars: &[char], start: usize, end: usize)
    requires
        start <= end <= chars@.len(),
    ensures
        final(out)@ == old(out)@ + chars@.subrange(start as int, end as int),
{
    let mut at: usize = start;
    assert(out@ =~= old(out)@ + chars@.subrange(start as int, at as int));
    while at < end
        invariant
            start <= at <= end <= chars@.len(),
            out@ == old(out)@ + chars@.subrange(start as int, at as int),
        decreases end - at,
    {
        out.push(chars[at]);
        at += 1;
        assert(out@ =~= old(out)@ + chars@.subrange(start as int, at as int));
    }
}

/// Write out a text whose words have been found, with the rules applied.
pub fn rewrite(text: &str, words: &[Word], rules: &[Prepared]) -> (out: String)
    requires
        in_order(word_models(words@), text@.len() as int),
        all_listen(rule_models(rules@)),
    ensures
        out@ == rewritten(text@, word_models(words@), rule_models(rules@)),
{
    let chars = characters(text);
    let ghost s = text@;
    let ghost found = word_models(words@);
    let ghost ready = rule_models(rules@);
    let count: usize = words.len();
    let mut out = String::new();
    // Where we have copied up to, and which word we are looking at.
    let mut copied: usize = 0;
    let mut at: usize = 0;
    assert(out@ + rewritten(s, found, ready) =~= rewritten(s, found, ready));
    while at < count
        invariant
            chars@ == s,
            s == text@,
            found == word_models(words@),
            ready == rule_models(rules@),
            in_order(found, s.len() as int),
            all_listen(ready),
            count == words@.len(),
            at <= count,
            copied <= s.len(),
            at < count ==> copied <= found[at as int].start,
            out@ + assembled(s, found, ready, hits(s, found, ready, at as int), copied as int)
                == rewritten(s, found, ready),
        decreases count - at,
    {
        assert(found[at as int] == words@[at as int]@);
        let ghost matches = hits(s, found, ready, at as int);
        let ghost done = out@;
        match choose_rule(chars.as_slice(), words, at, rules) {
            Some(rule) => {
                assert(ready[rule as int] == rules@[rule as int]@);
                let last: usize = at + rules[rule].words.len() - 1;
                assert(found[last as int] == words@[last as int]@);
                let start: usize = words[at].start;
                let end: usize = words[last].end;
                assert(start <= end) by {
                    if at < last {
                        assert(found[at as int].end <= found[last as int].start);
                    }
                }
                let drop = rules[rule].write.as_str().is_empty() && start > copied && chars[start - 1]
                    == ' ' && end < chars.len() && chars[end] == ' ';
                push_chars(
                    &mut out,
                    chars.as_slice(),
                    copied,
                    if drop {
                        start - 1
                    } else {
                        start
                    },
                );
                out.append(rules[rule].write.as_str());
                proof {
                    let before = s.subrange(copied as int, start as int);
                    let write = ready[rule as int].write;
                    if start > copied {
                        assert(before.last() == s[start - 1]);
                        assert(before.drop_last() =~= s.subrange(copied as int, start - 1));
                    }
                    let rest = hits(s, found, ready, last + 1);
                    assert(matches =~= seq![Hit { word: at as int, rule: rule as int }] + rest);
                    assert(matches.skip(1) =~= rest);
                    let piece = kept(s, copied as int, start as int, end as int, write);
                    assert(out@ =~= done + piece + write);
                    let tail = assembled(s, found, ready, rest, end as int);
                    assert(done + (piece + write + tail) =~= done + piece + write + tail);
                    if last + 1 < count {
                        assert(found[last as int].end <= found[last + 1].start);
                    }
                }
                copied = end;
                at = last + 1;
            },
            None => {
                proof {
                    if at + 1 < count {
                        assert(found[at as int].end <= found[at + 1].start);
                    }
                }
                at += 1;
            },
        }
    }
    push_chars(&mut out, chars.as_slice(), copied, chars.len());
    assert(s.skip(copied as int) =~= s.subrange(copied as int, s.len() as int));
    out
}

/// The runs of marked positions lie one after the other.
pub proof fn runs_are_in_order(marks: Seq<bool>, at: int)
    requires
        0 <= at <= marks.len(),
    ensures
        forall|i: int|
            0 <= i < runs(marks, at).len() ==> at <= (#[trigger] runs(marks, at)[i]).0 < runs(
                marks,
                at,
            )[i].1 <= marks.len(),
        forall|i: int, j: int|
            0 <= i < j < runs(marks, at).len() ==> (#[trigger] runs(marks, at)[i]).1 <= (
            #[trigger] runs(marks, at)[j]).0,
    decreases marks.len() - at,
{
    if at < marks.len() {
        if marks[at] {
            let end = run_end(marks, at);
            run_end_is_past(marks, at);
            runs_are_in_order(marks, end);
            let rest = runs(marks, end);
            let all = runs(marks, at);
            assert(all =~= seq![(at, end)] + rest);
            assert(all[0] == (at, end));
            assert forall|i: int| 0 <= i < all.len() implies at <= (#[trigger] all[i]).0 < all[i].1
                <= marks.len() by {
                if i > 0 {
                    assert(all[i] == rest[i - 1]);
                }
            }
            assert forall|i: int, j: int| 0 <= i < j < all.len() implies (#[trigger] all[i]).1 <= (
            #[trigger] all[j]).0 by {
                assert(all[j] == rest[j - 1]);
                if i > 0 {
                    assert(all[i] == rest[i - 1]);
                }
            }
        } else {
            runs_are_in_order(marks, at + 1);
            assert(runs(marks, at) == runs(marks, at + 1));
        }
    }
}

/// The words of a text lie one after the other in it.
pub proof fn words_are_in_order(s: Seq<char>)
    ensures
        in_order(words_of(s), s.len() as int),
{
    let found = runs(marked(s), 0);
    runs_are_in_order(marked(s), 0);
    let words = words_of(s);
    assert forall|i: int| 0 <= i < words.len() implies 0 <= (#[trigger] words[i]).start
        <= words[i].end <= s.len() by {
        assert(words[i] == word_between(s, found[i]));
    }
    assert forall|i: int, j: int| 0 <= i < j < words.len() implies (#[trigger] words[i]).end <= (
    #[trigger] words[j]).start by {
        assert(words[i] == word_between(s, found[i]));
        assert(words[j] == word_between(s, found[j]));
    }
}

/// Every run is marked throughout, with no marked position just before or after it.
pub proof fn runs_are_whole(marks: Seq<bool>, at: int)
    requires
        0 <= at <= marks.len(),
        at > 0 && at < marks.len() && marks[at] ==> !marks[at - 1],
    ensures
        forall|i: int|
            0 <= i < runs(marks, at).len() ==> {
                let run = #[trigger] runs(marks, at)[i];
                &&& at <= run.0 < run.1 <= marks.len()
                &&& run.0 > 0 ==> !marks[run.0 - 1]
                &&& run.1 < marks.len() ==> !marks[run.1]
                &&& forall|k: int| run.0 <= k < run.1 ==> marks[k]
            },
    decreases marks.len() - at,
{
    if at < marks.len() {
        if marks[at] {
            let end = run_end(marks, at);
            run_end_is_past(marks, at);
            runs_are_whole(marks, end);
            let rest = runs(marks, end);
            let all = runs(marks, at);
            assert(all =~= seq![(at, end)] + rest);
            assert forall|i: int| 0 <= i < all.len() implies {
                let run = #[trigger] all[i];
                &&& at <= run.0 < run.1 <= marks.len()
                &&& run.0 > 0 ==> !marks[run.0 - 1]
                &&& run.1 < marks.len() ==> !marks[run.1]
                &&& forall|k: int| run.0 <= k < run.1 ==> marks[k]
            } by {
                if i > 0 {
                    assert(all[i] == rest[i - 1]);
                } else {
                    assert(all[0] == (at, end));
                }
            }
        } else {
            runs_are_whole(marks, at + 1);
            assert(runs(marks, at) == runs(marks, at + 1));
        }
    }
}

proof fn an_apostrophe_is_never_first(s: Seq<char>, at: int)
    requires
        0 <= at < s.len(),
        in_word(s, at),
        at > 0 ==> !in_word(s, at - 1),
    ensures
        alphanumeric(s[at]),
{
    if !alphanumeric(s[at]) {
        let i = choose|i: int|
            0 <= i < at && alphanumeric(#[trigger] s[i]) && forall|k: int|
                i < k < at ==> apostrophe(#[trigger] s[k]);
        let j = choose|j: int|
            at < j < s.len() && alphanumeric(#[trigger] s[j]) && forall|k: int|
                at < k < j ==> apostrophe(#[trigger] s[k]);
        if i < at - 1 {
            assert(apostrophe(s[at - 1]));
            assert(follows_letter(s, at - 1));
            assert forall|k: int| at - 1 < k < j implies apostrophe(#[trigger] s[k]) by {}
            assert(leads_to_letter(s, at - 1));
        }
    }
}

proof fn an_apostrophe_is_never_last(s: Seq<char>, at: int)
    requires
        0 <= at < s.len(),
        in_word(s, at),
        at + 1 < s.len() ==> !in_word(s, at + 1),
    ensures
        alphanumeric(s[at]),
{
    if !alphanumeric(s[at]) {
        let i = choose|i: int|
            0 <= i < at && alphanumeric(#[trigger] s[i]) && forall|k: int|
                i < k < at ==> apostrophe(#[trigger] s[k]);
        let j = choose|j: int|
            at < j < s.len() && alphanumeric(#[trigger] s[j]) && forall|k: int|
                at < k < j ==> apostrophe(#[trigger] s[k]);
        if j > at + 1 {
            assert(apostrophe(s[at + 1]));
            assert(leads_to_letter(s, at + 1));
            assert forall|k: int| i < k < at + 1 implies apostrophe(#[trigger] s[k]) by {}
            assert(follows_letter(s, at + 1));
        }
    }
}

/// A word starts and ends with a letter or digit, and has nothing but letters,
/// digits and apostrophes between the two: quotation marks around it are no part
/// of it.
pub proof fn words_are_bounded_by_letters(s: Seq<char>, at: int)
    requires
        0 <= at < words_of(s).len(),
    ensures
        ({
            let word = words_of(s)[at];
            &&& 0 <= word.start < word.end <= s.len()
            &&& alphanumeric(s[word.start])
            &&& alphanumeric(s[word.end - 1])
            &&& forall|k: int|
                word.start <= k < word.end ==> alphanumeric(#[trigger] s[k]) || apostrophe(s[k])
            &&& word.lower == lowercase(s.subrange(word.start, word.end))
        }),
{
    let marks = marked(s);
    let run = runs(marks, 0)[at];
    runs_are_whole(marks, 0);
    assert(words_of(s)[at] == word_between(s, run));
    assert(marks[run.0]);
    assert(marks[run.1 - 1]);
    an_apostrophe_is_never_first(s, run.0);
    an_apostrophe_is_never_last(s, run.1 - 1);
    assert forall|k: int| run.0 <= k < run.1 implies alphanumeric(#[trigger] s[k]) || apostrophe(
        s[k],
    ) by {
        assert(marks[k]);
    }
}

/// A rule with nothing to listen for is never among the usable ones.
pub proof fn usable_rules_listen(rules: Seq<PreparedModel>)
    ensures
        all_listen(usable(rules)),
{
    broadcast use vstd::seq_lib::group_filter_ensures;

    let keep = |rule: PreparedModel| rule.words.len() > 0;
    let rank = |rule: PreparedModel| length(rule);
    let kept = rules.filter(keep);
    assert forall|i: int| 0 <= i < kept.len() implies keep(#[trigger] kept[i]) by {
        rules.lemma_filter_pred(keep, i);
    }
    sorting_keeps_a_property(kept, rank, keep);
    let sorted = usable(rules);
    assert forall|i: int| 0 <= i < sorted.len() implies (#[trigger] sorted[i]).words.len() > 0 by {
        assert(keep(sorted[i]));
    }
}

/// Where no rule matches, the text is left alone.
pub proof fn nothing_matched_nothing_changed(
    s: Seq<char>,
    words: Seq<WordModel>,
    rules: Seq<PreparedModel>,
)
    requires
        hits(s, words, rules, 0).len() == 0,
    ensures
        rewritten(s, words, rules) == s,
{
    assert(s.skip(0) =~= s);
}

proof fn no_rules_no_hits(s: Seq<char>, words: Seq<WordModel>, at: int)
    ensures
        hits(s, words, Seq::empty(), at).len() == 0,
    decreases words.len() - at,
{
    if 0 <= at < words.len() {
        no_rules_no_hits(s, words, at + 1);
    }
}

/// Rewrite a transcript with every rule that matches.
///
/// Longer phrases win, so a rule for "minus minus" is not spoiled by one for
/// "minus". What a rule writes is never matched again, so rules cannot chain
/// into each other.
pub fn apply(text: &str, rules: &[Replacement]) -> (out: String)
    ensures
        out@ == rewritten(text@, words_of(text@), prepared_rules(rules@)),
{
    let ready = prepare(rules);
    if ready.len() == 0 || text.is_empty() {
        proof {
            if ready.len() == 0 {
                assert(rule_models(ready@) =~= Seq::empty());
                no_rules_no_hits(text@, words_of(text@), 0);
            } else {
                assert(words_of(text@).len() == 0);
            }
            nothing_matched_nothing_changed(text@, words_of(text@), prepared_rules(rules@));
        }
        return text.to_owned();
    }
    let found = words(text);
    proof {
        words_are_in_order(text@);
        usable_rules_listen(rules@.map_values(|rule: Replacement| prepared(rule)));
    }
    rewrite(text, found.as_slice(), ready.as_slice())
}

// --- what the rules keep to --------------------------------------------------

proof fn chosen_is_heard(
    s: Seq<char>,
    words: Seq<WordModel>,
    at: int,
    rules: Seq<PreparedModel>,
    from: int,
)
    requires
        0 <= from,
    ensures
        chosen(s, words, at, rules, from) matches Some(rule) ==> {
            &&& from <= rule < rules.len()
            &&& heard_at(s, words, at, rules[rule].words)
            &&& forall|other: int|
                from <= other < rule ==> !heard_at(s, words, at, (#[trigger] rules[other]).words)
        },
        chosen(s, words, at, rules, from) is None ==> forall|other: int|
            from <= other < rules.len() ==> !heard_at(s, words, at, (#[trigger] rules[other]).words),
    decreases rules.len() - from,
{
    if from < rules.len() && !heard_at(s, words, at, rules[from].words) {
        chosen_is_heard(s, words, at, rules, from + 1);
    }
}

/// A rule applies wherever one can: the place is passed over only where no rule's
/// words run from it.
pub proof fn a_match_is_never_passed_over(
    s: Seq<char>,
    words: Seq<WordModel>,
    at: int,
    rules: Seq<PreparedModel>,
)
    ensures
        chosen(s, words, at, rules, 0) is None <==> forall|other: int|
            0 <= other < rules.len() ==> !heard_at(s, words, at, (#[trigger] rules[other]).words),
{
    chosen_is_heard(s, words, at, rules, 0);
}

/// The longer phrase wins: of all the rules whose words run from one place, the
/// one that applies has the most words, and comes first among those with as
/// many.
pub proof fn the_longest_phrase_wins(
    s: Seq<char>,
    words: Seq<WordModel>,
    at: int,
    rules: Seq<Replacement>,
    other: int,
)
    requires
        0 <= other < prepared_rules(rules).len(),
        heard_at(s, words, at, prepared_rules(rules)[other].words),
    ensures
        chosen(s, words, at, prepared_rules(rules), 0) matches Some(rule) && {
            &&& 0 <= rule <= other
            &&& prepared_rules(rules)[rule].words.len() >= prepared_rules(rules)[other].words.len()
        },
{
    let ready = prepared_rules(rules);
    let rank = |rule: PreparedModel| length(rule);
    let models = rules.map_values(|rule: Replacement| prepared(rule));
    sorting_orders(models.filter(|rule: PreparedModel| rule.words.len() > 0), rank);
    chosen_is_heard(s, words, at, ready, 0);
    let rule = chosen(s, words, at, ready, 0)->0;
    assert(rank(ready[rule]) >= rank(ready[other]));
}

/// The order in which rules of different lengths are written down makes no
/// difference to the list a transcript meets: only that of the rules with as many
/// words shows in it.
pub proof fn the_order_of_different_lengths_is_free(rules: Seq<Replacement>, other: Seq<Replacement>)
    requires
        same_by_key(
            rules.map_values(|rule: Replacement| prepared(rule)).filter(
                |rule: PreparedModel| rule.words.len() > 0,
            ),
            other.map_values(|rule: Replacement| prepared(rule)).filter(
                |rule: PreparedModel| rule.words.len() > 0,
            ),
            |rule: PreparedModel| length(rule),
        ),
    ensures
        prepared_rules(rules) == prepared_rules(other),
{
    sorting_ignores_the_order_of_keys(
        rules.map_values(|rule: Replacement| prepared(rule)).filter(
            |rule: PreparedModel| rule.words.len() > 0,
        ),
        other.map_values(|rule: Replacement| prepared(rule)).filter(
            |rule: PreparedModel| rule.words.len() > 0,
        ),
        |rule: PreparedModel| length(rule),
    );
}

/// Whether two texts and two lists of rules sound the same: word for word, with
/// the sentences ending in the same places.
pub open spec fn sound_alike(
    s: Seq<char>,
    words: Seq<WordModel>,
    rules: Seq<PreparedModel>,
    t: Seq<char>,
    others: Seq<WordModel>,
    other_rules: Seq<PreparedModel>,
) -> bool {
    &&& words.len() == others.len()
    &&& forall|i: int| 0 <= i < words.len() ==> (#[trigger] words[i]).lower == others[i].lower
    &&& forall|i: int|
        0 < i < words.len() ==> sentence_ends(
            s.subrange(words[i - 1].end, (#[trigger] words[i]).start),
        ) == sentence_ends(t.subrange(others[i - 1].end, others[i].start))
    &&& rules.len() == other_rules.len()
    &&& forall|i: int| 0 <= i < rules.len() ==> (#[trigger] rules[i]).words == other_rules[i].words
}

proof fn alike_is_heard_alike(
    s: Seq<char>,
    words: Seq<WordModel>,
    t: Seq<char>,
    others: Seq<WordModel>,
    at: int,
    listened: Seq<Seq<char>>,
)
    requires
        0 <= at,
        sound_alike(s, words, Seq::empty(), t, others, Seq::empty()),
        heard_at(s, words, at, listened),
    ensures
        heard_at(t, others, at, listened),
{
    assert forall|k: int| 0 <= k < listened.len() implies others[at + k].lower
        == #[trigger] listened[k] by {
        assert(words[at + k].lower == listened[k]);
    }
    assert forall|k: int| 0 < k < listened.len() implies !sentence_ends(
        t.subrange(others[at + k - 1].end, (#[trigger] others[at + k]).start),
    ) by {
        assert(!sentence_ends(s.subrange(words[at + k - 1].end, words[at + k].start)));
    }
}

proof fn alike_is_chosen_alike(
    s: Seq<char>,
    words: Seq<WordModel>,
    rules: Seq<PreparedModel>,
    t: Seq<char>,
    others: Seq<WordModel>,
    other_rules: Seq<PreparedModel>,
    at: int,
    from: int,
)
    requires
        0 <= at,
        0 <= from,
        sound_alike(s, words, rules, t, others, other_rules),
    ensures
        chosen(s, words, at, rules, from) == chosen(t, others, at, other_rules, from),
    decreases rules.len() - from,
{
    if from < rules.len() {
        assert(rules[from].words == other_rules[from].words);
        if heard_at(s, words, at, rules[from].words) {
            alike_is_heard_alike(s, words, t, others, at, rules[from].words);
        } else if heard_at(t, others, at, rules[from].words) {
            assert(sound_alike(t, others, Seq::empty(), s, words, Seq::empty())) by {
                assert forall|i: int| 0 <= i < others.len() implies (#[trigger] others[i]).lower
                    == words[i].lower by {
                    assert(words[i].lower == others[i].lower);
                }
                assert forall|i: int| 0 < i < others.len() implies sentence_ends(
                    t.subrange(others[i - 1].end, (#[trigger] others[i]).start),
                ) == sentence_ends(s.subrange(words[i - 1].end, words[i].start)) by {
                    assert(words[i].lower == others[i].lower);
                }
            }
            alike_is_heard_alike(t, others, s, words, at, rules[from].words);
        }
        alike_is_chosen_alike(s, words, rules, t, others, other_rules, at, from + 1);
    }
}

/// What sounds the same is matched the same. So the model's own capitals, and the
/// punctuation it puts between words, do not get in the way; and what a rule
/// writes is never matched, since changing what the rules write changes no match.
pub proof fn only_what_is_said_is_matched(
    s: Seq<char>,
    words: Seq<WordModel>,
    rules: Seq<PreparedModel>,
    t: Seq<char>,
    others: Seq<WordModel>,
    other_rules: Seq<PreparedModel>,
    at: int,
)
    requires
        0 <= at,
        sound_alike(s, words, rules, t, others, other_rules),
    ensures
        hits(s, words, rules, at) == hits(t, others, other_rules, at),
    decreases
            (if at < words.len() {
                words.len() - at
            } else {
                0
            }),
{
    if at < words.len() {
        alike_is_chosen_alike(s, words, rules, t, others, other_rules, at, 0);
        chosen_is_heard(s, words, at, rules, 0);
        match chosen(s, words, at, rules, 0) {
            Some(rule) => {
                assert(rules[rule].words == other_rules[rule].words);
                only_what_is_said_is_matched(
                    s,
                    words,
                    rules,
                    t,
                    others,
                    other_rules,
                    at + width(rules[rule]),
                );
            },
            None => {
                only_what_is_said_is_matched(s, words, rules, t, others, other_rules, at + 1);
            },
        }
    }
}

/// Every match is one of a rule whose words are there, whole words and all in one
/// sentence, and no two matches share a word.
pub proof fn matches_are_whole_phrases(
    s: Seq<char>,
    words: Seq<WordModel>,
    rules: Seq<PreparedModel>,
    at: int,
)
    requires
        0 <= at,
        all_listen(rules),
    ensures
        forall|i: int|
            0 <= i < hits(s, words, rules, at).len() ==> {
                let hit = #[trigger] hits(s, words, rules, at)[i];
                &&& at <= hit.word
                &&& 0 <= hit.rule < rules.len()
                &&& heard_at(s, words, hit.word, rules[hit.rule].words)
            },
        forall|i: int, j: int|
            0 <= i < j < hits(s, words, rules, at).len() ==> {
                let first = #[trigger] hits(s, words, rules, at)[i];
                let second = #[trigger] hits(s, words, rules, at)[j];
                first.word + rules[first.rule].words.len() <= second.word
            },
    decreases
            (if at < words.len() {
                words.len() - at
            } else {
                0
            }),
{
    if at < words.len() {
        chosen_is_heard(s, words, at, rules, 0);
        match chosen(s, words, at, rules, 0) {
            Some(rule) => {
                let next = at + width(rules[rule]);
                matches_are_whole_phrases(s, words, rules, next);
                let rest = hits(s, words, rules, next);
                let all = hits(s, words, rules, at);
                assert(all =~= seq![Hit { word: at, rule }] + rest);
                assert(all[0] == Hit { word: at, rule });
                assert forall|i: int| 0 <= i < all.len() implies {
                    let hit = #[trigger] all[i];
                    &&& at <= hit.word
                    &&& 0 <= hit.rule < rules.len()
                    &&& heard_at(s, words, hit.word, rules[hit.rule].words)
                } by {
                    if i > 0 {
                        assert(all[i] == rest[i - 1]);
                    }
                }
                assert forall|i: int, j: int| 0 <= i < j < all.len() implies (#[trigger] all[i]).word
                    + rules[all[i].rule].words.len() <= (#[trigger] all[j]).word by {
                    assert(all[j] == rest[j - 1]);
                    if i > 0 {
                        assert(all[i] == rest[i - 1]);
                    }
                }
            },
            None => {
                matches_are_whole_phrases(s, words, rules, at + 1);
                assert(hits(s, words, rules, at) == hits(s, words, rules, at + 1));
            },
        }
    }
}

/// A rule with nothing to listen for changes nothing: the rules without it come
/// to the same.
pub proof fn a_silent_rule_is_no_rule(before: Seq<Replacement>, silent: Replacement, after: Seq<Replacement>)
    requires
        words_of(silent.say@).len() == 0,
    ensures
        prepared_rules(before.push(silent) + after) == prepared_rules(before + after),
{
    let model = |rule: Replacement| prepared(rule);
    let keep = |rule: PreparedModel| rule.words.len() > 0;
    let first = before.map_values(model);
    let last = after.map_values(model);
    assert((before.push(silent) + after).map_values(model) =~= first.push(prepared(silent)) + last);
    assert((before + after).map_values(model) =~= first + last);
    Seq::filter_distributes_over_add(first.push(prepared(silent)), last, keep);
    Seq::filter_distributes_over_add(first, last, keep);
    reveal_with_fuel(Seq::filter, 1);
    assert(first.push(prepared(silent)).drop_last() =~= first);
    assert(prepared(silent).words.len() == 0);
}

/// A rule that writes nothing takes one of the two spaces around what it drops
/// with it.
pub proof fn a_dropped_word_leaves_no_gap(
    s: Seq<char>,
    words: Seq<WordModel>,
    rules: Seq<PreparedModel>,
)
    requires
        in_order(words, s.len() as int),
        all_listen(rules),
        hits(s, words, rules, 0).len() == 1,
        rules[hits(s, words, rules, 0)[0].rule].write.len() == 0,
    ensures
        ({
            let hit = hits(s, words, rules, 0)[0];
            let start = words[hit.word].start;
            let end = words[hit.word + rules[hit.rule].words.len() - 1].end;
            &&& start > 0 && end < s.len() && s[start - 1] == ' ' && s[end] == ' ' ==> rewritten(
                s,
                words,
                rules,
            ) == s.take(start - 1) + s.skip(end)
            &&& !(start > 0 && end < s.len() && s[start - 1] == ' ' && s[end] == ' ') ==> rewritten(
                s,
                words,
                rules,
            ) == s.take(start) + s.skip(end)
        }),
{
    let matches = hits(s, words, rules, 0);
    matches_are_whole_phrases(s, words, rules, 0);
    let hit = matches[0];
    let rule = rules[hit.rule];
    let start = words[hit.word].start;
    let end = words[hit.word + width(rule) - 1].end;
    assert(rule.words.len() > 0);
    assert(matches.skip(1) =~= Seq::empty());
    assert(rule.write =~= Seq::empty());
    let before = s.subrange(0, start);
    assert(before =~= s.take(start));
    if start > 0 {
        assert(before.last() == s[start - 1]);
        assert(before.drop_last() =~= s.take(start - 1));
    }
    assert(assembled(s, words, rules, matches.skip(1), end) == s.skip(end));
    assert(rewritten(s, words, rules) =~= kept(s, 0, start, end, rule.write) + s.skip(end));
}

// --- sentences apart ---------------------------------------------------------

proof fn marks_part(a: Seq<char>, c: char, b: Seq<char>)
    requires
        !alphanumeric(c),
        !apostrophe(c),
    ensures
        marked(a.push(c) + b) == marked(a).push(false) + marked(b),
{
    let s = a.push(c) + b;
    let off = a.len() + 1;
    assert forall|at: int| 0 <= at < a.len() implies in_word(s, at) == in_word(a, at) by {
        assert(s[at] == a[at]);
        assert(s[a.len() as int] == c);
        if follows_letter(s, at) {
            let i = choose|i: int|
                0 <= i < at && alphanumeric(#[trigger] s[i]) && forall|k: int|
                    i < k < at ==> apostrophe(#[trigger] s[k]);
            assert(alphanumeric(a[i]));
            assert forall|k: int| i < k < at implies apostrophe(#[trigger] a[k]) by {
                assert(apostrophe(s[k]));
            }
        }
        if follows_letter(a, at) {
            let i = choose|i: int|
                0 <= i < at && alphanumeric(#[trigger] a[i]) && forall|k: int|
                    i < k < at ==> apostrophe(#[trigger] a[k]);
            assert(alphanumeric(s[i]));
            assert forall|k: int| i < k < at implies apostrophe(#[trigger] s[k]) by {
                assert(apostrophe(a[k]));
            }
        }
        if leads_to_letter(s, at) {
            let j = choose|j: int|
                at < j < s.len() && alphanumeric(#[trigger] s[j]) && forall|k: int|
                    at < k < j ==> apostrophe(#[trigger] s[k]);
            if j > a.len() {
                assert(apostrophe(s[a.len() as int]));
            }
            assert(alphanumeric(a[j]));
            assert forall|k: int| at < k < j implies apostrophe(#[trigger] a[k]) by {
                assert(apostrophe(s[k]));
            }
        }
        if leads_to_letter(a, at) {
            let j = choose|j: int|
                at < j < a.len() && alphanumeric(#[trigger] a[j]) && forall|k: int|
                    at < k < j ==> apostrophe(#[trigger] a[k]);
            assert(alphanumeric(s[j]));
            assert forall|k: int| at < k < j implies apostrophe(#[trigger] s[k]) by {
                assert(apostrophe(a[k]));
            }
        }
    }
    assert forall|at: int| 0 <= at < b.len() implies in_word(s, off + at) == in_word(b, at) by {
        assert(s[off + at] == b[at]);
        assert(s[a.len() as int] == c);
        if follows_letter(s, off + at) {
            let i = choose|i: int|
                0 <= i < off + at && alphanumeric(#[trigger] s[i]) && forall|k: int|
                    i < k < off + at ==> apostrophe(#[trigger] s[k]);
            if i < a.len() {
                assert(apostrophe(s[a.len() as int]));
            }
            assert(alphanumeric(b[i - off]));
            assert forall|k: int| i - off < k < at implies apostrophe(#[trigger] b[k]) by {
                assert(apostrophe(s[off + k]));
            }
        }
        if follows_letter(b, at) {
            let i = choose|i: int|
                0 <= i < at && alphanumeric(#[trigger] b[i]) && forall|k: int|
                    i < k < at ==> apostrophe(#[trigger] b[k]);
            assert(alphanumeric(s[off + i]));
            assert forall|k: int| off + i < k < off + at implies apostrophe(#[trigger] s[k]) by {
                assert(apostrophe(b[k - off]));
            }
        }
        if leads_to_letter(s, off + at) {
            let j = choose|j: int|
                off + at < j < s.len() && alphanumeric(#[trigger] s[j]) && forall|k: int|
                    off + at < k < j ==> apostrophe(#[trigger] s[k]);
            assert(alphanumeric(b[j - off]));
            assert forall|k: int| at < k < j - off implies apostrophe(#[trigger] b[k]) by {
                assert(apostrophe(s[off + k]));
            }
        }
        if leads_to_letter(b, at) {
            let j = choose|j: int|
                at < j < b.len() && alphanumeric(#[trigger] b[j]) && forall|k: int|
                    at < k < j ==> apostrophe(#[trigger] b[k]);
            assert(alphanumeric(s[off + j]));
            assert forall|k: int| off + at < k < off + j implies apostrophe(#[trigger] s[k]) by {
                assert(apostrophe(b[k - off]));
            }
        }
    }
    assert forall|at: int| 0 <= at < s.len() implies #[trigger] marked(s)[at] == (marked(a).push(
        false,
    ) + marked(b))[at] by {
        if at > a.len() {
            assert(in_word(s, off + (at - off)) == in_word(b, at - off));
        } else if at == a.len() {
            assert(s[at] == c);
        }
    }
    assert(marked(s) =~= marked(a).push(false) + marked(b));
}

proof fn run_end_before(m: Seq<bool>, n: Seq<bool>, at: int)
    requires
        0 <= at <= m.len(),
    ensures
        run_end(m.push(false) + n, at) == run_end(m, at),
    decreases m.len() - at,
{
    let all = m.push(false) + n;
    if at < m.len() {
        assert(all[at] == m[at]);
        if m[at] {
            run_end_before(m, n, at + 1);
        }
    } else {
        assert(!all[at]);
    }
}

proof fn run_end_behind(m: Seq<bool>, n: Seq<bool>, at: int)
    requires
        0 <= at <= n.len(),
    ensures
        run_end(m.push(false) + n, m.len() + 1 + at) == m.len() + 1 + run_end(n, at),
    decreases n.len() - at,
{
    let all = m.push(false) + n;
    if at < n.len() {
        assert(all[m.len() + 1 + at] == n[at]);
        if n[at] {
            run_end_behind(m, n, at + 1);
        }
    }
}

/// Runs moved along by some positions.
pub open spec fn runs_along(found: Seq<(int, int)>, by: int) -> Seq<(int, int)> {
    found.map_values(|run: (int, int)| (run.0 + by, run.1 + by))
}

proof fn runs_behind(m: Seq<bool>, n: Seq<bool>, at: int)
    requires
        0 <= at <= n.len(),
    ensures
        runs(m.push(false) + n, m.len() + 1 + at) == runs_along(runs(n, at), m.len() as int + 1),
    decreases n.len() - at,
{
    let all = m.push(false) + n;
    let off = m.len() as int + 1;
    if at < n.len() {
        assert(all[off + at] == n[at]);
        if n[at] {
            let end = run_end(n, at);
            run_end_is_past(n, at);
            run_end_behind(m, n, at);
            runs_behind(m, n, end);
            assert(runs(all, off + at) =~= seq![(off + at, off + end)] + runs(all, off + end));
            assert(runs_along(runs(n, at), off) =~= seq![(off + at, off + end)] + runs_along(
                runs(n, end),
                off,
            ));
        } else {
            runs_behind(m, n, at + 1);
        }
    } else {
        assert(runs_along(runs(n, at), off) =~= Seq::empty());
    }
}

proof fn runs_part(m: Seq<bool>, n: Seq<bool>, at: int)
    requires
        0 <= at <= m.len(),
    ensures
        runs(m.push(false) + n, at) == runs(m, at) + runs_along(runs(n, 0), m.len() as int + 1),
    decreases m.len() - at,
{
    let all = m.push(false) + n;
    let rest = runs_along(runs(n, 0), m.len() as int + 1);
    if at < m.len() {
        assert(all[at] == m[at]);
        if m[at] {
            let end = run_end(m, at);
            run_end_is_past(m, at);
            run_end_before(m, n, at);
            runs_part(m, n, end);
            assert(runs(all, at) =~= seq![(at, end)] + (runs(m, end) + rest));
            assert(seq![(at, end)] + (runs(m, end) + rest) =~= runs(m, at) + rest);
        } else {
            runs_part(m, n, at + 1);
        }
    } else {
        assert(!all[at]);
        runs_behind(m, n, 0);
        assert(runs(m, at) + rest =~= rest);
    }
}

/// Words moved along by some characters.
pub open spec fn words_along(words: Seq<WordModel>, by: int) -> Seq<WordModel> {
    words.map_values(
        |word: WordModel|
            WordModel { start: word.start + by, end: word.end + by, lower: word.lower },
    )
}

proof fn words_part(a: Seq<char>, c: char, b: Seq<char>)
    requires
        !alphanumeric(c),
        !apostrophe(c),
    ensures
        words_of(a.push(c) + b) == words_of(a) + words_along(words_of(b), a.len() as int + 1),
{
    let s = a.push(c) + b;
    let off = a.len() as int + 1;
    marks_part(a, c, b);
    runs_part(marked(a), marked(b), 0);
    runs_are_in_order(marked(a), 0);
    runs_are_in_order(marked(b), 0);
    let first = runs(marked(a), 0);
    let last = runs(marked(b), 0);
    let all = runs(marked(s), 0);
    let parts = words_of(a) + words_along(words_of(b), off);
    assert forall|i: int| 0 <= i < all.len() implies #[trigger] words_of(s)[i] == parts[i] by {
        if i < first.len() {
            assert(all[i] == first[i]);
            assert(s.subrange(first[i].0, first[i].1) =~= a.subrange(first[i].0, first[i].1));
        } else {
            let k = i - first.len();
            assert(all[i] == (last[k].0 + off, last[k].1 + off));
            assert(s.subrange(last[k].0 + off, last[k].1 + off) =~= b.subrange(
                last[k].0,
                last[k].1,
            ));
            assert(words_of(b)[k] == word_between(b, last[k]));
        }
    }
    assert(words_of(s) =~= parts);
}

/// Whether a text and its words are those of two texts with the end of a sentence
/// between them.
spec fn parted(
    s: Seq<char>,
    words: Seq<WordModel>,
    a: Seq<char>,
    first: Seq<WordModel>,
    c: char,
    b: Seq<char>,
    last: Seq<WordModel>,
) -> bool {
    &&& s == a.push(c) + b
    &&& words == first + words_along(last, a.len() as int + 1)
    &&& in_order(first, a.len() as int)
    &&& in_order(last, b.len() as int)
    &&& ends_sentence(c)
}

proof fn heard_before(
    s: Seq<char>,
    words: Seq<WordModel>,
    a: Seq<char>,
    first: Seq<WordModel>,
    c: char,
    b: Seq<char>,
    last: Seq<WordModel>,
    at: int,
    listened: Seq<Seq<char>>,
)
    requires
        parted(s, words, a, first, c, b, last),
        0 <= at < first.len(),
        listened.len() > 0,
    ensures
        heard_at(s, words, at, listened) == heard_at(a, first, at, listened),
{
    let off = a.len() as int + 1;
    assert(forall|i: int| 0 <= i < first.len() ==> words[i] == #[trigger] first[i]);
    assert forall|i: int| 0 < i < first.len() implies s.subrange(
        words[i - 1].end,
        words[i].start,
    ) == a.subrange((#[trigger] first[i - 1]).end, first[i].start) by {
        assert(first[i - 1].end <= first[i].start <= first[i].end);
        assert(s.subrange(first[i - 1].end, first[i].start) =~= a.subrange(
            first[i - 1].end,
            first[i].start,
        ));
    }
    if heard_at(s, words, at, listened) {
        if at + listened.len() > first.len() {
            // Its words would run over the end of the sentence.
            let over = first.len() - at;
            assert(words[at + over] == words_along(last, off)[0]);
            assert(last[0].start >= 0);
            let between = s.subrange(words[at + over - 1].end, words[at + over].start);
            let i = a.len() - words[at + over - 1].end;
            assert(between[i] == c);
            assert(ends_sentence(between[i]));
            assert(!sentence_ends(s.subrange(words[at + over - 1].end, words[at + over].start)));
        }
        assert forall|k: int| 0 <= k < listened.len() implies first[at + k].lower
            == #[trigger] listened[k] by {
            assert(words[at + k].lower == listened[k]);
        }
        assert forall|k: int| 0 < k < listened.len() implies !sentence_ends(
            a.subrange(first[at + k - 1].end, (#[trigger] first[at + k]).start),
        ) by {
            assert(!sentence_ends(s.subrange(words[at + k - 1].end, words[at + k].start)));
            assert(first[at + k - 1] == words[at + k - 1]);
        }
    }
    if heard_at(a, first, at, listened) {
        assert forall|k: int| 0 <= k < listened.len() implies words[at + k].lower
            == #[trigger] listened[k] by {
            assert(first[at + k].lower == listened[k]);
        }
        assert forall|k: int| 0 < k < listened.len() implies !sentence_ends(
            s.subrange(words[at + k - 1].end, (#[trigger] words[at + k]).start),
        ) by {
            assert(!sentence_ends(a.subrange(first[at + k - 1].end, first[at + k].start)));
            assert(first[at + k - 1] == words[at + k - 1]);
        }
    }
}

proof fn heard_behind(
    s: Seq<char>,
    words: Seq<WordModel>,
    a: Seq<char>,
    first: Seq<WordModel>,
    c: char,
    b: Seq<char>,
    last: Seq<WordModel>,
    at: int,
    listened: Seq<Seq<char>>,
)
    requires
        parted(s, words, a, first, c, b, last),
        0 <= at < last.len(),
    ensures
        heard_at(s, words, first.len() + at, listened) == heard_at(b, last, at, listened),
{
    let off = a.len() as int + 1;
    let count = first.len() as int;
    assert forall|i: int| 0 <= i < last.len() implies words[count + i] == (WordModel {
        start: (#[trigger] last[i]).start + off,
        end: last[i].end + off,
        lower: last[i].lower,
    }) by {
        assert(words[count + i] == words_along(last, off)[i]);
    }
    assert forall|i: int| 0 < i < last.len() implies s.subrange(
        words[count + i - 1].end,
        words[count + i].start,
    ) == b.subrange((#[trigger] last[i - 1]).end, last[i].start) by {
        assert(last[i - 1].end <= last[i].start <= last[i].end);
        assert(words[count + (i - 1)].end == last[i - 1].end + off);
        assert(s.subrange(last[i - 1].end + off, last[i].start + off) =~= b.subrange(
            last[i - 1].end,
            last[i].start,
        ));
    }
    if heard_at(s, words, count + at, listened) {
        assert forall|k: int| 0 <= k < listened.len() implies last[at + k].lower
            == #[trigger] listened[k] by {
            assert(words[count + at + k].lower == listened[k]);
            assert(words[count + (at + k)].lower == last[at + k].lower);
        }
        assert forall|k: int| 0 < k < listened.len() implies !sentence_ends(
            b.subrange(last[at + k - 1].end, (#[trigger] last[at + k]).start),
        ) by {
            assert(!sentence_ends(
                s.subrange(words[count + at + k - 1].end, words[count + at + k].start),
            ));
            assert(last[at + k - 1].end + off == words[count + (at + k - 1)].end);
        }
    }
    if heard_at(b, last, at, listened) {
        assert forall|k: int| 0 <= k < listened.len() implies words[count + at + k].lower
            == #[trigger] listened[k] by {
            assert(last[at + k].lower == listened[k]);
            assert(words[count + (at + k)].lower == last[at + k].lower);
        }
        assert forall|k: int| 0 < k < listened.len() implies !sentence_ends(
            s.subrange(words[count + at + k - 1].end, (#[trigger] words[count + at + k]).start),
        ) by {
            assert(!sentence_ends(b.subrange(last[at + k - 1].end, last[at + k].start)));
            assert(last[at + k - 1].end + off == words[count + (at + k - 1)].end);
        }
    }
}

proof fn chosen_before(
    s: Seq<char>,
    words: Seq<WordModel>,
    a: Seq<char>,
    first: Seq<WordModel>,
    c: char,
    b: Seq<char>,
    last: Seq<WordModel>,
    at: int,
    rules: Seq<PreparedModel>,
    from: int,
)
    requires
        parted(s, words, a, first, c, b, last),
        all_listen(rules),
        0 <= at < first.len(),
        0 <= from,
    ensures
        chosen(s, words, at, rules, from) == chosen(a, first, at, rules, from),
    decreases rules.len() - from,
{
    if from < rules.len() {
        heard_before(s, words, a, first, c, b, last, at, rules[from].words);
        chosen_before(s, words, a, first, c, b, last, at, rules, from + 1);
    }
}

proof fn chosen_behind(
    s: Seq<char>,
    words: Seq<WordModel>,
    a: Seq<char>,
    first: Seq<WordModel>,
    c: char,
    b: Seq<char>,
    last: Seq<WordModel>,
    at: int,
    rules: Seq<PreparedModel>,
    from: int,
)
    requires
        parted(s, words, a, first, c, b, last),
        0 <= at < last.len(),
        0 <= from,
    ensures
        chosen(s, words, first.len() + at, rules, from) == chosen(b, last, at, rules, from),
    decreases rules.len() - from,
{
    if from < rules.len() {
        heard_behind(s, words, a, first, c, b, last, at, rules[from].words);
        chosen_behind(s, words, a, first, c, b, last, at, rules, from + 1);
    }
}

/// What is written for the text from `copied` on, whose matches start at the word
/// at `at` or later.
spec fn written_from(
    s: Seq<char>,
    words: Seq<WordModel>,
    rules: Seq<PreparedModel>,
    at: int,
    copied: int,
) -> Seq<char> {
    assembled(s, words, rules, hits(s, words, rules, at), copied)
}

proof fn written_unfolds(
    s: Seq<char>,
    words: Seq<WordModel>,
    rules: Seq<PreparedModel>,
    at: int,
    copied: int,
)
    requires
        0 <= at <= words.len(),
        all_listen(rules),
    ensures
        at == words.len() ==> written_from(s, words, rules, at, copied) == s.skip(copied),
        at < words.len() ==> match chosen(s, words, at, rules, 0) {
            Some(rule) => {
                let next = at + rules[rule].words.len();
                let end = words[next - 1].end;
                &&& 0 <= rule < rules.len()
                &&& at < next <= words.len()
                &&& written_from(s, words, rules, at, copied) == kept(
                    s,
                    copied,
                    words[at].start,
                    end,
                    rules[rule].write,
                ) + rules[rule].write + written_from(s, words, rules, next, end)
            },
            None => written_from(s, words, rules, at, copied) == written_from(
                s,
                words,
                rules,
                at + 1,
                copied,
            ),
        },
{
    if at < words.len() {
        chosen_is_heard(s, words, at, rules, 0);
        if let Some(rule) = chosen(s, words, at, rules, 0) {
            let next = at + rules[rule].words.len();
            assert(rules[rule].words.len() > 0);
            let matches = hits(s, words, rules, at);
            let rest = hits(s, words, rules, next);
            assert(matches =~= seq![Hit { word: at, rule }] + rest);
            assert(matches.skip(1) =~= rest);
        }
    }
}

proof fn written_behind(
    s: Seq<char>,
    words: Seq<WordModel>,
    a: Seq<char>,
    first: Seq<WordModel>,
    c: char,
    b: Seq<char>,
    last: Seq<WordModel>,
    rules: Seq<PreparedModel>,
    at: int,
    copied: int,
)
    requires
        parted(s, words, a, first, c, b, last),
        all_listen(rules),
        0 <= at <= last.len(),
        0 <= copied <= b.len(),
        at < last.len() ==> copied <= last[at].start,
    ensures
        written_from(s, words, rules, first.len() + at, a.len() + 1 + copied) == written_from(
            b,
            last,
            rules,
            at,
            copied,
        ),
    decreases last.len() - at,
{
    let off = a.len() as int + 1;
    let count = first.len() as int;
    written_unfolds(s, words, rules, count + at, off + copied);
    written_unfolds(b, last, rules, at, copied);
    if at == last.len() {
        assert(s.skip(off + copied) =~= b.skip(copied));
    } else {
        chosen_behind(s, words, a, first, c, b, last, at, rules, 0);
        assert(words[count + at] == words_along(last, off)[at]);
        match chosen(b, last, at, rules, 0) {
            Some(rule) => {
                let next = at + rules[rule].words.len();
                assert(words[count + next - 1] == words_along(last, off)[next - 1]);
                let start = last[at].start;
                let end = last[next - 1].end;
                if next < last.len() {
                    assert(last[next - 1].end <= last[next].start);
                }
                assert(s.subrange(off + copied, off + start) =~= b.subrange(copied, start));
                assert(end < b.len() ==> s[off + end] == b[end]);
                assert(kept(s, off + copied, off + start, off + end, rules[rule].write) == kept(
                    b,
                    copied,
                    start,
                    end,
                    rules[rule].write,
                ));
                written_behind(s, words, a, first, c, b, last, rules, next, end);
            },
            None => {
                if at + 1 < last.len() {
                    assert(last[at].end <= last[at + 1].start);
                }
                written_behind(s, words, a, first, c, b, last, rules, at + 1, copied);
            },
        }
    }
}

proof fn written_between(
    s: Seq<char>,
    words: Seq<WordModel>,
    a: Seq<char>,
    first: Seq<WordModel>,
    c: char,
    b: Seq<char>,
    last: Seq<WordModel>,
    rules: Seq<PreparedModel>,
    at: int,
    copied: int,
)
    requires
        parted(s, words, a, first, c, b, last),
        all_listen(rules),
        0 <= at <= last.len(),
        0 <= copied <= a.len(),
    ensures
        written_from(s, words, rules, first.len() + at, copied) == a.skip(copied).push(c)
            + written_from(b, last, rules, at, 0),
    decreases last.len() - at,
{
    let off = a.len() as int + 1;
    let count = first.len() as int;
    written_unfolds(s, words, rules, count + at, copied);
    written_unfolds(b, last, rules, at, 0);
    if at == last.len() {
        assert(s.skip(copied) =~= a.skip(copied).push(c) + b.skip(0));
    } else {
        chosen_behind(s, words, a, first, c, b, last, at, rules, 0);
        assert(words[count + at] == words_along(last, off)[at]);
        match chosen(b, last, at, rules, 0) {
            Some(rule) => {
                let next = at + rules[rule].words.len();
                assert(words[count + next - 1] == words_along(last, off)[next - 1]);
                let write = rules[rule].write;
                let start = last[at].start;
                let end = last[next - 1].end;
                if next < last.len() {
                    assert(last[next - 1].end <= last[next].start);
                }
                let lead = a.skip(copied).push(c);
                let before = s.subrange(copied, off + start);
                assert(before =~= lead + b.subrange(0, start));
                assert(end < b.len() ==> s[off + end] == b[end]);
                if start > 0 {
                    assert(before.last() == b.subrange(0, start).last());
                    assert(before.drop_last() =~= lead + b.subrange(0, start).drop_last());
                } else {
                    assert(before.last() == c);
                }
                assert(kept(s, copied, off + start, off + end, write) =~= lead + kept(
                    b,
                    0,
                    start,
                    end,
                    write,
                ));
                written_behind(s, words, a, first, c, b, last, rules, next, end);
                let tail = written_from(b, last, rules, next, end);
                let piece = kept(b, 0, start, end, write);
                assert(lead + piece + write + tail =~= lead + (piece + write + tail));
            },
            None => {
                written_between(s, words, a, first, c, b, last, rules, at + 1, copied);
            },
        }
    }
}

proof fn written_before(
    s: Seq<char>,
    words: Seq<WordModel>,
    a: Seq<char>,
    first: Seq<WordModel>,
    c: char,
    b: Seq<char>,
    last: Seq<WordModel>,
    rules: Seq<PreparedModel>,
    at: int,
    copied: int,
)
    requires
        parted(s, words, a, first, c, b, last),
        all_listen(rules),
        0 <= at <= first.len(),
        0 <= copied <= a.len(),
        at < first.len() ==> copied <= first[at].start,
    ensures
        written_from(s, words, rules, at, copied) == written_from(a, first, rules, at, copied).push(
            c,
        ) + written_from(b, last, rules, 0, 0),
    decreases first.len() - at,
{
    written_unfolds(a, first, rules, at, copied);
    if at == first.len() {
        written_between(s, words, a, first, c, b, last, rules, 0, copied);
    } else {
        written_unfolds(s, words, rules, at, copied);
        chosen_before(s, words, a, first, c, b, last, at, rules, 0);
        assert(words[at] == first[at]);
        match chosen(a, first, at, rules, 0) {
            Some(rule) => {
                let next = at + rules[rule].words.len();
                assert(words[next - 1] == first[next - 1]);
                let write = rules[rule].write;
                let start = first[at].start;
                let end = first[next - 1].end;
                if next < first.len() {
                    assert(first[next - 1].end <= first[next].start);
                }
                assert(s.subrange(copied, start) =~= a.subrange(copied, start));
                assert(s[end] == if end < a.len() {
                    a[end]
                } else {
                    c
                });
                let piece = kept(a, copied, start, end, write);
                assert(kept(s, copied, start, end, write) == piece);
                written_before(s, words, a, first, c, b, last, rules, next, end);
                let tail = written_from(a, first, rules, next, end);
                let rest = written_from(b, last, rules, 0, 0);
                assert(piece + write + (tail.push(c) + rest) =~= (piece + write + tail).push(c)
                    + rest);
            },
            None => {
                if at + 1 < first.len() {
                    assert(first[at].end <= first[at + 1].start);
                }
                written_before(s, words, a, first, c, b, last, rules, at + 1, copied);
            },
        }
    }
}

/// No match spans a sentence: rewriting a text is rewriting what comes before the
/// end of a sentence, or of a line, and what comes after it, each by itself.
pub proof fn no_match_spans_a_sentence(
    a: Seq<char>,
    c: char,
    b: Seq<char>,
    rules: Seq<Replacement>,
)
    requires
        c == '.' || c == '!' || c == '?' || c == '\n',
    ensures
        rewritten(a.push(c) + b, words_of(a.push(c) + b), prepared_rules(rules)) == rewritten(
            a,
            words_of(a),
            prepared_rules(rules),
        ).push(c) + rewritten(b, words_of(b), prepared_rules(rules)),
{
    let s = a.push(c) + b;
    words_part(a, c, b);
    words_are_in_order(a);
    words_are_in_order(b);
    usable_rules_listen(rules.map_values(|rule: Replacement| prepared(rule)));
    written_before(
        s,
        words_of(s),
        a,
        words_of(a),
        c,
        b,
        words_of(b),
        prepared_rules(rules),
        0,
        0,
    );
}

// --- one rule for each phrase ------------------------------------------------

/// What is written for a phrase: what the first rule says that listens for it.
pub open spec fn written_for(rules: Seq<PreparedModel>, phrase: Seq<Seq<char>>) -> Option<Seq<char>>
    decreases rules.len(),
{
    if rules.len() == 0 {
        None
    } else {
        match written_for(rules.drop_last(), phrase) {
            Some(write) => Some(write),
            None => if rules.last().words == phrase {
                Some(rules.last().write)
            } else {
                None
            },
        }
    }
}

proof fn written_for_of_some(
    rules: Seq<PreparedModel>,
    keep: spec_fn(PreparedModel) -> bool,
    phrase: Seq<Seq<char>>,
)
    requires
        forall|rule: PreparedModel| rule.words == phrase ==> #[trigger] keep(rule),
    ensures
        written_for(rules.filter(keep), phrase) == written_for(rules, phrase),
    decreases rules.len(),
{
    reveal_with_fuel(Seq::filter, 1);
    if rules.len() > 0 {
        let shorter = rules.drop_last();
        written_for_of_some(shorter, keep, phrase);
        if keep(rules.last()) {
            assert(rules.filter(keep) == shorter.filter(keep).push(rules.last()));
            assert(rules.filter(keep).drop_last() =~= shorter.filter(keep));
        }
    }
}

proof fn preparing_keeps_what_is_written(rules: Seq<PreparedModel>, phrase: Seq<Seq<char>>)
    requires
        phrase.len() > 0,
    ensures
        written_for(usable(rules), phrase) == written_for(rules, phrase),
{
    let keep = |rule: PreparedModel| rule.words.len() > 0;
    let rank = |rule: PreparedModel| length(rule);
    let kept = rules.filter(keep);
    let key = phrase.len() as int;
    written_for_of_some(rules, keep, phrase);
    written_for_of_some(kept, has_key(rank, key), phrase);
    written_for_of_some(usable(rules), has_key(rank, key), phrase);
    sorting_is_stable(kept, rank, key);
    assert(of_key(usable(rules), rank, key) == of_key(kept, rank, key));
}

proof fn written_for_is_the_first(rules: Seq<PreparedModel>, at: int)
    requires
        0 <= at < rules.len(),
        forall|i: int| 0 <= i < at ==> (#[trigger] rules[i]).words != rules[at].words,
    ensures
        written_for(rules, rules[at].words) == Some(rules[at].write),
    decreases rules.len(),
{
    let shorter = rules.drop_last();
    if at < rules.len() - 1 {
        assert forall|i: int| 0 <= i < at implies (#[trigger] shorter[i]).words
            != shorter[at].words by {
            assert(rules[i].words != rules[at].words);
        }
        written_for_is_the_first(shorter, at);
    } else {
        assert forall|i: int| 0 <= i < shorter.len() implies (#[trigger] shorter[i]).words
            != rules[at].words by {
            assert(rules[i].words != rules[at].words);
        }
        nothing_written_for(shorter, rules[at].words);
    }
}

proof fn nothing_written_for(rules: Seq<PreparedModel>, phrase: Seq<Seq<char>>)
    ensures
        written_for(rules, phrase) is None <==> forall|i: int|
            0 <= i < rules.len() ==> (#[trigger] rules[i]).words != phrase,
    decreases rules.len(),
{
    if rules.len() > 0 {
        let shorter = rules.drop_last();
        nothing_written_for(shorter, phrase);
        if forall|i: int| 0 <= i < rules.len() ==> (#[trigger] rules[i]).words != phrase {
            assert forall|i: int| 0 <= i < shorter.len() implies (#[trigger] shorter[i]).words
                != phrase by {
                assert(rules[i].words != phrase);
            }
            assert(rules[rules.len() - 1].words != phrase);
        } else {
            let i = choose|i: int| 0 <= i < rules.len() && (#[trigger] rules[i]).words == phrase;
            if i < shorter.len() {
                assert(shorter[i].words == phrase);
            }
        }
    }
}

/// Whether two lists of rules write the same for every phrase.
pub open spec fn write_alike(rules: Seq<PreparedModel>, other: Seq<PreparedModel>) -> bool {
    forall|phrase: Seq<Seq<char>>|
        phrase.len() > 0 ==> #[trigger] written_for(rules, phrase) == written_for(other, phrase)
}

proof fn heard_phrases_of_a_length_are_one(
    s: Seq<char>,
    words: Seq<WordModel>,
    at: int,
    phrase: Seq<Seq<char>>,
    other: Seq<Seq<char>>,
)
    requires
        heard_at(s, words, at, phrase),
        heard_at(s, words, at, other),
        phrase.len() == other.len(),
    ensures
        phrase == other,
{
    assert forall|k: int| 0 <= k < phrase.len() implies phrase[k] == other[k] by {
        assert(words[at + k].lower == phrase[k]);
        assert(words[at + k].lower == other[k]);
    }
    assert(phrase =~= other);
}

proof fn no_longer_phrase_is_heard(
    s: Seq<char>,
    words: Seq<WordModel>,
    at: int,
    rules: Seq<PreparedModel>,
    other: Seq<PreparedModel>,
)
    requires
        all_listen(rules),
        all_listen(other),
        descending(rules, |rule: PreparedModel| length(rule)),
        write_alike(rules, other),
        chosen(s, words, at, other, 0) is Some,
    ensures
        chosen(s, words, at, rules, 0) matches Some(rule) && length(rules[rule]) >= length(
            other[chosen(s, words, at, other, 0)->0],
        ),
{
    let rank = |rule: PreparedModel| length(rule);
    chosen_is_heard(s, words, at, rules, 0);
    chosen_is_heard(s, words, at, other, 0);
    let theirs = chosen(s, words, at, other, 0)->0;
    let phrase = other[theirs].words;
    assert(phrase.len() > 0);
    nothing_written_for(other, phrase);
    assert(written_for(rules, phrase) == written_for(other, phrase));
    nothing_written_for(rules, phrase);
    let same = choose|i: int| 0 <= i < rules.len() && (#[trigger] rules[i]).words == phrase;
    assert(heard_at(s, words, at, rules[same].words));
    let ours = chosen(s, words, at, rules, 0)->0;
    assert(ours <= same);
    assert(rank(rules[ours]) >= rank(rules[same]));
}

proof fn alike_is_chosen_with_the_same_words(
    s: Seq<char>,
    words: Seq<WordModel>,
    at: int,
    rules: Seq<PreparedModel>,
    other: Seq<PreparedModel>,
)
    requires
        all_listen(rules),
        all_listen(other),
        descending(rules, |rule: PreparedModel| length(rule)),
        descending(other, |rule: PreparedModel| length(rule)),
        write_alike(rules, other),
    ensures
        match (chosen(s, words, at, rules, 0), chosen(s, words, at, other, 0)) {
            (Some(ours), Some(theirs)) => {
                &&& 0 <= ours < rules.len()
                &&& 0 <= theirs < other.len()
                &&& rules[ours] == other[theirs]
            },
            (None, None) => true,
            _ => false,
        },
{
    assert(write_alike(other, rules)) by {
        assert forall|phrase: Seq<Seq<char>>| phrase.len() > 0 implies #[trigger] written_for(
            other,
            phrase,
        ) == written_for(rules, phrase) by {
            assert(written_for(rules, phrase) == written_for(other, phrase));
        }
    }
    if chosen(s, words, at, other, 0) is Some {
        no_longer_phrase_is_heard(s, words, at, rules, other);
    }
    if chosen(s, words, at, rules, 0) is Some {
        no_longer_phrase_is_heard(s, words, at, other, rules);
        chosen_is_heard(s, words, at, rules, 0);
        chosen_is_heard(s, words, at, other, 0);
        let ours = chosen(s, words, at, rules, 0)->0;
        let theirs = chosen(s, words, at, other, 0)->0;
        heard_phrases_of_a_length_are_one(s, words, at, rules[ours].words, other[theirs].words);
        assert(rules[ours].words.len() > 0);
        assert forall|i: int| 0 <= i < ours implies (#[trigger] rules[i]).words
            != rules[ours].words by {
            assert(!heard_at(s, words, at, rules[i].words));
        }
        assert forall|i: int| 0 <= i < theirs implies (#[trigger] other[i]).words
            != other[theirs].words by {
            assert(!heard_at(s, words, at, other[i].words));
        }
        written_for_is_the_first(rules, ours);
        written_for_is_the_first(other, theirs);
        assert(written_for(rules, rules[ours].words) == written_for(other, rules[ours].words));
    }
}

proof fn alike_is_written_alike(
    s: Seq<char>,
    words: Seq<WordModel>,
    rules: Seq<PreparedModel>,
    other: Seq<PreparedModel>,
    at: int,
    copied: int,
)
    requires
        0 <= at <= words.len(),
        all_listen(rules),
        all_listen(other),
        descending(rules, |rule: PreparedModel| length(rule)),
        descending(other, |rule: PreparedModel| length(rule)),
        write_alike(rules, other),
    ensures
        written_from(s, words, rules, at, copied) == written_from(s, words, other, at, copied),
    decreases words.len() - at,
{
    written_unfolds(s, words, rules, at, copied);
    written_unfolds(s, words, other, at, copied);
    if at < words.len() {
        alike_is_chosen_with_the_same_words(s, words, at, rules, other);
        match chosen(s, words, at, rules, 0) {
            Some(rule) => {
                let next = at + rules[rule].words.len();
                alike_is_written_alike(s, words, rules, other, next, words[next - 1].end);
            },
            None => {
                alike_is_written_alike(s, words, rules, other, at + 1, copied);
            },
        }
    }
}

/// The order the rules are written down in makes no difference but between rules for
/// one and the same phrase, of which the first counts: two lists that write the same
/// for every phrase rewrite every text alike.
pub proof fn only_the_first_rule_for_a_phrase_counts(
    s: Seq<char>,
    rules: Seq<Replacement>,
    other: Seq<Replacement>,
)
    requires
        write_alike(
            rules.map_values(|rule: Replacement| prepared(rule)),
            other.map_values(|rule: Replacement| prepared(rule)),
        ),
    ensures
        rewritten(s, words_of(s), prepared_rules(rules)) == rewritten(
            s,
            words_of(s),
            prepared_rules(other),
        ),
{
    let model = |rule: Replacement| prepared(rule);
    let rank = |rule: PreparedModel| length(rule);
    let keep = |rule: PreparedModel| rule.words.len() > 0;
    let ours = rules.map_values(model);
    let theirs = other.map_values(model);
    usable_rules_listen(ours);
    usable_rules_listen(theirs);
    sorting_orders(ours.filter(keep), rank);
    sorting_orders(theirs.filter(keep), rank);
    assert forall|phrase: Seq<Seq<char>>| phrase.len() > 0 implies #[trigger] written_for(
        usable(ours),
        phrase,
    ) == written_for(usable(theirs), phrase) by {
        preparing_keeps_what_is_written(ours, phrase);
        preparing_keeps_what_is_written(theirs, phrase);
        assert(written_for(ours, phrase) == written_for(theirs, phrase));
    }
    alike_is_written_alike(s, words_of(s), usable(ours), usable(theirs), 0, 0);
}

proof fn written_for_parts(
    before: Seq<PreparedModel>,
    after: Seq<PreparedModel>,
    phrase: Seq<Seq<char>>,
)
    ensures
        written_for(before + after, phrase) == match written_for(before, phrase) {
            Some(write) => Some(write),
            None => written_for(after, phrase),
        },
    decreases after.len(),
{
    if after.len() == 0 {
        assert(before + after =~= before);
    } else {
        assert((before + after).drop_last() =~= before + after.drop_last());
        written_for_parts(before, after.drop_last(), phrase);
    }
}

/// Two rules next to each other that listen for different phrases can change places:
/// every text is rewritten alike.
pub proof fn the_order_of_different_phrases_is_free(
    s: Seq<char>,
    before: Seq<Replacement>,
    x: Replacement,
    y: Replacement,
    after: Seq<Replacement>,
)
    requires
        prepared(x).words != prepared(y).words,
    ensures
        rewritten(s, words_of(s), prepared_rules(before + seq![x, y] + after)) == rewritten(
            s,
            words_of(s),
            prepared_rules(before + seq![y, x] + after),
        ),
{
    let model = |rule: Replacement| prepared(rule);
    let first = before.map_values(model);
    let last = after.map_values(model);
    let one = before + seq![x, y] + after;
    let other = before + seq![y, x] + after;
    let xy = seq![prepared(x), prepared(y)];
    let yx = seq![prepared(y), prepared(x)];
    assert(one.map_values(model) =~= first + xy + last);
    assert(other.map_values(model) =~= first + yx + last);
    assert forall|phrase: Seq<Seq<char>>| phrase.len() > 0 implies #[trigger] written_for(
        one.map_values(model),
        phrase,
    ) == written_for(other.map_values(model), phrase) by {
        written_for_parts(first + xy, last, phrase);
        written_for_parts(first, xy, phrase);
        written_for_parts(first + yx, last, phrase);
        written_for_parts(first, yx, phrase);
        reveal_with_fuel(written_for, 3);
        assert(xy.drop_last() =~= seq![prepared(x)]);
        assert(yx.drop_last() =~= seq![prepared(y)]);
        assert(seq![prepared(x)].drop_last() =~= Seq::empty());
        assert(seq![prepared(y)].drop_last() =~= Seq::empty());
    }
    only_the_first_rule_for_a_phrase_counts(s, one, other);
}

// --- what comes out, rule by rule --------------------------------------------

/// Whether what there is to say is said from the word at `at` on: the same words,
/// whatever their capitals, with no full stop, exclamation mark, question mark or
/// line break between them.
pub open spec fn said_at(s: Seq<char>, say: Seq<char>, at: int) -> bool {
    let there = words_of(s);
    let said = words_of(say);
    &&& said.len() > 0
    &&& at + said.len() <= there.len()
    &&& forall|k: int| 0 <= k < said.len() ==> (#[trigger] said[k]).lower == there[at + k].lower
    &&& forall|k: int, p: int|
        #![trigger there[at + k], s[p]]
        0 < k < said.len() && there[at + k - 1].end <= p < there[at + k].start ==> s[p] != '.' && s[p]
            != '!' && s[p] != '?' && s[p] != '\n'
}

proof fn what_is_said_is_heard(s: Seq<char>, rule: Replacement, at: int)
    requires
        0 <= at,
    ensures
        said_at(s, rule.say@, at) <==> prepared(rule).words.len() > 0 && heard_at(
            s,
            words_of(s),
            at,
            prepared(rule).words,
        ),
{
    let there = words_of(s);
    let said = words_of(rule.say@);
    let listened = prepared(rule).words;
    words_are_in_order(s);
    assert(forall|k: int| 0 <= k < said.len() ==> #[trigger] listened[k] == said[k].lower);
    if said_at(s, rule.say@, at) {
        assert forall|k: int| 0 <= k < listened.len() implies there[at + k].lower
            == #[trigger] listened[k] by {
            assert(said[k].lower == there[at + k].lower);
        }
        assert forall|k: int| 0 < k < listened.len() implies !sentence_ends(
            s.subrange(there[at + k - 1].end, (#[trigger] there[at + k]).start),
        ) by {
            let from = there[at + k - 1].end;
            assert(from <= there[at + k].start);
            let between = s.subrange(from, there[at + k].start);
            assert forall|i: int| 0 <= i < between.len() implies !ends_sentence(
                #[trigger] between[i],
            ) by {
                assert(between[i] == s[from + i]);
            }
        }
        assert(heard_at(s, there, at, listened));
    }
    if listened.len() > 0 && heard_at(s, there, at, listened) {
        assert forall|k: int| 0 <= k < said.len() implies (#[trigger] said[k]).lower == there[at
            + k].lower by {
            assert(listened[k] == said[k].lower);
        }
        assert forall|k: int, p: int|
            #![trigger there[at + k], s[p]]
            0 < k < said.len() && there[at + k - 1].end <= p < there[at + k].start implies s[p]
            != '.' && s[p] != '!' && s[p] != '?' && s[p] != '\n' by {
            let from = there[at + k - 1].end;
            let between = s.subrange(from, there[at + k].start);
            assert(!sentence_ends(between));
            assert(between[p - from] == s[p]);
            assert(!ends_sentence(between[p - from]));
        }
        assert(said_at(s, rule.say@, at));
    }
}

proof fn every_prepared_rule_was_written_down(rules: Seq<Replacement>, at: int) -> (found: int)
    requires
        0 <= at < prepared_rules(rules).len(),
    ensures
        0 <= found < rules.len(),
        prepared(rules[found]).words == prepared_rules(rules)[at].words,
        prepared_rules(rules)[at].words.len() > 0,
{
    let models = rules.map_values(|rule: Replacement| prepared(rule));
    let ready = prepared_rules(rules);
    let phrase = ready[at].words;
    usable_rules_listen(models);
    preparing_keeps_what_is_written(models, phrase);
    nothing_written_for(ready, phrase);
    nothing_written_for(models, phrase);
    let found = choose|i: int| 0 <= i < models.len() && (#[trigger] models[i]).words == phrase;
    assert(models[found] == prepared(rules[found]));
    found
}

proof fn nothing_said_nothing_chosen(s: Seq<char>, rules: Seq<Replacement>, at: int)
    requires
        0 <= at,
        forall|i: int| 0 <= i < rules.len() ==> !said_at(s, (#[trigger] rules[i]).say@, at),
    ensures
        chosen(s, words_of(s), at, prepared_rules(rules), 0) is None,
{
    let ready = prepared_rules(rules);
    chosen_is_heard(s, words_of(s), at, ready, 0);
    if let Some(rule) = chosen(s, words_of(s), at, ready, 0) {
        let found = every_prepared_rule_was_written_down(rules, rule);
        what_is_said_is_heard(s, rules[found], at);
    }
}

proof fn nothing_is_written_before(s: Seq<char>, rules: Seq<Replacement>, from: int, at: int)
    requires
        0 <= from <= at <= words_of(s).len(),
        forall|i: int, w: int|
            #![trigger said_at(s, rules[i].say@, w)]
            0 <= i < rules.len() && 0 <= w < at ==> !said_at(s, rules[i].say@, w),
    ensures
        written_from(s, words_of(s), prepared_rules(rules), from, 0) == written_from(
            s,
            words_of(s),
            prepared_rules(rules),
            at,
            0,
        ),
    decreases at - from,
{
    if from < at {
        nothing_said_nothing_chosen(s, rules, from);
        usable_rules_listen(rules.map_values(|rule: Replacement| prepared(rule)));
        written_unfolds(s, words_of(s), prepared_rules(rules), from, 0);
        nothing_is_written_before(s, rules, from + 1, at);
    }
}

/// Where no rule is said, the text stays as it is.
pub proof fn what_is_not_said_is_not_rewritten(s: Seq<char>, rules: Seq<Replacement>)
    requires
        forall|i: int, w: int|
            #![trigger said_at(s, rules[i].say@, w)]
            0 <= i < rules.len() && 0 <= w < words_of(s).len() ==> !said_at(s, rules[i].say@, w),
    ensures
        rewritten(s, words_of(s), prepared_rules(rules)) == s,
{
    let count = words_of(s).len() as int;
    nothing_is_written_before(s, rules, 0, count);
    usable_rules_listen(rules.map_values(|rule: Replacement| prepared(rule)));
    written_unfolds(s, words_of(s), prepared_rules(rules), count, 0);
    assert(s.skip(0) =~= s);
}

proof fn runs_from_the_end_of_one(marks: Seq<bool>, at: int, i: int)
    requires
        0 <= at <= marks.len(),
        0 <= i < runs(marks, at).len(),
    ensures
        runs(marks, at).skip(i + 1) == runs(marks, runs(marks, at)[i].1),
    decreases marks.len() - at,
{
    if at < marks.len() {
        if marks[at] {
            let end = run_end(marks, at);
            run_end_is_past(marks, at);
            let rest = runs(marks, end);
            assert(runs(marks, at) =~= seq![(at, end)] + rest);
            if i == 0 {
                assert(runs(marks, at).skip(1) =~= rest);
            } else {
                runs_from_the_end_of_one(marks, end, i - 1);
                assert(runs(marks, at)[i] == rest[i - 1]);
                assert(runs(marks, at).skip(i + 1) =~= rest.skip(i));
            }
        } else {
            runs_from_the_end_of_one(marks, at + 1, i);
        }
    }
}

proof fn marks_past_a_word(s: Seq<char>, end: int, at: int)
    requires
        0 < end <= end + at < s.len(),
        alphanumeric(s[end - 1]),
        !in_word(s, end),
    ensures
        in_word(s.skip(end), at) == in_word(s, end + at),
{
    let b = s.skip(end);
    assert(b[at] == s[end + at]);
    if follows_letter(b, at) {
        let i = choose|i: int|
            0 <= i < at && alphanumeric(#[trigger] b[i]) && forall|k: int|
                i < k < at ==> apostrophe(#[trigger] b[k]);
        assert(alphanumeric(s[end + i]));
        assert forall|k: int| end + i < k < end + at implies apostrophe(#[trigger] s[k]) by {
            assert(apostrophe(b[k - end]));
        }
        assert(follows_letter(s, end + at));
    }
    if leads_to_letter(b, at) {
        let j = choose|j: int|
            at < j < b.len() && alphanumeric(#[trigger] b[j]) && forall|k: int|
                at < k < j ==> apostrophe(#[trigger] b[k]);
        assert(alphanumeric(s[end + j]));
        assert forall|k: int| end + at < k < end + j implies apostrophe(#[trigger] s[k]) by {
            assert(apostrophe(b[k - end]));
        }
        assert(leads_to_letter(s, end + at));
    }
    if apostrophe(s[end + at]) && leads_to_letter(s, end + at) && follows_letter(s, end + at) {
        let j = choose|j: int|
            end + at < j < s.len() && alphanumeric(#[trigger] s[j]) && forall|k: int|
                end + at < k < j ==> apostrophe(#[trigger] s[k]);
        assert(alphanumeric(b[j - end]));
        assert forall|k: int| at < k < j - end implies apostrophe(#[trigger] b[k]) by {
            assert(apostrophe(s[end + k]));
        }
        assert(leads_to_letter(b, at));
        let i = choose|i: int|
            0 <= i < end + at && alphanumeric(#[trigger] s[i]) && forall|k: int|
                i < k < end + at ==> apostrophe(#[trigger] s[k]);
        if i < end {
            assert(apostrophe(s[end]));
            assert(follows_letter(s, end)) by {
                assert(alphanumeric(s[end - 1]));
            }
            assert forall|k: int| end < k < j implies apostrophe(#[trigger] s[k]) by {
                assert(k < end + at || k == end + at || k > end + at);
            }
            assert(leads_to_letter(s, end));
        }
        assert(alphanumeric(b[i - end]));
        assert forall|k: int| i - end < k < at implies apostrophe(#[trigger] b[k]) by {
            assert(apostrophe(s[end + k]));
        }
        assert(follows_letter(b, at));
    }
}

proof fn runs_moved(m: Seq<bool>, off: int, at: int)
    requires
        0 <= off <= off + at <= m.len(),
    ensures
        run_end(m, off + at) == off + run_end(m.skip(off), at),
        runs(m, off + at) == runs_along(runs(m.skip(off), at), off),
    decreases m.len() - at,
{
    let n = m.skip(off);
    if at < n.len() {
        assert(n[at] == m[off + at]);
        runs_moved(m, off, at + 1);
        if n[at] {
            let end = run_end(n, at);
            run_end_is_past(n, at);
            runs_moved(m, off, end);
            assert(runs(m, off + at) =~= seq![(off + at, off + end)] + runs(m, off + end));
            assert(runs_along(runs(n, at), off) =~= seq![(off + at, off + end)] + runs_along(
                runs(n, end),
                off,
            ));
        }
    } else {
        assert(runs_along(runs(n, at), off) =~= Seq::empty());
    }
}

/// The words past the end of a word are those of the text past it, by itself.
pub proof fn words_past_a_word(s: Seq<char>, i: int)
    requires
        0 <= i < words_of(s).len(),
    ensures
        words_of(s).skip(i + 1) == words_along(
            words_of(s.skip(words_of(s)[i].end)),
            words_of(s)[i].end,
        ),
{
    let marks = marked(s);
    let found = runs(marks, 0);
    let end = found[i].1;
    let b = s.skip(end);
    assert(words_of(s)[i] == word_between(s, found[i]));
    words_are_bounded_by_letters(s, i);
    runs_are_whole(marks, 0);
    runs_from_the_end_of_one(marks, 0, i);
    runs_moved(marks, end, 0);
    assert forall|at: int| 0 <= at < b.len() implies #[trigger] marked(b)[at] == marks.skip(
        end,
    )[at] by {
        marks_past_a_word(s, end, at);
    }
    assert(marked(b) =~= marks.skip(end));
    let last = runs(marked(b), 0);
    runs_are_in_order(marked(b), 0);
    let rest = found.skip(i + 1);
    assert(rest == runs_along(last, end));
    assert forall|k: int| 0 <= k < rest.len() implies #[trigger] words_of(s).skip(i + 1)[k]
        == words_along(words_of(b), end)[k] by {
        assert(rest[k] == found[i + 1 + k]);
        assert(rest[k] == (last[k].0 + end, last[k].1 + end));
        assert(words_of(b)[k] == word_between(b, last[k]));
        assert(s.subrange(last[k].0 + end, last[k].1 + end) =~= b.subrange(last[k].0, last[k].1));
    }
    assert(words_of(s).skip(i + 1).len() == rest.len());
    assert(words_along(words_of(b), end).len() == last.len());
    assert(runs_along(last, end).len() == last.len());
    assert(words_of(s).skip(i + 1) =~= words_along(words_of(b), end));
}

/// Whether the words of a text from the one at `count` on are those of the text
/// from `off` on.
spec fn cut(
    s: Seq<char>,
    words: Seq<WordModel>,
    off: int,
    count: int,
    last: Seq<WordModel>,
) -> bool {
    &&& 0 <= off <= s.len()
    &&& 0 <= count
    &&& words.len() == count + last.len()
    &&& in_order(last, s.len() - off)
    &&& forall|i: int|
        0 <= i < last.len() ==> words[count + i] == (WordModel {
            start: (#[trigger] last[i]).start + off,
            end: last[i].end + off,
            lower: last[i].lower,
        })
}

proof fn heard_past(
    s: Seq<char>,
    words: Seq<WordModel>,
    off: int,
    count: int,
    last: Seq<WordModel>,
    at: int,
    listened: Seq<Seq<char>>,
)
    requires
        cut(s, words, off, count, last),
        0 <= at < last.len(),
    ensures
        heard_at(s, words, count + at, listened) == heard_at(s.skip(off), last, at, listened),
{
    let b = s.skip(off);
    assert forall|i: int| 0 < i < last.len() implies s.subrange(
        words[count + i - 1].end,
        words[count + i].start,
    ) == b.subrange(last[i - 1].end, (#[trigger] last[i]).start) by {
        assert(last[i - 1].end <= last[i].start <= last[i].end);
        assert(words[count + (i - 1)].end == last[i - 1].end + off);
        assert(s.subrange(last[i - 1].end + off, last[i].start + off) =~= b.subrange(
            last[i - 1].end,
            last[i].start,
        ));
    }
    if heard_at(s, words, count + at, listened) {
        assert forall|k: int| 0 <= k < listened.len() implies last[at + k].lower
            == #[trigger] listened[k] by {
            assert(words[count + at + k].lower == listened[k]);
            assert(words[count + (at + k)].lower == last[at + k].lower);
        }
        assert forall|k: int| 0 < k < listened.len() implies !sentence_ends(
            b.subrange(last[at + k - 1].end, (#[trigger] last[at + k]).start),
        ) by {
            assert(!sentence_ends(
                s.subrange(words[count + at + k - 1].end, words[count + at + k].start),
            ));
            assert(words[count + (at + k)].start == last[at + k].start + off);
        }
    }
    if heard_at(b, last, at, listened) {
        assert forall|k: int| 0 <= k < listened.len() implies words[count + at + k].lower
            == #[trigger] listened[k] by {
            assert(last[at + k].lower == listened[k]);
            assert(words[count + (at + k)].lower == last[at + k].lower);
        }
        assert forall|k: int| 0 < k < listened.len() implies !sentence_ends(
            s.subrange(words[count + at + k - 1].end, (#[trigger] words[count + at + k]).start),
        ) by {
            assert(!sentence_ends(b.subrange(last[at + k - 1].end, last[at + k].start)));
            assert(words[count + (at + k)].start == last[at + k].start + off);
        }
    }
}

proof fn chosen_past(
    s: Seq<char>,
    words: Seq<WordModel>,
    off: int,
    count: int,
    last: Seq<WordModel>,
    at: int,
    rules: Seq<PreparedModel>,
    from: int,
)
    requires
        cut(s, words, off, count, last),
        0 <= at < last.len(),
        0 <= from,
    ensures
        chosen(s, words, count + at, rules, from) == chosen(s.skip(off), last, at, rules, from),
    decreases rules.len() - from,
{
    if from < rules.len() {
        heard_past(s, words, off, count, last, at, rules[from].words);
        chosen_past(s, words, off, count, last, at, rules, from + 1);
    }
}

proof fn written_past(
    s: Seq<char>,
    words: Seq<WordModel>,
    off: int,
    count: int,
    last: Seq<WordModel>,
    rules: Seq<PreparedModel>,
    at: int,
    copied: int,
)
    requires
        cut(s, words, off, count, last),
        all_listen(rules),
        0 <= at <= last.len(),
        0 <= copied <= s.len() - off,
        at < last.len() ==> copied <= last[at].start,
    ensures
        written_from(s, words, rules, count + at, off + copied) == written_from(
            s.skip(off),
            last,
            rules,
            at,
            copied,
        ),
    decreases last.len() - at,
{
    let b = s.skip(off);
    written_unfolds(s, words, rules, count + at, off + copied);
    written_unfolds(b, last, rules, at, copied);
    if at == last.len() {
        assert(s.skip(off + copied) =~= b.skip(copied));
    } else {
        chosen_past(s, words, off, count, last, at, rules, 0);
        assert(words[count + at].start == last[at].start + off);
        match chosen(b, last, at, rules, 0) {
            Some(rule) => {
                let next = at + rules[rule].words.len();
                assert(words[count + (next - 1)].end == last[next - 1].end + off);
                let start = last[at].start;
                let end = last[next - 1].end;
                if next < last.len() {
                    assert(last[next - 1].end <= last[next].start);
                }
                assert(s.subrange(off + copied, off + start) =~= b.subrange(copied, start));
                assert(end < b.len() ==> s[off + end] == b[end]);
                assert(kept(s, off + copied, off + start, off + end, rules[rule].write) == kept(
                    b,
                    copied,
                    start,
                    end,
                    rules[rule].write,
                ));
                written_past(s, words, off, count, last, rules, next, end);
            },
            None => {
                if at + 1 < last.len() {
                    assert(last[at].end <= last[at + 1].start);
                }
                written_past(s, words, off, count, last, rules, at + 1, copied);
            },
        }
    }
}

proof fn the_rest_is_a_text_by_itself(s: Seq<char>, rules: Seq<PreparedModel>, i: int)
    requires
        0 <= i < words_of(s).len(),
        all_listen(rules),
    ensures
        ({
            let end = words_of(s)[i].end;
            written_from(s, words_of(s), rules, i + 1, end) == rewritten(
                s.skip(end),
                words_of(s.skip(end)),
                rules,
            )
        }),
{
    let words = words_of(s);
    let end = words[i].end;
    let last = words_of(s.skip(end));
    words_are_in_order(s);
    words_are_in_order(s.skip(end));
    words_past_a_word(s, i);
    assert(words.skip(i + 1).len() == last.len());
    assert forall|k: int| 0 <= k < last.len() implies words[i + 1 + k] == (WordModel {
        start: (#[trigger] last[k]).start + end,
        end: last[k].end + end,
        lower: last[k].lower,
    }) by {
        assert(words.skip(i + 1)[k] == words_along(last, end)[k]);
        assert(words.skip(i + 1)[k] == words[i + 1 + k]);
    }
    assert(cut(s, words, end, i + 1, last));
    written_past(s, words, end, i + 1, last, rules, 0, 0);
}

proof fn the_rule_said_is_chosen(s: Seq<char>, rules: Seq<Replacement>, at: int, j: int)
    requires
        0 <= at < words_of(s).len(),
        0 <= j < rules.len(),
        said_at(s, rules[j].say@, at),
        forall|i: int|
            0 <= i < rules.len() && said_at(s, (#[trigger] rules[i]).say@, at) ==> {
                ||| words_of(rules[i].say@).len() < words_of(rules[j].say@).len()
                ||| words_of(rules[i].say@).len() == words_of(rules[j].say@).len() && j <= i
            },
    ensures
        chosen(s, words_of(s), at, prepared_rules(rules), 0) matches Some(rule) && {
            &&& 0 <= rule < prepared_rules(rules).len()
            &&& prepared_rules(rules)[rule].words == prepared(rules[j]).words
            &&& prepared_rules(rules)[rule].write == rules[j].write@
        },
{
    let words = words_of(s);
    let ready = prepared_rules(rules);
    let models = rules.map_values(|rule: Replacement| prepared(rule));
    let phrase = prepared(rules[j]).words;
    assert(models[j] == prepared(rules[j]));
    what_is_said_is_heard(s, rules[j], at);
    assert forall|i: int| 0 <= i < j implies (#[trigger] models[i]).words != models[j].words by {
        if models[i].words == phrase {
            assert(models[i] == prepared(rules[i]));
            what_is_said_is_heard(s, rules[i], at);
            assert(words_of(rules[i].say@).len() == prepared(rules[i]).words.len());
            assert(words_of(rules[j].say@).len() == prepared(rules[j]).words.len());
            assert(said_at(s, rules[i].say@, at));
        }
    }
    written_for_is_the_first(models, j);
    preparing_keeps_what_is_written(models, phrase);
    nothing_written_for(ready, phrase);
    let there = choose|i: int| 0 <= i < ready.len() && (#[trigger] ready[i]).words == phrase;
    the_longest_phrase_wins(s, words, at, rules, there);
    chosen_is_heard(s, words, at, ready, 0);
    let rule = chosen(s, words, at, ready, 0)->0;
    let found = every_prepared_rule_was_written_down(rules, rule);
    what_is_said_is_heard(s, rules[found], at);
    assert(said_at(s, rules[found].say@, at));
    assert(ready[rule].words.len() == phrase.len());
    heard_phrases_of_a_length_are_one(s, words, at, phrase, ready[rule].words);
    assert forall|i: int| 0 <= i < rule implies (#[trigger] ready[i]).words != ready[rule].words by {
        assert(!heard_at(s, words, at, ready[i].words));
    }
    written_for_is_the_first(ready, rule);
}

/// The first phrase that is said is what is rewritten first, and what is written in
/// its place is what the rule says, letter by letter: of the rules said there the
/// one with the most words, and of those the one that was written down first. What
/// comes before stays as it is, and what comes after is rewritten as if it were a
/// text by itself. A rule that writes nothing takes one of the two spaces around the
/// phrase with it.
pub proof fn what_is_said_is_rewritten(s: Seq<char>, rules: Seq<Replacement>, at: int, j: int)
    requires
        0 <= at < words_of(s).len(),
        0 <= j < rules.len(),
        said_at(s, rules[j].say@, at),
        forall|i: int|
            0 <= i < rules.len() && said_at(s, (#[trigger] rules[i]).say@, at) ==> {
                ||| words_of(rules[i].say@).len() < words_of(rules[j].say@).len()
                ||| words_of(rules[i].say@).len() == words_of(rules[j].say@).len() && j <= i
            },
        forall|i: int, w: int|
            #![trigger said_at(s, rules[i].say@, w)]
            0 <= i < rules.len() && 0 <= w < at ==> !said_at(s, rules[i].say@, w),
    ensures
        ({
            let start = words_of(s)[at].start;
            let end = words_of(s)[at + words_of(rules[j].say@).len() - 1].end;
            let after = rewritten(s.skip(end), words_of(s.skip(end)), prepared_rules(rules));
            let gap = rules[j].write@.len() == 0 && start > 0 && s[start - 1] == ' ' && end < s.len()
                && s[end] == ' ';
            rewritten(s, words_of(s), prepared_rules(rules)) == s.take(
                if gap {
                    start - 1
                } else {
                    start
                },
            ) + rules[j].write@ + after
        }),
{
    let words = words_of(s);
    let ready = prepared_rules(rules);
    usable_rules_listen(rules.map_values(|rule: Replacement| prepared(rule)));
    words_are_in_order(s);
    nothing_is_written_before(s, rules, 0, at);
    the_rule_said_is_chosen(s, rules, at, j);
    written_unfolds(s, words, ready, at, 0);
    let next = at + words_of(rules[j].say@).len();
    assert(prepared(rules[j]).words.len() == words_of(rules[j].say@).len());
    the_rest_is_a_text_by_itself(s, ready, next - 1);
    let start = words[at].start;
    let before = s.subrange(0, start);
    assert(before =~= s.take(start));
    if start > 0 {
        assert(before.last() == s[start - 1]);
        assert(before.drop_last() =~= s.take(start - 1));
    }
}

/// A phrase that is the only one said comes out as what its rule writes, between the
/// text before it and the text after it, both as they were.
pub proof fn one_phrase_is_rewritten(s: Seq<char>, rules: Seq<Replacement>, at: int, j: int)
    requires
        0 <= at < words_of(s).len(),
        0 <= j < rules.len(),
        said_at(s, rules[j].say@, at),
        forall|i: int, w: int|
            #![trigger said_at(s, rules[i].say@, w)]
            0 <= i < rules.len() && 0 <= w < words_of(s).len() && said_at(s, rules[i].say@, w) ==> i
                == j && w == at,
        rules[j].write@.len() > 0,
    ensures
        ({
            let start = words_of(s)[at].start;
            let end = words_of(s)[at + words_of(rules[j].say@).len() - 1].end;
            rewritten(s, words_of(s), prepared_rules(rules)) == s.take(start) + rules[j].write@
                + s.skip(end)
        }),
{
    what_is_said_is_rewritten(s, rules, at, j);
    let next = at + words_of(rules[j].say@).len();
    let end = words_of(s)[next - 1].end;
    let rest = s.skip(end);
    words_are_in_order(s);
    words_are_in_order(rest);
    words_past_a_word(s, next - 1);
    assert forall|i: int, w: int|
        #![trigger said_at(rest, rules[i].say@, w)]
        0 <= i < rules.len() && 0 <= w < words_of(rest).len() implies !said_at(
        rest,
        rules[i].say@,
        w,
    ) by {
        let words = words_of(s);
        let last = words_of(rest);
        assert(words.skip(next).len() == last.len());
        assert forall|k: int| 0 <= k < last.len() implies words[next + k] == (WordModel {
            start: (#[trigger] last[k]).start + end,
            end: last[k].end + end,
            lower: last[k].lower,
        }) by {
            assert(words.skip(next)[k] == words_along(last, end)[k]);
            assert(words.skip(next)[k] == words[next + k]);
        }
        assert(cut(s, words, end, next, last));
        what_is_said_is_heard(rest, rules[i], w);
        what_is_said_is_heard(s, rules[i], next + w);
        heard_past(s, words, end, next, last, w, prepared(rules[i]).words);
        assert(!said_at(s, rules[i].say@, next + w));
    }
    what_is_not_said_is_not_rewritten(rest, rules);
}

// --- what a word is ----------------------------------------------------------

proof fn a_marked_position_is_in_a_run(marks: Seq<bool>, at: int, k: int)
    requires
        0 <= at <= k < marks.len(),
        marks[k],
    ensures
        exists|i: int|
            0 <= i < runs(marks, at).len() && (#[trigger] runs(marks, at)[i]).0 <= k < runs(
                marks,
                at,
            )[i].1,
    decreases marks.len() - at,
{
    if marks[at] {
        let end = run_end(marks, at);
        run_end_is_past(marks, at);
        let rest = runs(marks, end);
        let all = runs(marks, at);
        assert(all =~= seq![(at, end)] + rest);
        if k < end {
            assert(all[0] == (at, end));
        } else {
            a_marked_position_is_in_a_run(marks, end, k);
            let i = choose|i: int| 0 <= i < rest.len() && (#[trigger] rest[i]).0 <= k < rest[i].1;
            assert(all[i + 1] == rest[i]);
            assert(all[i + 1].0 <= k < all[i + 1].1);
        }
    } else {
        a_marked_position_is_in_a_run(marks, at + 1, k);
        assert(runs(marks, at) == runs(marks, at + 1));
    }
}

/// Every letter and every digit is in some word.
pub proof fn every_letter_is_in_a_word(s: Seq<char>, k: int)
    requires
        0 <= k < s.len(),
        alphanumeric(s[k]),
    ensures
        exists|i: int|
            0 <= i < words_of(s).len() && (#[trigger] words_of(s)[i]).start <= k < words_of(s)[i].end,
{
    let found = runs(marked(s), 0);
    assert(marked(s)[k]);
    a_marked_position_is_in_a_run(marked(s), 0, k);
    let i = choose|i: int| 0 <= i < found.len() && (#[trigger] found[i]).0 <= k < found[i].1;
    assert(words_of(s)[i] == word_between(s, found[i]));
}

/// Where the first letter or digit is, from `at` on.
spec fn first_letter(s: Seq<char>, at: int) -> int
    decreases s.len() - at,
{
    if at < 0 || at >= s.len() || alphanumeric(s[at]) {
        at
    } else {
        first_letter(s, at + 1)
    }
}

proof fn first_letter_is(s: Seq<char>, at: int, letter: int)
    requires
        0 <= at <= letter < s.len(),
        alphanumeric(s[letter]),
    ensures
        at <= first_letter(s, at) <= letter,
        alphanumeric(s[first_letter(s, at)]),
        forall|k: int| at <= k < first_letter(s, at) ==> !alphanumeric(#[trigger] s[k]),
    decreases letter - at,
{
    if !alphanumeric(s[at]) {
        first_letter_is(s, at + 1, letter);
    }
}

proof fn apostrophes_hold_a_word_together(s: Seq<char>, end: int, start: int)
    requires
        0 < end <= start < s.len(),
        alphanumeric(s[end - 1]),
        alphanumeric(s[start]),
        forall|k: int| end <= k < start ==> alphanumeric(#[trigger] s[k]) || apostrophe(s[k]),
    ensures
        in_word(s, end),
{
    if !alphanumeric(s[end]) {
        let next = first_letter(s, end);
        first_letter_is(s, end, start);
        assert(follows_letter(s, end)) by {
            assert(alphanumeric(s[end - 1]));
        }
        assert(leads_to_letter(s, end)) by {
            assert(alphanumeric(s[next]));
            assert forall|k: int| end < k < next implies apostrophe(#[trigger] s[k]) by {
                assert(!alphanumeric(s[k]));
            }
        }
        assert(apostrophe(s[end]));
    }
}

/// Between one word and the next is something that is no letter, no digit and no
/// apostrophe: what has nothing of the kind in it is one word.
pub proof fn words_are_apart(s: Seq<char>, i: int)
    requires
        0 <= i,
        i + 1 < words_of(s).len(),
    ensures
        exists|k: int|
            words_of(s)[i].end <= k < words_of(s)[i + 1].start && !alphanumeric(#[trigger] s[k])
                && s[k] != '\'' && s[k] != '\u{2019}',
{
    let words = words_of(s);
    let found = runs(marked(s), 0);
    words_are_in_order(s);
    words_are_bounded_by_letters(s, i);
    words_are_bounded_by_letters(s, i + 1);
    runs_are_whole(marked(s), 0);
    assert(words[i] == word_between(s, found[i]));
    let end = words[i].end;
    let start = words[i + 1].start;
    assert(end <= start);
    assert(!marked(s)[end]);
    if forall|k: int| end <= k < start ==> alphanumeric(#[trigger] s[k]) || apostrophe(s[k]) {
        apostrophes_hold_a_word_together(s, end, start);
        assert(false);
    }
}

/// A text of letters, digits and apostrophes that starts and ends with a letter or
/// digit is one word, and the word is all of it.
pub proof fn letters_and_apostrophes_make_one_word(s: Seq<char>)
    requires
        s.len() > 0,
        alphanumeric(s[0]),
        alphanumeric(s.last()),
        forall|k: int|
            0 <= k < s.len() ==> alphanumeric(#[trigger] s[k]) || s[k] == '\'' || s[k]
                == '\u{2019}',
    ensures
        words_of(s).len() == 1,
        words_of(s)[0].start == 0,
        words_of(s)[0].end == s.len(),
        words_of(s)[0].lower == lowercase(s),
{
    let words = words_of(s);
    every_letter_is_in_a_word(s, 0);
    every_letter_is_in_a_word(s, s.len() - 1);
    words_are_in_order(s);
    if words.len() > 1 {
        words_are_apart(s, 0);
    }
    words_are_bounded_by_letters(s, 0);
    assert(s.subrange(0, s.len() as int) =~= s);
}

/// What is neither a letter, a digit nor an apostrophe separates words: those of a
/// text with one in it are those before it and those after it.
pub proof fn words_are_split_by_anything_else(a: Seq<char>, c: char, b: Seq<char>)
    requires
        !alphanumeric(c),
        c != '\'' && c != '\u{2019}',
    ensures
        words_of(a.push(c) + b).len() == words_of(a).len() + words_of(b).len(),
        forall|i: int|
            0 <= i < words_of(a).len() ==> #[trigger] words_of(a.push(c) + b)[i] == words_of(a)[i],
        forall|i: int|
            0 <= i < words_of(b).len() ==> {
                let word = words_of(a.push(c) + b)[words_of(a).len() + i];
                let alone = #[trigger] words_of(b)[i];
                &&& word.start == a.len() + 1 + alone.start
                &&& word.end == a.len() + 1 + alone.end
                &&& word.lower == alone.lower
            },
{
    words_part(a, c, b);
    let moved = words_along(words_of(b), a.len() as int + 1);
    assert forall|i: int| 0 <= i < words_of(b).len() implies {
        let word = words_of(a.push(c) + b)[words_of(a).len() + i];
        let alone = #[trigger] words_of(b)[i];
        &&& word.start == a.len() + 1 + alone.start
        &&& word.end == a.len() + 1 + alone.end
        &&& word.lower == alone.lower
    } by {
        assert(words_of(a.push(c) + b)[words_of(a).len() + i] == moved[i]);
    }
}

/// Of ASCII, the letters and the digits make words, and nothing else does.
pub proof fn the_letters_and_digits_of_ascii(c: char)
    requires
        (c as u32) < 0x80,
    ensures
        alphanumeric(c) <==> '0' <= c <= '9' || 'A' <= c <= 'Z' || 'a' <= c <= 'z',
{
}

/// What applying the rules to a text gives, where one phrase of theirs is said in it and
/// no other: what the rule writes, in place of the phrase, in the text as it was.
pub proof fn applying_the_rules_writes_what_they_say(
    text: &str,
    rules: &[Replacement],
    out: String,
    at: int,
    j: int,
)
    requires
        call_ensures(apply, (text, rules), out),
        0 <= at < words_of(text@).len(),
        0 <= j < rules@.len(),
        said_at(text@, rules@[j].say@, at),
        forall|i: int, w: int|
            #![trigger said_at(text@, rules@[i].say@, w)]
            0 <= i < rules@.len() && 0 <= w < words_of(text@).len() && said_at(
                text@,
                rules@[i].say@,
                w,
            ) ==> i == j && w == at,
        rules@[j].write@.len() > 0,
    ensures
        out@ == text@.take(words_of(text@)[at].start) + rules@[j].write@ + text@.skip(
            words_of(text@)[at + words_of(rules@[j].say@).len() - 1].end,
        ),
{
    one_phrase_is_rewritten(text@, rules@, at, j);
}

} // verus!
