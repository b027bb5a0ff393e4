use yapper::replace::{apply, prepare, words, Replacement};

fn rules(pairs: &[(&str, &str)]) -> Vec<Replacement> {
    pairs
        .iter()
        .map(|(say, write)| Replacement {
            say: say.to_string(),
            write: write.to_string(),
        })
        .collect()
}

#[test]
fn a_phrase_becomes_the_text_you_asked_for() {
    let rules = rules(&[("minus minus", "--")]);
    assert_eq!(
        apply("run it with minus minus force", &rules),
        "run it with -- force"
    );
    assert_eq!(apply("minus minus", &rules), "--");
}

#[test]
fn the_models_own_capitals_and_punctuation_do_not_get_in_the_way() {
    let rules = rules(&[("minus minus", "--")]);
    // Sentence case, and a comma the model heard in the pause.
    assert_eq!(apply("Minus minus force", &rules), "-- force");
    assert_eq!(apply("Try minus, minus force", &rules), "Try -- force");
    assert_eq!(apply("MINUS MINUS", &rules), "--");
    // Whatever fell between the words goes with them.
    assert_eq!(apply("minus - minus", &rules), "--");
}

#[test]
fn a_rule_does_not_reach_across_a_sentence() {
    let rules = rules(&[("minus minus", "--")]);
    let text = "It was a minus. Minus signs everywhere.";
    assert_eq!(apply(text, &rules), text);
    // A line break is a break too.
    assert_eq!(apply("minus\nminus", &rules), "minus\nminus");
}

#[test]
fn only_whole_words_count() {
    let rules = rules(&[("dash", "-")]);
    assert_eq!(
        apply("the dashboard is fine", &rules),
        "the dashboard is fine"
    );
    assert_eq!(apply("a dash of salt", &rules), "a - of salt");
}

#[test]
fn the_longer_phrase_wins() {
    let rules = rules(&[("minus", "-"), ("minus minus", "--")]);
    assert_eq!(apply("minus minus", &rules), "--");
    assert_eq!(apply("one minus two", &rules), "one - two");
    // And the order they were written in makes no difference.
    let reversed = self::rules(&[("minus minus", "--"), ("minus", "-")]);
    assert_eq!(apply("minus minus", &reversed), "--");
}

#[test]
fn what_a_rule_writes_is_not_matched_again() {
    // Without this, "dash" would eat its own output forever.
    let rules = rules(&[("minus", "minus minus"), ("minus minus", "--")]);
    assert_eq!(apply("a minus here", &rules), "a minus minus here");
}

#[test]
fn several_rules_and_several_matches() {
    let rules = rules(&[("new line", "\n"), ("open bracket", "(")]);
    assert_eq!(
        apply("first new line open bracket second", &rules),
        "first \n ( second"
    );
    assert_eq!(apply("new line new line", &rules), "\n \n");
}

#[test]
fn nothing_to_do_leaves_the_transcript_alone() {
    let text = "nothing here matches";
    assert_eq!(apply(text, &[]), text);
    assert_eq!(apply(text, &rules(&[("minus minus", "--")])), text);
    // A half-written rule matches nothing rather than everything.
    assert_eq!(apply(text, &rules(&[("", "--")])), text);
    assert_eq!(apply("", &rules(&[("minus", "-")])), "");
}

#[test]
fn a_rule_can_delete_what_you_said() {
    // An empty replacement is a way to drop a verbal tic, and the space it
    // was sitting in goes with it.
    let rules = rules(&[("you know", ""), ("um", "")]);
    assert_eq!(apply("it is um fine", &rules), "it is fine");
    assert_eq!(apply("you know it is fine", &rules), " it is fine");
    // Punctuation the model put around it is not ours to tidy away.
    assert_eq!(apply("it is, you know, fine", &rules), "it is, , fine");
}

#[test]
fn words_with_apostrophes_and_other_alphabets_survive() {
    let rules = rules(&[("don't", "do not"), ("straße", "street")]);
    assert_eq!(apply("I don't mind", &rules), "I do not mind");
    assert_eq!(apply("Straße", &rules), "street");
}

// --- more of what the rules keep to ------------------------------------------

#[test]
fn of_two_rules_as_long_the_first_wins() {
    let both = rules(&[("full stop", "."), ("full stop", "!")]);
    assert_eq!(apply("the end full stop", &both), "the end .");
    let other = rules(&[("full stop", "!"), ("full stop", ".")]);
    assert_eq!(apply("the end full stop", &other), "the end !");
}

#[test]
fn the_order_of_rules_of_different_lengths_is_free() {
    let one = rules(&[("minus", "-"), ("minus minus", "--"), ("minus minus minus", "---")]);
    let other = rules(&[("minus minus minus", "---"), ("minus", "-"), ("minus minus", "--")]);
    for text in [
        "minus",
        "minus minus",
        "minus minus minus",
        "minus minus minus minus",
        "a minus b minus minus c",
    ] {
        assert_eq!(apply(text, &one), apply(text, &other), "{text}");
    }
    assert_eq!(apply("minus minus minus minus", &one), "--- -");
}

#[test]
fn matches_do_not_overlap() {
    let pair = rules(&[("a a", "b")]);
    assert_eq!(apply("a a a", &pair), "b a");
    assert_eq!(apply("a a a a", &pair), "b b");
}

#[test]
fn a_rule_with_nothing_to_listen_for_is_no_rule() {
    let silent = rules(&[("", "x"), ("...", "y"), ("minus", "-"), ("  ", "z")]);
    assert_eq!(apply("one minus two...", &silent), "one - two...");
    assert_eq!(prepare(&silent).len(), 1);
}

#[test]
fn rules_are_readied_longest_first() {
    let ready = prepare(&rules(&[("a", "1"), ("a b c", "3"), ("x", "one more"), ("a b", "2")]));
    let written: Vec<&str> = ready.iter().map(|rule| rule.write.as_str()).collect();
    assert_eq!(written, ["3", "2", "1", "one more"]);
    assert_eq!(ready[0].words, ["a", "b", "c"]);
}

#[test]
fn words_are_letters_digits_and_apostrophes() {
    let found = words("It's 2 o\u{2019}clock, Straße!");
    let lower: Vec<&str> = found.iter().map(|word| word.lower.as_str()).collect();
    assert_eq!(lower, ["it's", "2", "o\u{2019}clock", "straße"]);
    // Positions count characters, not bytes.
    assert_eq!((found[3].start, found[3].end), (16, 22));
    assert!(words(" .,- ").is_empty());
    assert!(words("").is_empty());
}

#[test]
fn case_is_folded_the_way_the_alphabet_does() {
    let rule = rules(&[("ÉTÉ", "summer")]);
    assert_eq!(apply("l'été, Été, ÉTÉ", &rule), "l'été, summer, summer");
    assert_eq!(apply("ΣΟΦΟΣ", &rules(&[("ΣΟΦΟΣ", "wise")])), "wise");
}

#[test]
fn an_apostrophe_at_the_edge_is_no_part_of_a_word() {
    let found = words("'tis the dogs' \u{2018}big\u{2019} ' bowl, rock''n'roll'");
    let lower: Vec<&str> = found.iter().map(|word| word.lower.as_str()).collect();
    assert_eq!(lower, ["tis", "the", "dogs", "big", "bowl", "rock''n'roll"]);
    assert_eq!((found[0].start, found[0].end), (1, 4));
    assert_eq!((found[2].start, found[2].end), (9, 13));
}

#[test]
fn quotation_marks_do_not_get_in_the_way() {
    let rules = rules(&[("minus minus", "--"), ("'", "quote")]);
    assert_eq!(apply("'minus' minus force", &rules), "'-- force");
    assert_eq!(apply("say 'minus minus'", &rules), "say '--'");
    // A lone apostrophe is nothing to listen for.
    assert_eq!(apply("a ' b", &rules), "a ' b");
}

#[test]
fn sentences_are_rewritten_one_by_one() {
    let rules = rules(&[("minus minus", "--"), ("um", ""), ("minus", "-")]);
    let parts = ["", "minus", "say minus minus", " um ", "um", "x um y minus", "'minus'"];
    for mark in [".", "!", "?", "\n"] {
        for a in parts {
            for b in parts {
                assert_eq!(
                    apply(&format!("{a}{mark}{b}"), &rules),
                    format!("{}{mark}{}", apply(a, &rules), apply(b, &rules)),
                );
            }
        }
    }
}

#[test]
fn only_rules_for_one_phrase_mind_their_order() {
    let one = rules(&[("a b", "1"), ("c", "2"), ("b c", "3"), ("c", "4")]);
    let other = rules(&[("b c", "3"), ("c", "2"), ("c", "4"), ("a b", "1")]);
    for text in ["a b c", "b c", "c a b", "x a, b. c", "c"] {
        assert_eq!(apply(text, &one), apply(text, &other), "{text}");
    }
    assert_eq!(apply("a b c", &one), "1 2");
    // Of two rules for a phrase, the first counts.
    assert_eq!(apply("c", &rules(&[("C", "4"), ("c", "2")])), "4");
}
