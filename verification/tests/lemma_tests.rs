use lemmatize::apply::compute_lemma;
use lemmatize::numparse::parse_usize;
use lemmatize::script::{EditInstruction, EditScript};

fn lemma_ok(word: &str, editscript: &str) -> String {
    compute_lemma(word, editscript)
        .unwrap_or_else(|e| panic!("expected success, got error: {}", e.message))
}

#[test]
fn identity_zero_script() {
    assert_eq!(lemma_ok("walking", "0"), "walking");
}

#[test]
fn identity_empty_script() {
    assert_eq!(lemma_ok("walking", ""), "walking");
}

#[test]
fn identity_empty_word() {
    assert_eq!(lemma_ok("", "0"), "");
    assert_eq!(lemma_ok("", ""), "");
}

#[test]
fn scenario_remove_ed() {
    assert_eq!(lemma_ok("walked", "-[ed]"), "walk");
}

#[test]
fn scenario_keep_length_then_remove_fails() {
    assert!(compute_lemma("cats", "=[#3]-[s]").is_err());
}

#[test]
fn scenario_remove_s() {
    assert_eq!(lemma_ok("cats", "-[s]"), "cat");
}

#[test]
fn scenario_keep_whole_word() {
    assert_eq!(lemma_ok("run", "=[run]"), "run");
}

#[test]
fn scenario_mismatched_suffix_fails() {
    assert!(compute_lemma("dog", "-[cat]").is_err());
}

#[test]
fn round_trip_remove_add() {
    let lemma = lemma_ok("walked", "-[ed]+[en]");
    assert_eq!(lemma, "walken");
    assert_eq!(lemma_ok(&lemma, "-[en]+[ed]"), "walked");
}

#[test]
fn round_trip_add_remove() {
    let lemma = lemma_ok("loop", "+[je]");
    assert_eq!(lemma, "loopje");
    assert_eq!(lemma_ok(&lemma, "-[je]"), "loop");
}

#[test]
fn keep_only_script_preserves_word() {
    assert_eq!(lemma_ok("running", "=[ing]=[nn]"), "running");
}

#[test]
fn keep_moves_suffix_and_remove_sees_shortened_head() {
    // Keep finalizes "s" into the tail; the removal then works on "cat".
    assert_eq!(lemma_ok("cats", "=[s]-[t]"), "cas");
}

#[test]
fn keep_length_full_word() {
    assert_eq!(lemma_ok("run", "=[#3]"), "run");
}

#[test]
fn keep_length_beyond_word_fails() {
    assert!(compute_lemma("run", "=[#4]").is_err());
}

#[test]
fn keep_length_zero() {
    assert_eq!(lemma_ok("run", "=[#0]"), "run");
}

#[test]
fn keep_suffix_longer_than_head_fails() {
    assert!(compute_lemma("at", "=[cat]").is_err());
}

#[test]
fn keep_mismatched_suffix_fails() {
    assert!(compute_lemma("dog", "=[og]=[x]").is_err());
}

#[test]
fn add_on_empty_word() {
    assert_eq!(lemma_ok("", "+[s]"), "s");
}

#[test]
fn remove_on_empty_word_fails() {
    assert!(compute_lemma("", "-[s]").is_err());
}

#[test]
fn multibyte_remove_and_add() {
    assert_eq!(lemma_ok("café", "-[é]+[e]"), "cafe");
}

#[test]
fn multibyte_keep_length() {
    // naïve has five characters; the count is in characters, not bytes.
    assert_eq!(lemma_ok("naïve", "=[#5]"), "naïve");
    assert!(compute_lemma("naïve", "=[#6]").is_err());
}

#[test]
fn multibyte_keep_literal() {
    assert_eq!(lemma_ok("naïve", "=[ïve]"), "naïve");
}

#[test]
fn multibyte_chained_edit() {
    assert_eq!(lemma_ok("größer", "=[#2]-[öß]+[oss]"), "grosser");
}

#[test]
fn error_carries_message() {
    let err = compute_lemma("dog", "-[cat]").unwrap_err();
    assert!(!err.message.is_empty());
}

#[test]
fn remove_too_long_message() {
    let err = compute_lemma("at", "-[cat]").unwrap_err();
    assert_eq!(
        err.message,
        "Rule does not match current word, suffix is longer than head (unable to remove suffix cat)"
    );
}

#[test]
fn remove_mismatch_message() {
    let err = compute_lemma("dog", "-[cat]").unwrap_err();
    assert_eq!(
        err.message,
        "Rule does not match current word (unable to find and remove suffix cat)"
    );
}

#[test]
fn keep_too_long_message() {
    let err = compute_lemma("at", "=[cat]").unwrap_err();
    assert_eq!(
        err.message,
        "Rule does not match current word, suffix is longer than head (unable to keep suffix cat)"
    );
}

#[test]
fn keep_mismatch_message() {
    let err = compute_lemma("dog", "=[cat]").unwrap_err();
    assert_eq!(
        err.message,
        "Rule does not match current word (unable to find and keep suffix cat)"
    );
}

#[test]
fn keep_length_too_long_message() {
    let err = compute_lemma("run", "=[#4]").unwrap_err();
    assert_eq!(
        err.message,
        "Rule does not match current word, length to keep is longer than head"
    );
}

#[test]
fn parse_two_segments() {
    let script = EditScript::from_str("-[en]+[t]").unwrap();
    assert_eq!(script.instructions.len(), 2);
    assert!(matches!(script.instructions[0], EditInstruction::Remove("en")));
    assert!(matches!(script.instructions[1], EditInstruction::Add("t")));
}

#[test]
fn parse_keep_length_segment() {
    let script = EditScript::from_str("=[#2]-[s]").unwrap();
    assert_eq!(script.instructions.len(), 2);
    assert!(matches!(script.instructions[0], EditInstruction::KeepLength(2)));
    assert!(matches!(script.instructions[1], EditInstruction::Remove("s")));
}

#[test]
fn parse_keep_literal_hash_without_number() {
    let script = EditScript::from_str("=[#x]").unwrap();
    assert_eq!(script.instructions.len(), 1);
    assert!(matches!(script.instructions[0], EditInstruction::Keep("#x")));
}

#[test]
fn parse_keep_length_with_sign() {
    // str::parse::<usize> accepts a leading plus sign, so the count does too.
    let script = EditScript::from_str("=[#+5]").unwrap();
    assert_eq!(script.instructions.len(), 1);
    assert!(matches!(script.instructions[0], EditInstruction::KeepLength(5)));
}

#[test]
fn parse_keep_count_overflow_is_literal() {
    let script = EditScript::from_str("=[#99999999999999999999]").unwrap();
    assert_eq!(script.instructions.len(), 1);
    assert!(matches!(
        script.instructions[0],
        EditInstruction::Keep("#99999999999999999999")
    ));
}

#[test]
fn parse_unterminated_segment_is_dropped() {
    let script = EditScript::from_str("-[ab").unwrap();
    assert_eq!(script.instructions.len(), 0);
}

#[test]
fn parse_stray_text_produces_nothing() {
    let script = EditScript::from_str("abc]def[").unwrap();
    assert_eq!(script.instructions.len(), 0);
}

#[test]
fn parse_last_tag_before_bracket_wins() {
    let script = EditScript::from_str("+-[x]").unwrap();
    assert_eq!(script.instructions.len(), 1);
    assert!(matches!(script.instructions[0], EditInstruction::Remove("x")));
}

#[test]
fn parse_tag_inside_content_is_literal() {
    // Inside an open segment, tag characters are ordinary content: the
    // mode is set only outside brackets.
    let script = EditScript::from_str("=[a+b]").unwrap();
    assert_eq!(script.instructions.len(), 1);
    assert!(matches!(script.instructions[0], EditInstruction::Keep("a+b")));
}

#[test]
fn parse_remove_with_tag_in_content() {
    let script = EditScript::from_str("-[a+b]").unwrap();
    assert_eq!(script.instructions.len(), 1);
    assert!(matches!(script.instructions[0], EditInstruction::Remove("a+b")));
}

#[test]
fn keep_hyphenated_suffix() {
    assert_eq!(lemma_ok("pick-up", "=[-up]"), "pick-up");
}

#[test]
fn parse_inner_bracket_remarks_content_start() {
    // A second opening bracket inside a segment moves the content start,
    // so only the innermost bracketed text is kept.
    let script = EditScript::from_str("=[a[b]]").unwrap();
    assert_eq!(script.instructions.len(), 1);
    assert!(matches!(script.instructions[0], EditInstruction::Keep("b")));
}

#[test]
fn double_zero_is_not_the_sentinel() {
    // Only the exact script "0" (or an empty one) means "no change"; "00"
    // is parsed and yields no instructions, so the word comes back as is.
    assert_eq!(lemma_ok("walk", "00"), "walk");
}

#[test]
fn parse_empty_segment_content() {
    let script = EditScript::from_str("+[]").unwrap();
    assert_eq!(script.instructions.len(), 1);
    assert!(matches!(script.instructions[0], EditInstruction::Add("")));
}

#[test]
fn apply_empty_add_changes_nothing() {
    assert_eq!(lemma_ok("walk", "+[]"), "walk");
}

#[test]
fn parse_usize_plain() {
    assert_eq!(parse_usize("42"), Some(42));
}

#[test]
fn parse_usize_leading_zeros() {
    assert_eq!(parse_usize("007"), Some(7));
}

#[test]
fn parse_usize_with_sign() {
    assert_eq!(parse_usize("+42"), Some(42));
}

#[test]
fn parse_usize_rejects_empty_and_bare_sign() {
    assert_eq!(parse_usize(""), None);
    assert_eq!(parse_usize("+"), None);
}

#[test]
fn parse_usize_rejects_non_digits() {
    assert_eq!(parse_usize("4a2"), None);
    assert_eq!(parse_usize("-3"), None);
}

#[test]
fn parse_usize_at_bounds() {
    assert_eq!(parse_usize("18446744073709551615"), Some(usize::MAX));
    assert_eq!(parse_usize("18446744073709551616"), None);
}

#[test]
fn matches_str_parse() {
    for s in ["0", "10", "+0", "999", "18446744073709551615", "184467440737095516160", "#", " 4", "4 "] {
        assert_eq!(parse_usize(s), s.parse::<usize>().ok(), "input {:?}", s);
    }
}
