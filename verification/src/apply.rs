//! Replaying a parsed edit script against a word.
//!
//! Application keeps two character buffers: `head`, the still-mutable front
//! of the word, and `tail`, the already-finalized end of the output lemma,
//! built right to left. Each instruction works on the current end of
//! `head`; when all instructions are consumed the lemma is `head` followed
//! by `tail`. All lengths and slices are in characters, never bytes.

use vstd::prelude::*;
use vstd::string::*;

use crate::error::LemmaError;
use crate::script::{parse_script, EditInstruction, EditScript, Instr};

verus! {

/// The effect of one instruction on the `(head, tail)` pair, or `None`
/// when the instruction does not apply:
/// a remove or keep whose suffix is longer than `head` or does not equal
/// the end of `head`, or a keep-by-length whose count exceeds `head`.
pub open spec fn run_instr(ins: Instr, head: Seq<char>, tail: Seq<char>) -> Option<
    (Seq<char>, Seq<char>),
> {
    match ins {
        Instr::Remove(s) => if s.len() <= head.len() && head.skip(head.len() - s.len()) == s {
            Some((head.take(head.len() - s.len()), tail))
        } else {
            None
        },
        Instr::Add(s) => Some((head + s, tail)),
        Instr::Keep(s) => if s.len() <= head.len() && head.skip(head.len() - s.len()) == s {
            Some((head.take(head.len() - s.len()), s + tail))
        } else {
            None
        },
        Instr::KeepLength(n) => if n <= head.len() {
            Some((head.take(head.len() - n), head.skip(head.len() - n) + tail))
        } else {
            None
        },
    }
}

/// The `(head, tail)` pair after replaying the instructions in order, or
/// `None` as soon as one of them does not apply.
pub open spec fn run_script(instrs: Seq<Instr>, head: Seq<char>, tail: Seq<char>) -> Option<
    (Seq<char>, Seq<char>),
>
    decreases instrs.len(),
{
    if instrs.len() == 0 {
        Some((head, tail))
    } else {
        match run_instr(instrs[0], head, tail) {
            Some(p) => run_script(instrs.drop_first(), p.0, p.1),
            None => None,
        }
    }
}

/// The lemma an instruction sequence produces from a word: the final head
/// followed by the final tail, or `None` when some instruction fails.
pub open spec fn apply_script(instrs: Seq<Instr>, word: Seq<char>) -> Option<Seq<char>> {
    match run_script(instrs, word, Seq::empty()) {
        Some(p) => Some(p.0 + p.1),
        None => None,
    }
}

/// The message reported when one instruction cannot be applied to the
/// current head: it names the operation and the offending segment, or the
/// length problem for a keep-by-length. An addition never fails.
pub open spec fn instr_failure_message(ins: Instr, head: Seq<char>) -> Seq<char> {
    match ins {
        Instr::Remove(s) => if s.len() > head.len() {
            "Rule does not match current word, suffix is longer than head (unable to remove suffix "@
                + s + ")"@
        } else {
            "Rule does not match current word (unable to find and remove suffix "@ + s + ")"@
        },
        Instr::Add(s) => Seq::empty(),
        Instr::Keep(s) => if s.len() > head.len() {
            "Rule does not match current word, suffix is longer than head (unable to keep suffix "@
                + s + ")"@
        } else {
            "Rule does not match current word (unable to find and keep suffix "@ + s + ")"@
        },
        Instr::KeepLength(n) => "Rule does not match current word, length to keep is longer than head"@,
    }
}

/// The message for the first instruction of a replay that fails, with the
/// head as it stands when that instruction is reached; empty when every
/// instruction applies.
pub open spec fn script_failure_message(
    instrs: Seq<Instr>,
    head: Seq<char>,
    tail: Seq<char>,
) -> Seq<char>
    decreases instrs.len(),
{
    if instrs.len() == 0 {
        Seq::empty()
    } else {
        match run_instr(instrs[0], head, tail) {
            Some(p) => script_failure_message(instrs.drop_first(), p.0, p.1),
            None => instr_failure_message(instrs[0], head),
        }
    }
}

/// Whether an edit-script text is the "no change" sentinel: empty, or
/// exactly `0`.
pub open spec fn is_identity_script(es: Seq<char>) -> bool {
    es.len() == 0 || es == seq!['0']
}

/// The lemma for a word and an edit-script text: the word itself for the
/// sentinel, otherwise the result of replaying the parsed script.
pub open spec fn lemma_of(word: Seq<char>, es: Seq<char>) -> Option<Seq<char>> {
    if is_identity_script(es) {
        Some(word)
    } else {
        apply_script(parse_script(es), word)
    }
}

/// Character-wise string equality.
fn str_eq(a: &str, b: &str) -> (r: bool)
    ensures
        r == (a@ == b@),
{
    let na = a.unicode_len();
    let nb = b.unicode_len();
    if na != nb {
        return false;
    }
    let mut i: usize = 0;
    while i < na
        invariant
            na == a@.len(),
            na == b@.len(),
            i <= na,
            forall|k: int| 0 <= k < i ==> a@[k] == b@[k],
        decreases na - i,
    {
        if a.get_char(i) != b.get_char(i) {
            return false;
        }
        i = i + 1;
    }
    proof {
        assert(a@ =~= b@);
    }
    true
}

/// Computes the lemma of `word` under `editscript`.
///
/// The sentinel scripts (empty, or exactly `0`) return the word unchanged.
/// Any other script is parsed and replayed in full: the call succeeds
/// exactly when every instruction applies, and no partial lemma is ever
/// produced on failure. A failure carries the message for the first
/// instruction that did not apply.
pub fn compute_lemma(word: &str, editscript: &str) -> (r: Result<String, LemmaError>)
    ensures
        r is Ok <==> lemma_of(word@, editscript@) is Some,
        r matches Ok(l) ==> lemma_of(word@, editscript@) == Some(l@),
        is_identity_script(editscript@) ==> (r matches Ok(l) && l@ == word@),
        r matches Err(e) ==> e.message@ == script_failure_message(
            parse_script(editscript@),
            word@,
            Seq::<char>::empty(),
        ),
{
    if editscript.is_empty() || (editscript.unicode_len() == 1 && editscript.get_char(0) == '0') {
        proof {
            if editscript@.len() != 0 {
                assert(editscript@ =~= seq!['0']);
            }
        }
        return Ok(word.to_owned());
    }
    proof {
        assert(!is_identity_script(editscript@));
    }
    let script = match EditScript::from_str(editscript) {
        Ok(sc) => sc,
        Err(e) => {
            return Err(e);
        },
    };
    let ghost instrs = script@;
    let mut head: String = word.to_owned();
    let mut tail: String = String::new();
    let m = script.instructions.len();
    let mut j: usize = 0;
    proof {
        assert(instrs.skip(0) =~= instrs);
    }
    while j < m
        invariant
            !is_identity_script(editscript@),
            instrs == parse_script(editscript@),
            instrs == script@,
            m == script.instructions@.len(),
            m == instrs.len(),
            j <= m,
            run_script(instrs.skip(j as int), head@, tail@) == run_script(
                instrs,
                word@,
                Seq::<char>::empty(),
            ),
            script_failure_message(instrs.skip(j as int), head@, tail@) == script_failure_message(
                instrs,
                word@,
                Seq::<char>::empty(),
            ),
        decreases m - j,
    {
        let ghost head0 = head@;
        let ghost tail0 = tail@;
        let ins = &script.instructions[j];
        proof {
            assert(instrs.skip(j as int)[0] == instrs[j as int]);
            assert(instrs[j as int] == script.instructions@[j as int]@);
            assert(instrs.skip(j as int).drop_first() =~= instrs.skip(j as int + 1));
        }
        let headchars = head.as_str().unicode_len();
        match ins {
            EditInstruction::Remove(suffix) => {
                let suffixchars = suffix.unicode_len();
                if suffixchars > headchars {
                    return Err(
                        LemmaError::new(
                            ("Rule does not match current word, suffix is longer than head (unable to remove suffix ".to_owned()).concat(
                                suffix,
                            ).concat(")"),
                        ),
                    );
                }
                let found = head.as_str().substring_char(headchars - suffixchars, headchars);
                proof {
                    assert(found@ =~= head0.skip(head0.len() - suffix@.len()));
                }
                if !str_eq(found, suffix) {
                    return Err(
                        LemmaError::new(
                            ("Rule does not match current word (unable to find and remove suffix ".to_owned()).concat(
                                suffix,
                            ).concat(")"),
                        ),
                    );
                }
                let shortened = head.as_str().substring_char(0, headchars - suffixchars);
                proof {
                    assert(shortened@ =~= head0.take(head0.len() - suffix@.len()));
                }
                head = shortened.to_owned();
            },
            EditInstruction::Add(segment) => {
                head.append(segment);
            },
            EditInstruction::KeepLength(keeplength) => {
                let count = *keeplength;
                if count > headchars {
                    return Err(
                        LemmaError::new(
                            "Rule does not match current word, length to keep is longer than head".to_owned(),
                        ),
                    );
                }
                let kept = head.as_str().substring_char(headchars - count, headchars);
                proof {
                    assert(kept@ =~= head0.skip(head0.len() - count));
                }
                let new_tail = (kept.to_owned()).concat(tail.as_str());
                let shortened = head.as_str().substring_char(0, headchars - count);
                proof {
                    assert(shortened@ =~= head0.take(head0.len() - count));
                }
                head = shortened.to_owned();
                tail = new_tail;
            },
            EditInstruction::Keep(suffix) => {
                let suffixchars = suffix.unicode_len();
                if suffixchars > headchars {
                    return Err(
                        LemmaError::new(
                            ("Rule does not match current word, suffix is longer than head (unable to keep suffix ".to_owned()).concat(
                                suffix,
                            ).concat(")"),
                        ),
                    );
                }
                let found = head.as_str().substring_char(headchars - suffixchars, headchars);
                proof {
                    assert(found@ =~= head0.skip(head0.len() - suffix@.len()));
                }
                if !str_eq(found, suffix) {
                    return Err(
                        LemmaError::new(
                            ("Rule does not match current word (unable to find and keep suffix ".to_owned()).concat(
                                suffix,
                            ).concat(")"),
                        ),
                    );
                }
                let new_tail = (found.to_owned()).concat(tail.as_str());
                let shortened = head.as_str().substring_char(0, headchars - suffixchars);
                proof {
                    assert(shortened@ =~= head0.take(head0.len() - suffix@.len()));
                }
                head = shortened.to_owned();
                tail = new_tail;
            },
        }
        j = j + 1;
    }
    proof {
        assert(instrs.skip(m as int) =~= Seq::<Instr>::empty());
    }
    let mut result = head;
    result.append(tail.as_str());
    Ok(result)
}

} // verus!
