//! General properties of edit-script application.
//!
//! These proof functions state, over the same specifications that the
//! parser's and applier's contracts use, what holds of whole families of
//! scripts: identity round trips for mirrored remove/add scripts, that
//! keep-only scripts leave the word unchanged, and the boundary behaviour
//! of keeping by length.

use vstd::prelude::*;

use crate::apply::{apply_script, run_instr, run_script};
use crate::script::Instr;

verus! {

/// The text segment an instruction carries (empty for a keep-by-length).
pub open spec fn payload_of(ins: Instr) -> Seq<char> {
    match ins {
        Instr::Remove(s) => s,
        Instr::Add(s) => s,
        Instr::Keep(s) => s,
        Instr::KeepLength(_) => Seq::empty(),
    }
}

/// The mirror of one instruction: a removal becomes an addition of the
/// same segment and the other way round; keeps are their own mirror.
pub open spec fn invert_instr(ins: Instr) -> Instr {
    match ins {
        Instr::Remove(s) => Instr::Add(s),
        Instr::Add(s) => Instr::Remove(s),
        Instr::Keep(s) => Instr::Keep(s),
        Instr::KeepLength(n) => Instr::KeepLength(n),
    }
}

/// Whether a script consists solely of removals and additions.
pub open spec fn only_remove_add(instrs: Seq<Instr>) -> bool {
    forall|k: int|
        0 <= k < instrs.len() ==> ((#[trigger] instrs[k]) is Remove || instrs[k] is Add)
}

/// Whether a script consists solely of literal keeps.
pub open spec fn all_keep(instrs: Seq<Instr>) -> bool {
    forall|k: int| 0 <= k < instrs.len() ==> (#[trigger] instrs[k]) is Keep
}

/// The mirrored inverse of a script: the instructions reversed, each one
/// inverted.
pub open spec fn inverse_script(instrs: Seq<Instr>) -> Seq<Instr> {
    instrs.reverse().map_values(|ins: Instr| invert_instr(ins))
}

/// The concatenation of the kept segments in reverse application order:
/// exactly what a keep-only script accumulates as the tail.
pub open spec fn kept_concat(instrs: Seq<Instr>) -> Seq<char>
    decreases instrs.len(),
{
    if instrs.len() == 0 {
        Seq::empty()
    } else {
        kept_concat(instrs.drop_first()) + payload_of(instrs[0])
    }
}

/// Replaying a concatenation of scripts replays the first, then the
/// second from where the first left off.
proof fn lemma_run_script_append(a: Seq<Instr>, b: Seq<Instr>, head: Seq<char>, tail: Seq<char>)
    ensures
        run_script(a + b, head, tail) == (match run_script(a, head, tail) {
            Some(p) => run_script(b, p.0, p.1),
            None => None,
        }),
    decreases a.len(),
{
    if a.len() == 0 {
        assert(a + b =~= b);
    } else {
        assert((a + b)[0] == a[0]);
        assert((a + b).drop_first() =~= a.drop_first() + b);
        match run_instr(a[0], head, tail) {
            Some(p) => {
                lemma_run_script_append(a.drop_first(), b, p.0, p.1);
            },
            None => {},
        }
    }
}

/// Removals and additions never touch the tail.
proof fn lemma_remove_add_keeps_tail(instrs: Seq<Instr>, head: Seq<char>, tail: Seq<char>)
    requires
        only_remove_add(instrs),
    ensures
        run_script(instrs, head, tail) matches Some(p) ==> p.1 == tail,
    decreases instrs.len(),
{
    if instrs.len() > 0 {
        match run_instr(instrs[0], head, tail) {
            Some(p) => {
                assert(only_remove_add(instrs.drop_first()));
                lemma_remove_add_keeps_tail(instrs.drop_first(), p.0, tail);
            },
            None => {},
        }
    }
}

/// Replaying the mirrored inverse of a successful remove/add-only script
/// takes the final head back to the initial one.
proof fn lemma_remove_add_invert(
    instrs: Seq<Instr>,
    head: Seq<char>,
    tail: Seq<char>,
    out: (Seq<char>, Seq<char>),
)
    requires
        only_remove_add(instrs),
        run_script(instrs, head, tail) == Some(out),
    ensures
        run_script(inverse_script(instrs), out.0, tail) == Some((head, tail)),
    decreases instrs.len(),
{
    if instrs.len() == 0 {
        assert(inverse_script(instrs) =~= Seq::<Instr>::empty());
    } else {
        let first = instrs[0];
        let rest = instrs.drop_first();
        match run_instr(first, head, tail) {
            Some(p) => {
                assert(p.1 == tail);
                assert(only_remove_add(rest));
                lemma_remove_add_invert(rest, p.0, tail, out);
                let inv = invert_instr(first);
                let single = seq![inv];
                assert(inverse_script(instrs) =~= inverse_script(rest) + single);
                lemma_run_script_append(inverse_script(rest), single, out.0, tail);
                assert(single.len() == 1);
                assert(single[0] == inv);
                assert(single.drop_first() =~= Seq::<Instr>::empty());
                assert(run_script(Seq::<Instr>::empty(), head, tail) == Some((head, tail)));
                match first {
                    Instr::Remove(s) => {
                        assert(p.0 + s =~= head);
                        assert(run_instr(inv, p.0, tail) == Some((head, tail)));
                        assert(run_script(single, p.0, tail) == Some((head, tail)));
                    },
                    Instr::Add(s) => {
                        assert(p.0.skip(p.0.len() - s.len()) =~= s);
                        assert(p.0.take(p.0.len() - s.len()) =~= head);
                        assert(run_instr(inv, p.0, tail) == Some((head, tail)));
                        assert(run_script(single, p.0, tail) == Some((head, tail)));
                    },
                    _ => {
                        assert(false);
                    },
                }
                assert(run_script(inverse_script(instrs), out.0, tail) == Some((head, tail)));
            },
            None => {
                assert(false);
            },
        }
    }
}

/// Round trip with an inverse script: when a script of removals and
/// additions turns `word` into `lem`, its mirrored inverse (reversed,
/// removals and additions swapped) turns `lem` back into `word`.
pub proof fn lemma_round_trip(instrs: Seq<Instr>, word: Seq<char>, lem: Seq<char>)
    requires
        only_remove_add(instrs),
        apply_script(instrs, word) == Some(lem),
    ensures
        apply_script(inverse_script(instrs), lem) == Some(word),
{
    let empty = Seq::<char>::empty();
    match run_script(instrs, word, empty) {
        Some(p) => {
            lemma_remove_add_keeps_tail(instrs, word, empty);
            assert(p.0 + p.1 =~= p.0);
            assert(lem == p.0);
            lemma_remove_add_invert(instrs, word, empty, p);
            assert(word + empty =~= word);
        },
        None => {
            assert(false);
        },
    }
}

/// Replaying a keep-only script moves exactly the kept concatenation from
/// the end of the head to the front of the tail.
proof fn lemma_keep_run(instrs: Seq<Instr>, head: Seq<char>, tail: Seq<char>)
    requires
        all_keep(instrs),
        kept_concat(instrs).len() <= head.len(),
        head.skip(head.len() - kept_concat(instrs).len()) == kept_concat(instrs),
    ensures
        run_script(instrs, head, tail) == Some(
            (head.take(head.len() - kept_concat(instrs).len()), kept_concat(instrs) + tail),
        ),
    decreases instrs.len(),
{
    let kc = kept_concat(instrs);
    if instrs.len() == 0 {
        assert(head.take(head.len() - kc.len()) =~= head);
        assert(kc + tail =~= tail);
    } else {
        let first = instrs[0];
        let rest = instrs.drop_first();
        let seg = payload_of(first);
        let kr = kept_concat(rest);
        assert(kc == kr + seg);
        assert forall|ii: int| 0 <= ii < seg.len() implies head.skip(head.len() - seg.len())[ii]
            == seg[ii] by {
            assert(head.skip(head.len() - kc.len())[kr.len() + ii] == kc[kr.len() + ii]);
            assert(kc[kr.len() + ii] == seg[ii]);
        }
        assert(head.skip(head.len() - seg.len()) =~= seg);
        let h1 = head.take(head.len() - seg.len());
        let t1 = seg + tail;
        assert(run_instr(first, head, tail) == Some((h1, t1)));
        assert forall|ii: int| 0 <= ii < kr.len() implies h1.skip(h1.len() - kr.len())[ii]
            == kr[ii] by {
            assert(head.skip(head.len() - kc.len())[ii] == kc[ii]);
            assert(kc[ii] == kr[ii]);
        }
        assert(h1.skip(h1.len() - kr.len()) =~= kr);
        assert(all_keep(rest));
        lemma_keep_run(rest, h1, t1);
        assert(h1.take(h1.len() - kr.len()) =~= head.take(head.len() - kc.len()));
        assert(kr + t1 =~= kc + tail);
    }
}

/// A keep-only script whose kept concatenation is a suffix of the word
/// leaves the word unchanged: nothing is removed or added, only moved
/// between head and tail and reassembled.
pub proof fn lemma_keep_preserves(instrs: Seq<Instr>, word: Seq<char>)
    requires
        all_keep(instrs),
        kept_concat(instrs).len() <= word.len(),
        word.skip(word.len() - kept_concat(instrs).len()) == kept_concat(instrs),
    ensures
        apply_script(instrs, word) == Some(word),
{
    let kc = kept_concat(instrs);
    lemma_keep_run(instrs, word, Seq::empty());
    assert(word.take(word.len() - kc.len()) + (kc + Seq::<char>::empty()) =~= word);
}

/// Keeping by length at the boundary: a count equal to the whole head is
/// valid, empties the head, and returns the word unchanged; a count past
/// the head fails.
pub proof fn lemma_keep_length_boundary(n: nat, word: Seq<char>)
    ensures
        n == word.len() ==> apply_script(seq![Instr::KeepLength(n)], word) == Some(word),
        n > word.len() ==> apply_script(seq![Instr::KeepLength(n)], word) is None,
{
    let s = seq![Instr::KeepLength(n)];
    let empty = Seq::<char>::empty();
    assert(s.drop_first() =~= Seq::<Instr>::empty());
    if n == word.len() {
        let h1 = word.take(word.len() - n);
        let t1 = word.skip(word.len() - n) + empty;
        assert(run_instr(s[0], word, empty) == Some((h1, t1)));
        assert(run_script(s, word, empty) == run_script(s.drop_first(), h1, t1));
        assert(run_script(s.drop_first(), h1, t1) == Some((h1, t1)));
        assert(h1 + t1 =~= word);
    } else if n > word.len() {
        assert(run_instr(s[0], word, empty) is None);
    }
}

} // verus!
