//! The edit-script mini-language and its parser.
//!
//! An edit script is a concatenation of tagged bracketed segments
//! `<tag>[<content>]`, where the tag is `+` (add), `-` (remove) or `=`
//! (keep). A keep segment whose content is `#` followed by a decimal count
//! keeps by character count rather than by literal content. Segments left
//! unterminated at end of input produce no instruction.

use vstd::prelude::*;
use vstd::string::*;

use crate::error::LemmaError;
use crate::numparse::{numeral_value, parse_usize, parses_as_usize};

verus! {

/// One edit instruction, borrowing its text segment from the edit-script
/// string it was parsed from; the script must not outlive that string.
pub enum EditInstruction<'a> {
    /// Strip this suffix from the current head.
    Remove(&'a str),
    /// Append this segment to the current head.
    Add(&'a str),
    /// Move this suffix of the current head, unchanged, to the tail.
    Keep(&'a str),
    /// Move the last so-many characters of the current head to the tail.
    KeepLength(usize),
}

/// The mathematical form of an instruction: payloads as character sequences.
pub enum Instr {
    Remove(Seq<char>),
    Add(Seq<char>),
    Keep(Seq<char>),
    KeepLength(nat),
}

impl<'a> View for EditInstruction<'a> {
    type V = Instr;

    open spec fn view(&self) -> Instr {
        match self {
            EditInstruction::Remove(s) => Instr::Remove(s@),
            EditInstruction::Add(s) => Instr::Add(s@),
            EditInstruction::Keep(s) => Instr::Keep(s@),
            EditInstruction::KeepLength(n) => Instr::KeepLength(*n as nat),
        }
    }
}

/// An ordered sequence of edit instructions, applied strictly left to right.
pub struct EditScript<'a> {
    pub instructions: Vec<EditInstruction<'a>>,
}

impl<'a> View for EditScript<'a> {
    type V = Seq<Instr>;

    open spec fn view(&self) -> Seq<Instr> {
        self.instructions@.map_values(|ins: EditInstruction<'a>| ins@)
    }
}

/// Whether `c` is one of the three segment tags.
pub open spec fn is_tag_char(c: char) -> bool {
    c == '+' || c == '-' || c == '='
}

/// The instruction denoted by one closed segment: its tag's mode character
/// and its bracketed content. A keep segment whose content is `#` followed
/// by a decimal count that fits in `usize` keeps by length; any other keep
/// content is a literal suffix to keep.
pub open spec fn classify_segment(mode: char, content: Seq<char>) -> Instr {
    if mode == '+' {
        Instr::Add(content)
    } else if mode == '-' {
        Instr::Remove(content)
    } else {
        if content.len() > 0 && content[0] == '#' && parses_as_usize(content.drop_first()) {
            Instr::KeepLength(numeral_value(content.drop_first()))
        } else {
            Instr::Keep(content)
        }
    }
}

/// The scan of the edit-script text from position `i` onward, with the
/// current mode (`' '` when unset), the content-start marker `begin`
/// (0 when unset), and the instructions accumulated so far.
///
/// A closing bracket with a mode set and content begun closes the segment;
/// an opening bracket with a mode set marks where content begins; a tag
/// character outside brackets re-arms the mode, the last one before an
/// opening bracket winning. Inside an open segment, tag characters are
/// ordinary content.
pub open spec fn scan(
    s: Seq<char>,
    i: int,
    mode: char,
    begin: int,
    acc: Seq<Instr>,
) -> Seq<Instr>
    decreases s.len() - i,
{
    if i < 0 || i >= s.len() {
        acc
    } else {
        let c = s[i];
        if mode != ' ' && begin > 0 && c == ']' {
            scan(s, i + 1, ' ', 0, acc.push(classify_segment(mode, s.subrange(begin, i))))
        } else {
            let next_begin = if mode != ' ' && c == '[' {
                i + 1
            } else {
                begin
            };
            let next_mode = if begin == 0 && is_tag_char(c) {
                c
            } else {
                mode
            };
            scan(s, i + 1, next_mode, next_begin, acc)
        }
    }
}

/// The instruction sequence denoted by an edit-script text.
pub open spec fn parse_script(s: Seq<char>) -> Seq<Instr> {
    scan(s, 0, ' ', 0, Seq::empty())
}

/// The instruction for a closed keep segment with the given content.
fn keep_instruction<'a>(content: &'a str) -> (ins: EditInstruction<'a>)
    ensures
        ins@ == classify_segment('=', content@),
{
    let clen = content.unicode_len();
    if clen > 0 && content.get_char(0) == '#' {
        let rest = content.substring_char(1, clen);
        proof {
            assert(rest@ =~= content@.drop_first());
        }
        match parse_usize(rest) {
            Some(count) => EditInstruction::KeepLength(count),
            None => EditInstruction::Keep(content),
        }
    } else {
        EditInstruction::Keep(content)
    }
}

impl<'a> EditScript<'a> {
    /// Parses the bracketed tag notation into an instruction sequence.
    ///
    /// The scan always succeeds: the error branch guards an internal mode
    /// value outside the three tags, which the scan cannot produce.
    pub fn from_str(editscript: &'a str) -> (r: Result<Self, LemmaError>)
        ensures
            r is Ok,
            r matches Ok(sc) ==> sc@ == parse_script(editscript@),
    {
        let n = editscript.unicode_len();
        let mut instructions: Vec<EditInstruction<'a>> = Vec::new();
        let mut mode: char = ' ';
        let mut begin: usize = 0;
        let mut i: usize = 0;
        proof {
            assert(instructions@.map_values(|ins: EditInstruction<'a>| ins@)
                =~= Seq::<Instr>::empty());
        }
        while i < n
            invariant
                n == editscript@.len(),
                i <= n,
                begin <= i,
                mode == ' ' || mode == '+' || mode == '-' || mode == '=',
                scan(
                    editscript@,
                    i as int,
                    mode,
                    begin as int,
                    instructions@.map_values(|ins: EditInstruction<'a>| ins@),
                ) == parse_script(editscript@),
            decreases n - i,
        {
            let ghost i0 = i as int;
            let ghost mode0 = mode;
            let ghost begin0 = begin as int;
            let ghost acc0 = instructions@.map_values(|ins: EditInstruction<'a>| ins@);
            let c = editscript.get_char(i);
            if mode != ' ' {
                if begin > 0 && c == ']' {
                    let content = editscript.substring_char(begin, i);
                    let ins: EditInstruction<'a> = if mode == '+' {
                        EditInstruction::Add(content)
                    } else if mode == '-' {
                        EditInstruction::Remove(content)
                    } else if mode == '=' {
                        keep_instruction(content)
                    } else {
                        // unreachable: whenever a segment is open, the mode
                        // is one of the three tags
                        return Err(
                            LemmaError::new(
                                "parsing editscript failed (invalid mode), should not happen!".to_owned(),
                            ),
                        );
                    };
                    proof {
                        assert(ins@ == classify_segment(mode0, editscript@.subrange(begin0, i0)));
                    }
                    instructions.push(ins);
                    proof {
                        assert(instructions@.map_values(|ins2: EditInstruction<'a>| ins2@) =~= acc0
                            .push(ins@));
                    }
                    begin = 0;
                    mode = ' ';
                }
                if c == '[' {
                    begin = i + 1;
                }
            }
            if begin == 0 && (c == '+' || c == '-' || c == '=') {
                mode = c;
            }
            i = i + 1;
            proof {
                assert(scan(editscript@, i0, mode0, begin0, acc0) == scan(
                    editscript@,
                    i as int,
                    mode,
                    begin as int,
                    instructions@.map_values(|ins: EditInstruction<'a>| ins@),
                ));
            }
        }
        Ok(EditScript { instructions })
    }
}

} // verus!
