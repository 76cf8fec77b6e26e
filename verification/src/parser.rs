//! Line-level lexical classification: stripping comments and whitespace,
//! and parsing each remaining line into one of the three instruction
//! shapes (address, label, compute).

use vstd::prelude::*;

use crate::AsmError;
use crate::ErrorModel;
use crate::code::comp_code;
use crate::code::decode_comp;
use crate::code::decode_dest;
use crate::code::decode_jump;
use crate::code::dest_code;
use crate::code::jump_code;
use crate::text::char_digit;
use crate::text::chars_to_string;
use crate::text::digit_val;
use crate::text::find_char;
use crate::text::find_in_chars;
use crate::text::is_digit;
use crate::text::is_digit_char;
use crate::text::is_space;
use crate::text::is_space_char;
use crate::text::lemma_find_char_props;
use crate::text::subvec;

verus! {

/// One parsed source line. Every variant carries the zero-based index of
/// the source line it came from, used only for diagnostics.
#[derive(Debug)]
pub enum Instruction {
    /// Address instruction `@operand`: loads a 15-bit value into the
    /// address register. Exactly one of `symbol` (a name to resolve
    /// later) and `address` (a literal) is set by the parser; symbol
    /// resolution rewrites the instruction to a concrete `address`.
    A { lnum: usize, symbol: Option<String>, address: Option<usize> },
    /// Label pseudo-instruction `(name)`: binds `symbol` to the address
    /// of the next real instruction and occupies no instruction-memory
    /// slot.
    L { lnum: usize, symbol: String },
    /// Compute instruction `dest=comp;jump`: destination and jump are
    /// optional, the computation is mandatory.
    C { lnum: usize, dest: Option<String>, comp: Option<String>, jump: Option<String> },
}

/// Mathematical model of an [`Instruction`]: the same shapes over
/// character sequences and unbounded integers.
pub enum InstructionModel {
    A { lnum: int, symbol: Option<Seq<char>>, address: Option<int> },
    L { lnum: int, symbol: Seq<char> },
    C { lnum: int, dest: Option<Seq<char>>, comp: Option<Seq<char>>, jump: Option<Seq<char>> },
}

impl View for Instruction {
    type V = InstructionModel;

    open spec fn view(&self) -> InstructionModel {
        match self {
            Instruction::A { lnum, symbol, address } => InstructionModel::A {
                lnum: *lnum as int,
                symbol: match symbol {
                    Some(s) => Some(s@),
                    None => None,
                },
                address: match address {
                    Some(a) => Some(*a as int),
                    None => None,
                },
            },
            Instruction::L { lnum, symbol } => InstructionModel::L {
                lnum: *lnum as int,
                symbol: symbol@,
            },
            Instruction::C { lnum, dest, comp, jump } => InstructionModel::C {
                lnum: *lnum as int,
                dest: match dest {
                    Some(s) => Some(s@),
                    None => None,
                },
                comp: match comp {
                    Some(s) => Some(s@),
                    None => None,
                },
                jump: match jump {
                    Some(s) => Some(s@),
                    None => None,
                },
            },
        }
    }
}

/// The models of a sequence of instructions.
pub open spec fn models_of(insts: Seq<Instruction>) -> Seq<InstructionModel> {
    insts.map_values(|i: Instruction| i@)
}

/// The line with all whitespace removed. The language has no significant
/// whitespace, so nothing is merged incorrectly.
pub open spec fn despace(s: Seq<char>) -> Seq<char>
    decreases s.len(),
{
    if s.len() == 0 {
        Seq::empty()
    } else if is_space_char(s.last()) {
        despace(s.drop_last())
    } else {
        despace(s.drop_last()).push(s.last())
    }
}

/// The line truncated at the first occurrence of the two-character
/// comment marker `//`.
pub open spec fn cut_comment(s: Seq<char>) -> Seq<char>
    decreases s.len(),
{
    if s.len() < 2 {
        s
    } else if s[0] == '/' && s[1] == '/' {
        Seq::empty()
    } else {
        seq![s[0]] + cut_comment(s.drop_first())
    }
}

/// What the preprocessor leaves of a raw line: whitespace removed, then
/// everything from the first comment marker on discarded. A line whose
/// residue is empty yields no instruction.
pub open spec fn strip_spec(s: Seq<char>) -> Seq<char> {
    cut_comment(despace(s))
}

/// Removes all whitespace from a line.
pub fn remove_spaces(v: &Vec<char>) -> (r: Vec<char>)
    ensures
        r@ == despace(v@),
{
    let mut r: Vec<char> = Vec::new();
    let mut i: usize = 0;
    proof {
        assert(v@.take(0int) =~= Seq::<char>::empty());
    }
    while i < v.len()
        invariant
            i <= v.len(),
            r@ == despace(v@.take(i as int)),
        decreases v.len() - i,
    {
        let c = v[i];
        if !is_space(c) {
            r.push(c);
        }
        proof {
            assert(v@.take(i + 1 as int).drop_last() =~= v@.take(i as int));
            assert(v@.take(i + 1 as int).last() == v@[i as int]);
        }
        i = i + 1;
    }
    proof {
        assert(v@.take(v@.len() as int) =~= v@);
    }
    r
}

/// Truncates a line at the first `//`.
pub fn remove_comments(v: &Vec<char>) -> (r: Vec<char>)
    ensures
        r@ == cut_comment(v@),
{
    let mut i: usize = 0;
    let mut r: Vec<char> = Vec::new();
    while i < v.len()
        invariant
            i <= v.len(),
            r@ == v@.take(i as int),
            forall|j: int|
                0 <= j < i && j + 1 < v@.len() ==> !(#[trigger] v@[j] == '/' && v@[j + 1] == '/'),
        decreases v.len() - i,
    {
        if i + 1 < v.len() && v[i] == '/' && v[i + 1] == '/' {
            proof {
                lemma_cut_comment_skip(v@, i as int);
            }
            return r;
        }
        r.push(v[i]);
        proof {
            assert(v@.take(i as int).push(v@[i as int]) =~= v@.take(i + 1 as int));
        }
        i = i + 1;
    }
    // No comment marker: the whole line stays.
    proof {
        lemma_cut_comment_whole(v@);
        assert(v@.take(v@.len() as int) =~= v@);
    }
    r
}

/// Strips a raw line down to its instruction text.
pub fn strip_line(v: &Vec<char>) -> (r: Vec<char>)
    ensures
        r@ == strip_spec(v@),
{
    let despaced = remove_spaces(v);
    remove_comments(&despaced)
}

/// Truncating at the first comment marker keeps exactly the characters
/// before it.
proof fn lemma_cut_comment_skip(s: Seq<char>, i: int)
    requires
        0 <= i,
        i + 1 < s.len(),
        s[i] == '/' && s[i + 1] == '/',
        forall|j: int| 0 <= j < i ==> !(#[trigger] s[j] == '/' && s[j + 1] == '/'),
    ensures
        cut_comment(s) == s.take(i),
    decreases i,
{
    if i == 0 {
        assert(cut_comment(s) =~= s.take(0int));
    } else {
        lemma_cut_comment_skip(s.drop_first(), i - 1);
        assert(forall|j: int| 1 <= j < s.len() ==> s[j] == s.drop_first()[j - 1]);
        assert(cut_comment(s) == seq![s[0]] + s.drop_first().take(i - 1));
        assert(seq![s[0]] + s.drop_first().take(i - 1) =~= s.take(i));
    }
}

/// A line without the comment marker is left whole.
proof fn lemma_cut_comment_whole(s: Seq<char>)
    requires
        forall|j: int| 0 <= j && j + 1 < s.len() ==> !(#[trigger] s[j] == '/' && s[j + 1] == '/'),
    ensures
        cut_comment(s) == s,
    decreases s.len(),
{
    if s.len() >= 2 {
        assert forall|j: int|
            0 <= j && j + 1 < s.drop_first().len() implies !(#[trigger] s.drop_first()[j] == '/'
            && s.drop_first()[j + 1] == '/') by {
            assert(s.drop_first()[j] == s[j + 1]);
            assert(s.drop_first()[j + 1] == s[j + 2]);
        }
        lemma_cut_comment_whole(s.drop_first());
        assert(seq![s[0]] + s.drop_first() =~= s);
    }
}

/// Whitespace removal leaves no whitespace behind.
proof fn lemma_despace_no_space(s: Seq<char>)
    ensures
        forall|i: int| 0 <= i < despace(s).len() ==> !is_space_char(#[trigger] despace(s)[i]),
    decreases s.len(),
{
    if s.len() > 0 {
        lemma_despace_no_space(s.drop_last());
        if !is_space_char(s.last()) {
            assert forall|i: int|
                0 <= i < despace(s).len() implies !is_space_char(#[trigger] despace(s)[i]) by {
                if i < despace(s).len() - 1 {
                    assert(despace(s)[i] == despace(s.drop_last())[i]);
                } else {
                    assert(despace(s)[i] == s.last());
                }
            }
        }
    }
}

/// A line without whitespace is left whole by whitespace removal.
proof fn lemma_despace_identity(s: Seq<char>)
    requires
        forall|i: int| 0 <= i < s.len() ==> !is_space_char(#[trigger] s[i]),
    ensures
        despace(s) == s,
    decreases s.len(),
{
    if s.len() > 0 {
        lemma_despace_identity(s.drop_last());
        assert(s.drop_last().push(s.last()) =~= s);
    }
}

/// Comment truncation keeps a prefix of the line, character for
/// character.
proof fn lemma_cut_comment_prefix(s: Seq<char>)
    ensures
        cut_comment(s).len() <= s.len(),
        forall|j: int| 0 <= j < cut_comment(s).len() ==> #[trigger] cut_comment(s)[j] == s[j],
    decreases s.len(),
{
    if s.len() >= 2 && !(s[0] == '/' && s[1] == '/') {
        lemma_cut_comment_prefix(s.drop_first());
    }
}

/// Comment truncation leaves no comment marker behind.
proof fn lemma_cut_comment_no_marker(s: Seq<char>)
    ensures
        forall|j: int|
            0 <= j && j + 1 < cut_comment(s).len() ==> !(#[trigger] cut_comment(s)[j] == '/'
                && cut_comment(s)[j + 1] == '/'),
    decreases s.len(),
{
    if s.len() < 2 {
    } else if s[0] == '/' && s[1] == '/' {
    } else {
        lemma_cut_comment_no_marker(s.drop_first());
        lemma_cut_comment_prefix(s.drop_first());
        lemma_cut_comment_prefix(s);
        let x = cut_comment(s);
        assert forall|j: int|
            0 <= j && j + 1 < x.len() implies !(#[trigger] x[j] == '/' && x[j + 1] == '/') by {
            assert(x[j] == s[j]);
            assert(x[j + 1] == s[j + 1]);
            if j > 0 {
                let y = cut_comment(s.drop_first());
                assert(x[j] == y[j - 1]);
                assert(x[j + 1] == y[j]);
            }
        }
    }
}

/// Law: comment and whitespace stripping is idempotent — stripping a
/// stripped line yields it unchanged.
pub proof fn lemma_strip_idempotent(s: Seq<char>)
    ensures
        strip_spec(strip_spec(s)) == strip_spec(s),
{
    let y = despace(s);
    let x = cut_comment(y);
    lemma_despace_no_space(s);
    lemma_cut_comment_prefix(y);
    assert forall|i: int| 0 <= i < x.len() implies !is_space_char(#[trigger] x[i]) by {
        assert(x[i] == y[i]);
    }
    lemma_despace_identity(x);
    lemma_cut_comment_no_marker(y);
    lemma_cut_comment_whole(x);
}

/// A non-empty run of decimal digits.
pub open spec fn all_digits(s: Seq<char>) -> bool {
    s.len() > 0 && forall|i: int| 0 <= i < s.len() ==> is_digit_char(#[trigger] s[i])
}

/// The number a run of decimal digits denotes.
pub open spec fn digits_val(s: Seq<char>) -> int
    decreases s.len(),
{
    if s.len() == 0 {
        0
    } else {
        digits_val(s.drop_last()) * 10 + digit_val(s.last())
    }
}

/// A run of digits denotes a non-negative number.
proof fn lemma_digits_val_nonneg(s: Seq<char>)
    requires
        forall|i: int| 0 <= i < s.len() ==> is_digit_char(#[trigger] s[i]),
    ensures
        digits_val(s) >= 0,
    decreases s.len(),
{
    if s.len() > 0 {
        lemma_digits_val_nonneg(s.drop_last());
    }
}

/// Reading more digits never shrinks the denoted number.
proof fn lemma_digits_val_prefix_le(s: Seq<char>, i: int)
    requires
        forall|k: int| 0 <= k < s.len() ==> is_digit_char(#[trigger] s[k]),
        0 <= i <= s.len(),
    ensures
        digits_val(s.take(i)) <= digits_val(s),
    decreases s.len(),
{
    if i < s.len() {
        assert(forall|k: int|
            0 <= k < s.drop_last().len() ==> is_digit_char(#[trigger] s.drop_last()[k]));
        lemma_digits_val_prefix_le(s.drop_last(), i);
        assert(s.drop_last().take(i) =~= s.take(i));
        lemma_digits_val_nonneg(s.drop_last());
    } else {
        assert(s.take(i) =~= s);
    }
}

/// Reads an operand as a non-negative integer: all characters are
/// decimal digits and the denoted number fits the machine word.
pub fn parse_number(v: &Vec<char>) -> (r: Option<usize>)
    ensures
        match r {
            Some(n) => all_digits(v@) && digits_val(v@) == n as int,
            None => !(all_digits(v@) && digits_val(v@) <= usize::MAX as int),
        },
{
    if v.len() == 0 {
        return None;
    }
    let mut val: usize = 0;
    let mut i: usize = 0;
    while i < v.len()
        invariant
            i <= v.len(),
            forall|j: int| 0 <= j < i ==> is_digit_char(#[trigger] v@[j]),
            val as int == digits_val(v@.take(i as int)),
        decreases v.len() - i,
    {
        let c = v[i];
        if !is_digit(c) {
            return None;
        }
        let d = char_digit(c);
        proof {
            assert(v@.take(i + 1 as int).drop_last() =~= v@.take(i as int));
            assert(v@.take(i + 1 as int).last() == v@[i as int]);
        }
        if val > (usize::MAX - d) / 10 {
            proof {
                assert(digits_val(v@.take(i + 1 as int)) > usize::MAX as int);
                if all_digits(v@) {
                    lemma_digits_val_prefix_le(v@, i + 1 as int);
                }
            }
            return None;
        }
        val = val * 10 + d;
        i = i + 1;
    }
    proof {
        assert(v@.take(v@.len() as int) =~= v@);
    }
    Some(val)
}

/// An address instruction: the marker `@` followed by at least one
/// character.
pub open spec fn is_a_line(s: Seq<char>) -> bool {
    s.len() >= 2 && s[0] == '@'
}

/// A label declaration: a non-empty name enclosed in parentheses.
pub open spec fn is_l_line(s: Seq<char>) -> bool {
    s.len() >= 3 && s[0] == '(' && s[s.len() - 1] == ')'
}

/// Destination field of a compute line: the text before the assignment
/// marker `=`, if the marker is present.
pub open spec fn c_dest(s: Seq<char>) -> Option<Seq<char>> {
    match find_char(s, '=') {
        Some(i) => Some(s.take(i)),
        None => None,
    }
}

/// What remains of a compute line after the destination is removed.
pub open spec fn c_rest(s: Seq<char>) -> Seq<char> {
    match find_char(s, '=') {
        Some(i) => s.skip(i + 1),
        None => s,
    }
}

/// Computation field of a compute line: the remainder up to the jump
/// marker `;`, or all of it.
pub open spec fn c_comp(s: Seq<char>) -> Seq<char> {
    match find_char(c_rest(s), ';') {
        Some(j) => c_rest(s).take(j),
        None => c_rest(s),
    }
}

/// Jump field of a compute line: the text after the jump marker `;`, if
/// the marker is present.
pub open spec fn c_jump(s: Seq<char>) -> Option<Seq<char>> {
    match find_char(c_rest(s), ';') {
        Some(j) => Some(c_rest(s).skip(j + 1)),
        None => None,
    }
}

/// A compute instruction: an optional destination before `=`, a
/// mandatory computation, an optional jump after `;`, each field drawn
/// from its table.
pub open spec fn is_c_line(s: Seq<char>) -> bool {
    &&& comp_code(c_comp(s)) is Some
    &&& match c_dest(s) {
        Some(d) => dest_code(d) is Some,
        None => true,
    }
    &&& match c_jump(s) {
        Some(j) => jump_code(j) is Some,
        None => true,
    }
}

/// The instruction an address line parses to: an operand that reads as
/// a machine-word integer is a literal address, anything else is a
/// symbol to resolve later.
pub open spec fn a_model(lnum: int, operand: Seq<char>) -> InstructionModel {
    if all_digits(operand) && digits_val(operand) <= usize::MAX as int {
        InstructionModel::A { lnum, symbol: None, address: Some(digits_val(operand)) }
    } else {
        InstructionModel::A { lnum, symbol: Some(operand), address: None }
    }
}

/// What one stripped, non-empty line parses to. The three shapes are
/// tried in order — address, label, compute — and the first match wins;
/// a line matching none is a syntax error.
pub open spec fn line_inst(lnum: int, s: Seq<char>) -> Option<InstructionModel> {
    if is_a_line(s) {
        Some(a_model(lnum, s.skip(1)))
    } else if is_l_line(s) {
        Some(InstructionModel::L { lnum, symbol: s.subrange(1, s.len() - 1) })
    } else if is_c_line(s) {
        Some(InstructionModel::C {
            lnum,
            dest: c_dest(s),
            comp: Some(c_comp(s)),
            jump: c_jump(s),
        })
    } else {
        None
    }
}

/// Parses an address instruction `@operand`.
pub fn parse_a(lnum: usize, line: &Vec<char>) -> (r: Instruction)
    requires
        is_a_line(line@),
    ensures
        r@ == a_model(lnum as int, line@.skip(1)),
{
    let operand = subvec(line, 1, line.len());
    proof {
        assert(operand@ =~= line@.skip(1));
    }
    match parse_number(&operand) {
        Some(n) => Instruction::A { lnum, symbol: None, address: Some(n) },
        None => Instruction::A {
            lnum,
            symbol: Some(chars_to_string(&operand)),
            address: None,
        },
    }
}

/// Parses a label declaration `(name)`.
pub fn parse_l(lnum: usize, line: &Vec<char>) -> (r: Instruction)
    requires
        is_l_line(line@),
    ensures
        r@ == (InstructionModel::L {
            lnum: lnum as int,
            symbol: line@.subrange(1, line@.len() - 1),
        }),
{
    let label = subvec(line, 1, line.len() - 1);
    Instruction::L { lnum, symbol: chars_to_string(&label) }
}

/// Parses a compute instruction `dest=comp;jump`, validating every
/// field against its table.
pub fn parse_c(lnum: usize, line: &Vec<char>) -> (r: Result<Instruction, AsmError>)
    ensures
        match r {
            Ok(inst) => is_c_line(line@) && inst@ == (InstructionModel::C {
                lnum: lnum as int,
                dest: c_dest(line@),
                comp: Some(c_comp(line@)),
                jump: c_jump(line@),
            }),
            Err(e) => !is_c_line(line@) && e@ == (ErrorModel::Syntax {
                lnum: lnum as int,
                text: line@,
            }),
        },
{
    proof {
        lemma_find_char_props(line@, '=');
    }
    let (dest, rest) = match find_in_chars(line, '=') {
        Some(i) => {
            let n = line.len();
            let d = subvec(line, 0, i);
            proof {
                assert(d@ =~= line@.take(i as int));
            }
            let rest = subvec(line, i + 1, n);
            proof {
                assert(rest@ =~= line@.skip(i + 1));
            }
            (Some(d), rest)
        },
        None => (None, subvec(line, 0, line.len())),
    };
    proof {
        assert(line@.subrange(0, line@.len() as int) =~= line@);
        assert(rest@ == c_rest(line@));
        lemma_find_char_props(rest@, ';');
    }
    let (comp, jump) = match find_in_chars(&rest, ';') {
        Some(j) => {
            let c = subvec(&rest, 0, j);
            proof {
                assert(c@ =~= rest@.take(j as int));
            }
            let ju = subvec(&rest, j + 1, rest.len());
            proof {
                assert(ju@ =~= rest@.skip(j + 1));
            }
            (c, Some(ju))
        },
        None => (subvec(&rest, 0, rest.len()), None),
    };
    proof {
        assert(rest@.subrange(0, rest@.len() as int) =~= rest@);
        assert(comp@ == c_comp(line@));
    }
    if decode_comp(&comp).is_none() {
        return Err(AsmError::Syntax { lnum, text: chars_to_string(line) });
    }
    let dest_str = match &dest {
        Some(d) => {
            if decode_dest(d).is_none() {
                return Err(AsmError::Syntax { lnum, text: chars_to_string(line) });
            }
            Some(chars_to_string(d))
        },
        None => None,
    };
    let jump_str = match &jump {
        Some(j) => {
            if decode_jump(j).is_none() {
                return Err(AsmError::Syntax { lnum, text: chars_to_string(line) });
            }
            Some(chars_to_string(j))
        },
        None => None,
    };
    Ok(Instruction::C {
        lnum,
        dest: dest_str,
        comp: Some(chars_to_string(&comp)),
        jump: jump_str,
    })
}

/// Classifies one stripped, non-empty line and parses it into an
/// instruction; a line of none of the three shapes is a syntax error
/// carrying the line number and the offending text.
pub fn parse_line(lnum: usize, line: &Vec<char>) -> (r: Result<Instruction, AsmError>)
    ensures
        match r {
            Ok(inst) => line_inst(lnum as int, line@) == Some(inst@),
            Err(e) => line_inst(lnum as int, line@) is None && e@ == (ErrorModel::Syntax {
                lnum: lnum as int,
                text: line@,
            }),
        },
{
    if line.len() >= 2 && line[0] == '@' {
        Ok(parse_a(lnum, line))
    } else if line.len() >= 3 && line[0] == '(' && line[line.len() - 1] == ')' {
        Ok(parse_l(lnum, line))
    } else {
        parse_c(lnum, line)
    }
}

/// Splits the characters after `cur` on the newline character, `cur`
/// being the line accumulated so far. The split keeps empty segments;
/// the preprocessor discards them later.
pub open spec fn split_rec(s: Seq<char>, cur: Seq<char>) -> Seq<Seq<char>>
    decreases s.len(),
{
    if s.len() == 0 {
        seq![cur]
    } else if s[0] == '\n' {
        seq![cur] + split_rec(s.drop_first(), Seq::empty())
    } else {
        split_rec(s.drop_first(), cur.push(s[0]))
    }
}

/// The lines of a source text: its characters split on the newline
/// character.
pub open spec fn split_lines(s: Seq<char>) -> Seq<Seq<char>> {
    split_rec(s, Seq::empty())
}

/// Splits a source text into its lines.
pub fn split_into_lines(v: &Vec<char>) -> (r: Vec<Vec<char>>)
    ensures
        r@.map_values(|l: Vec<char>| l@) == split_lines(v@),
{
    let mut lines: Vec<Vec<char>> = Vec::new();
    let mut cur: Vec<char> = Vec::new();
    let mut i: usize = 0;
    proof {
        assert(v@.skip(0int) =~= v@);
        assert(lines@.map_values(|l: Vec<char>| l@) =~= Seq::<Seq<char>>::empty());
    }
    while i < v.len()
        invariant
            i <= v.len(),
            split_lines(v@) == lines@.map_values(|l: Vec<char>| l@) + split_rec(
                v@.skip(i as int),
                cur@,
            ),
        decreases v.len() - i,
    {
        let ghost old_lines = lines@;
        let ghost old_cur = cur@;
        let c = v[i];
        if c == '\n' {
            lines.push(cur);
            cur = Vec::new();
            proof {
                assert(lines@.map_values(|l: Vec<char>| l@) =~= old_lines.map_values(
                    |l: Vec<char>| l@,
                ).push(old_cur));
                assert((old_lines.map_values(|l: Vec<char>| l@) + (seq![old_cur] + split_rec(
                    v@.skip(i + 1 as int),
                    Seq::empty(),
                ))) =~= (old_lines.map_values(|l: Vec<char>| l@).push(old_cur) + split_rec(
                    v@.skip(i + 1 as int),
                    Seq::empty(),
                )));
            }
        } else {
            cur.push(c);
        }
        proof {
            assert(v@.skip(i as int).drop_first() =~= v@.skip(i + 1 as int));
            assert(v@.skip(i as int)[0] == v@[i as int]);
        }
        i = i + 1;
    }
    let ghost old_lines = lines@;
    let ghost old_cur = cur@;
    lines.push(cur);
    proof {
        assert(v@.skip(v@.len() as int) =~= Seq::<char>::empty());
        assert(lines@.map_values(|l: Vec<char>| l@) =~= old_lines.map_values(
            |l: Vec<char>| l@,
        ).push(old_cur));
        assert(old_lines.map_values(|l: Vec<char>| l@) + seq![old_cur] =~= old_lines.map_values(
            |l: Vec<char>| l@,
        ).push(old_cur));
    }
    lines
}

/// What the first `n` lines parse to: their instructions in source
/// order (blank residues skipped), or the first failing line's syntax
/// error.
pub open spec fn parse_upto(lines: Seq<Seq<char>>, n: int) -> Result<
    Seq<InstructionModel>,
    ErrorModel,
>
    decreases n,
{
    if n <= 0 {
        Ok(Seq::empty())
    } else {
        match parse_upto(lines, n - 1) {
            Ok(insts) => {
                let s = strip_spec(lines[n - 1]);
                if s.len() == 0 {
                    Ok(insts)
                } else {
                    match line_inst(n - 1, s) {
                        Some(m) => Ok(insts.push(m)),
                        None => Err(ErrorModel::Syntax { lnum: n - 1, text: s }),
                    }
                }
            },
            Err(e) => Err(e),
        }
    }
}

/// What parsing an entire source text yields.
pub open spec fn parse_spec(contents: Seq<char>) -> Result<Seq<InstructionModel>, ErrorModel> {
    parse_upto(split_lines(contents), split_lines(contents).len() as int)
}

/// Once a prefix of the lines fails, the whole source fails with that
/// same first error.
proof fn lemma_parse_upto_err(lines: Seq<Seq<char>>, i: int, n: int)
    requires
        0 <= i <= n,
        parse_upto(lines, i) is Err,
    ensures
        parse_upto(lines, n) == parse_upto(lines, i),
    decreases n,
{
    if n > i {
        lemma_parse_upto_err(lines, i, n - 1);
    }
}

/// Parses a whole assembly source into its instruction list: each line
/// is stripped of comments and whitespace, blank residues are skipped,
/// and every remaining line must match one of the three instruction
/// shapes. The first line matching none aborts with a syntax error.
pub fn parse(contents: &str) -> (r: Result<Vec<Instruction>, AsmError>)
    ensures
        match r {
            Ok(insts) => parse_spec(contents@) == Ok::<Seq<InstructionModel>, ErrorModel>(
                models_of(insts@),
            ),
            Err(e) => parse_spec(contents@) == Err::<Seq<InstructionModel>, ErrorModel>(e@),
        },
{
    let chars = crate::text::string_to_chars(contents);
    let lines = split_into_lines(&chars);
    let ghost glines = lines@.map_values(|l: Vec<char>| l@);
    let mut parsed: Vec<Instruction> = Vec::new();
    let mut i: usize = 0;
    proof {
        assert(models_of(parsed@) =~= Seq::<InstructionModel>::empty());
    }
    while i < lines.len()
        invariant
            i <= lines.len(),
            glines == lines@.map_values(|l: Vec<char>| l@),
            glines == split_lines(contents@),
            parse_upto(glines, i as int) == Ok::<Seq<InstructionModel>, ErrorModel>(
                models_of(parsed@),
            ),
        decreases lines.len() - i,
    {
        let ghost old_models = models_of(parsed@);
        let stripped = strip_line(&lines[i]);
        proof {
            assert(glines[i as int] == lines@[i as int]@);
        }
        if stripped.len() > 0 {
            match parse_line(i, &stripped) {
                Ok(inst) => {
                    parsed.push(inst);
                    proof {
                        assert(models_of(parsed@) =~= old_models.push(inst@));
                    }
                },
                Err(e) => {
                    proof {
                        assert(parse_upto(glines, i + 1 as int) == Err::<
                            Seq<InstructionModel>,
                            ErrorModel,
                        >(e@));
                        lemma_parse_upto_err(glines, i + 1 as int, glines.len() as int);
                    }
                    return Err(e);
                },
            }
        }
        i = i + 1;
    }
    Ok(parsed)
}

} // verus!
