//! The fixed mnemonic tables of the machine and the binary expansion of
//! addresses.
//!
//! A compute instruction's word is `111`, a 7-bit computation code (one
//! bit selecting the register-vs-memory operand and six functional bits),
//! a 3-bit destination code and a 3-bit jump code. An address
//! instruction's word is `0` followed by the address in 15 binary digits,
//! most significant first. The three tables are closed: any field outside
//! them is a fatal error.

use vstd::prelude::*;

verus! {

/// The computation table: 7-bit code of a computation mnemonic.
pub open spec fn comp_code(m: Seq<char>) -> Option<Seq<char>> {
    if m == seq!['0'] {
        Some(seq!['0', '1', '0', '1', '0', '1', '0'])
    } else if m == seq!['1'] {
        Some(seq!['0', '1', '1', '1', '1', '1', '1'])
    } else if m == seq!['-', '1'] {
        Some(seq!['0', '1', '1', '1', '1', '1', '0'])
    } else if m == seq!['D'] {
        Some(seq!['0', '0', '0', '1', '1', '0', '0'])
    } else if m == seq!['A'] {
        Some(seq!['0', '1', '1', '0', '0', '0', '0'])
    } else if m == seq!['M'] {
        Some(seq!['1', '1', '1', '0', '0', '0', '0'])
    } else if m == seq!['!', 'D'] {
        Some(seq!['0', '0', '0', '1', '1', '0', '1'])
    } else if m == seq!['!', 'A'] {
        Some(seq!['0', '1', '1', '0', '0', '0', '1'])
    } else if m == seq!['!', 'M'] {
        Some(seq!['1', '1', '1', '0', '0', '0', '1'])
    } else if m == seq!['-', 'D'] {
        Some(seq!['0', '0', '0', '1', '1', '1', '1'])
    } else if m == seq!['-', 'A'] {
        Some(seq!['0', '1', '1', '0', '0', '1', '1'])
    } else if m == seq!['-', 'M'] {
        Some(seq!['1', '1', '1', '0', '0', '1', '1'])
    } else if m == seq!['D', '+', '1'] {
        Some(seq!['0', '0', '1', '1', '1', '1', '1'])
    } else if m == seq!['A', '+', '1'] {
        Some(seq!['0', '1', '1', '0', '1', '1', '1'])
    } else if m == seq!['M', '+', '1'] {
        Some(seq!['1', '1', '1', '0', '1', '1', '1'])
    } else if m == seq!['D', '-', '1'] {
        Some(seq!['0', '0', '0', '1', '1', '1', '0'])
    } else if m == seq!['A', '-', '1'] {
        Some(seq!['0', '1', '1', '0', '0', '1', '0'])
    } else if m == seq!['M', '-', '1'] {
        Some(seq!['1', '1', '1', '0', '0', '1', '0'])
    } else if m == seq!['D', '+', 'A'] {
        Some(seq!['0', '0', '0', '0', '0', '1', '0'])
    } else if m == seq!['D', '+', 'M'] {
        Some(seq!['1', '0', '0', '0', '0', '1', '0'])
    } else if m == seq!['D', '-', 'A'] {
        Some(seq!['0', '0', '1', '0', '0', '1', '1'])
    } else if m == seq!['D', '-', 'M'] {
        Some(seq!['1', '0', '1', '0', '0', '1', '1'])
    } else if m == seq!['A', '-', 'D'] {
        Some(seq!['0', '0', '0', '0', '1', '1', '1'])
    } else if m == seq!['M', '-', 'D'] {
        Some(seq!['1', '0', '0', '0', '1', '1', '1'])
    } else if m == seq!['D', '&', 'A'] {
        Some(seq!['0', '0', '0', '0', '0', '0', '0'])
    } else if m == seq!['D', '&', 'M'] {
        Some(seq!['1', '0', '0', '0', '0', '0', '0'])
    } else if m == seq!['D', '|', 'A'] {
        Some(seq!['0', '0', '1', '0', '1', '0', '1'])
    } else if m == seq!['D', '|', 'M'] {
        Some(seq!['1', '0', '1', '0', '1', '0', '1'])
    } else {
        None
    }
}

/// The destination table: 3-bit code of a destination mnemonic. Each bit
/// selects one storage target; the absent destination is encoded by the
/// caller as all-zero.
pub open spec fn dest_code(m: Seq<char>) -> Option<Seq<char>> {
    if m == seq!['M'] {
        Some(seq!['0', '0', '1'])
    } else if m == seq!['D'] {
        Some(seq!['0', '1', '0'])
    } else if m == seq!['M', 'D'] {
        Some(seq!['0', '1', '1'])
    } else if m == seq!['A'] {
        Some(seq!['1', '0', '0'])
    } else if m == seq!['A', 'M'] {
        Some(seq!['1', '0', '1'])
    } else if m == seq!['A', 'D'] {
        Some(seq!['1', '1', '0'])
    } else if m == seq!['A', 'M', 'D'] {
        Some(seq!['1', '1', '1'])
    } else {
        None
    }
}

/// The jump table: 3-bit code of a jump mnemonic. The absent jump is
/// encoded by the caller as all-zero ("never jump").
pub open spec fn jump_code(m: Seq<char>) -> Option<Seq<char>> {
    if m == seq!['J', 'G', 'T'] {
        Some(seq!['0', '0', '1'])
    } else if m == seq!['J', 'E', 'Q'] {
        Some(seq!['0', '1', '0'])
    } else if m == seq!['J', 'G', 'E'] {
        Some(seq!['0', '1', '1'])
    } else if m == seq!['J', 'L', 'T'] {
        Some(seq!['1', '0', '0'])
    } else if m == seq!['J', 'N', 'E'] {
        Some(seq!['1', '0', '1'])
    } else if m == seq!['J', 'L', 'E'] {
        Some(seq!['1', '1', '0'])
    } else if m == seq!['J', 'M', 'P'] {
        Some(seq!['1', '1', '1'])
    } else {
        None
    }
}

/// Looks up the 7-bit code of a computation mnemonic.
pub fn decode_comp(c: &Vec<char>) -> (r: Option<&'static str>)
    ensures
        match r {
            Some(b) => comp_code(c@) == Some(b@),
            None => comp_code(c@) is None,
        },
{
    if c.len() == 1 {
        let x = c[0];
        if x == '0' {
            proof {
                reveal_strlit("0101010");
                assert(c@ =~= seq!['0']);
                assert("0101010"@ =~= seq!['0', '1', '0', '1', '0', '1', '0']);
            }
            Some("0101010")
        } else if x == '1' {
            proof {
                reveal_strlit("0111111");
                assert(c@ =~= seq!['1']);
                assert("0111111"@ =~= seq!['0', '1', '1', '1', '1', '1', '1']);
            }
            Some("0111111")
        } else if x == 'D' {
            proof {
                reveal_strlit("0001100");
                assert(c@ =~= seq!['D']);
                assert("0001100"@ =~= seq!['0', '0', '0', '1', '1', '0', '0']);
            }
            Some("0001100")
        } else if x == 'A' {
            proof {
                reveal_strlit("0110000");
                assert(c@ =~= seq!['A']);
                assert("0110000"@ =~= seq!['0', '1', '1', '0', '0', '0', '0']);
            }
            Some("0110000")
        } else if x == 'M' {
            proof {
                reveal_strlit("1110000");
                assert(c@ =~= seq!['M']);
                assert("1110000"@ =~= seq!['1', '1', '1', '0', '0', '0', '0']);
            }
            Some("1110000")
        } else {
            None
        }
    } else if c.len() == 2 {
        let x = c[0];
        let y = c[1];
        if x == '-' && y == '1' {
            proof {
                reveal_strlit("0111110");
                assert(c@ =~= seq!['-', '1']);
                assert("0111110"@ =~= seq!['0', '1', '1', '1', '1', '1', '0']);
            }
            Some("0111110")
        } else if x == '!' && y == 'D' {
            proof {
                reveal_strlit("0001101");
                assert(c@ =~= seq!['!', 'D']);
                assert("0001101"@ =~= seq!['0', '0', '0', '1', '1', '0', '1']);
            }
            Some("0001101")
        } else if x == '!' && y == 'A' {
            proof {
                reveal_strlit("0110001");
                assert(c@ =~= seq!['!', 'A']);
                assert("0110001"@ =~= seq!['0', '1', '1', '0', '0', '0', '1']);
            }
            Some("0110001")
        } else if x == '!' && y == 'M' {
            proof {
                reveal_strlit("1110001");
                assert(c@ =~= seq!['!', 'M']);
                assert("1110001"@ =~= seq!['1', '1', '1', '0', '0', '0', '1']);
            }
            Some("1110001")
        } else if x == '-' && y == 'D' {
            proof {
                reveal_strlit("0001111");
                assert(c@ =~= seq!['-', 'D']);
                assert("0001111"@ =~= seq!['0', '0', '0', '1', '1', '1', '1']);
            }
            Some("0001111")
        } else if x == '-' && y == 'A' {
            proof {
                reveal_strlit("0110011");
                assert(c@ =~= seq!['-', 'A']);
                assert("0110011"@ =~= seq!['0', '1', '1', '0', '0', '1', '1']);
            }
            Some("0110011")
        } else if x == '-' && y == 'M' {
            proof {
                reveal_strlit("1110011");
                assert(c@ =~= seq!['-', 'M']);
                assert("1110011"@ =~= seq!['1', '1', '1', '0', '0', '1', '1']);
            }
            Some("1110011")
        } else {
            None
        }
    } else if c.len() == 3 {
        let x = c[0];
        let y = c[1];
        let z = c[2];
        if x == 'D' && y == '+' && z == '1' {
            proof {
                reveal_strlit("0011111");
                assert(c@ =~= seq!['D', '+', '1']);
                assert("0011111"@ =~= seq!['0', '0', '1', '1', '1', '1', '1']);
            }
            Some("0011111")
        } else if x == 'A' && y == '+' && z == '1' {
            proof {
                reveal_strlit("0110111");
                assert(c@ =~= seq!['A', '+', '1']);
                assert("0110111"@ =~= seq!['0', '1', '1', '0', '1', '1', '1']);
            }
            Some("0110111")
        } else if x == 'M' && y == '+' && z == '1' {
            proof {
                reveal_strlit("1110111");
                assert(c@ =~= seq!['M', '+', '1']);
                assert("1110111"@ =~= seq!['1', '1', '1', '0', '1', '1', '1']);
            }
            Some("1110111")
        } else if x == 'D' && y == '-' && z == '1' {
            proof {
                reveal_strlit("0001110");
                assert(c@ =~= seq!['D', '-', '1']);
                assert("0001110"@ =~= seq!['0', '0', '0', '1', '1', '1', '0']);
            }
            Some("0001110")
        } else if x == 'A' && y == '-' && z == '1' {
            proof {
                reveal_strlit("0110010");
                assert(c@ =~= seq!['A', '-', '1']);
                assert("0110010"@ =~= seq!['0', '1', '1', '0', '0', '1', '0']);
            }
            Some("0110010")
        } else if x == 'M' && y == '-' && z == '1' {
            proof {
                reveal_strlit("1110010");
                assert(c@ =~= seq!['M', '-', '1']);
                assert("1110010"@ =~= seq!['1', '1', '1', '0', '0', '1', '0']);
            }
            Some("1110010")
        } else if x == 'D' && y == '+' && z == 'A' {
            proof {
                reveal_strlit("0000010");
                assert(c@ =~= seq!['D', '+', 'A']);
                assert("0000010"@ =~= seq!['0', '0', '0', '0', '0', '1', '0']);
            }
            Some("0000010")
        } else if x == 'D' && y == '+' && z == 'M' {
            proof {
                reveal_strlit("1000010");
                assert(c@ =~= seq!['D', '+', 'M']);
                assert("1000010"@ =~= seq!['1', '0', '0', '0', '0', '1', '0']);
            }
            Some("1000010")
        } else if x == 'D' && y == '-' && z == 'A' {
            proof {
                reveal_strlit("0010011");
                assert(c@ =~= seq!['D', '-', 'A']);
                assert("0010011"@ =~= seq!['0', '0', '1', '0', '0', '1', '1']);
            }
            Some("0010011")
        } else if x == 'D' && y == '-' && z == 'M' {
            proof {
                reveal_strlit("1010011");
                assert(c@ =~= seq!['D', '-', 'M']);
                assert("1010011"@ =~= seq!['1', '0', '1', '0', '0', '1', '1']);
            }
            Some("1010011")
        } else if x == 'A' && y == '-' && z == 'D' {
            proof {
                reveal_strlit("0000111");
                assert(c@ =~= seq!['A', '-', 'D']);
                assert("0000111"@ =~= seq!['0', '0', '0', '0', '1', '1', '1']);
            }
            Some("0000111")
        } else if x == 'M' && y == '-' && z == 'D' {
            proof {
                reveal_strlit("1000111");
                assert(c@ =~= seq!['M', '-', 'D']);
                assert("1000111"@ =~= seq!['1', '0', '0', '0', '1', '1', '1']);
            }
            Some("1000111")
        } else if x == 'D' && y == '&' && z == 'A' {
            proof {
                reveal_strlit("0000000");
                assert(c@ =~= seq!['D', '&', 'A']);
                assert("0000000"@ =~= seq!['0', '0', '0', '0', '0', '0', '0']);
            }
            Some("0000000")
        } else if x == 'D' && y == '&' && z == 'M' {
            proof {
                reveal_strlit("1000000");
                assert(c@ =~= seq!['D', '&', 'M']);
                assert("1000000"@ =~= seq!['1', '0', '0', '0', '0', '0', '0']);
            }
            Some("1000000")
        } else if x == 'D' && y == '|' && z == 'A' {
            proof {
                reveal_strlit("0010101");
                assert(c@ =~= seq!['D', '|', 'A']);
                assert("0010101"@ =~= seq!['0', '0', '1', '0', '1', '0', '1']);
            }
            Some("0010101")
        } else if x == 'D' && y == '|' && z == 'M' {
            proof {
                reveal_strlit("1010101");
                assert(c@ =~= seq!['D', '|', 'M']);
                assert("1010101"@ =~= seq!['1', '0', '1', '0', '1', '0', '1']);
            }
            Some("1010101")
        } else {
            None
        }
    } else {
        None
    }
}

/// Looks up the 3-bit code of a destination mnemonic.
pub fn decode_dest(d: &Vec<char>) -> (r: Option<&'static str>)
    ensures
        match r {
            Some(b) => dest_code(d@) == Some(b@),
            None => dest_code(d@) is None,
        },
{
    if d.len() == 1 {
        let x = d[0];
        if x == 'M' {
            proof {
                reveal_strlit("001");
                assert(d@ =~= seq!['M']);
                assert("001"@ =~= seq!['0', '0', '1']);
            }
            Some("001")
        } else if x == 'D' {
            proof {
                reveal_strlit("010");
                assert(d@ =~= seq!['D']);
                assert("010"@ =~= seq!['0', '1', '0']);
            }
            Some("010")
        } else if x == 'A' {
            proof {
                reveal_strlit("100");
                assert(d@ =~= seq!['A']);
                assert("100"@ =~= seq!['1', '0', '0']);
            }
            Some("100")
        } else {
            None
        }
    } else if d.len() == 2 {
        let x = d[0];
        let y = d[1];
        if x == 'M' && y == 'D' {
            proof {
                reveal_strlit("011");
                assert(d@ =~= seq!['M', 'D']);
                assert("011"@ =~= seq!['0', '1', '1']);
            }
            Some("011")
        } else if x == 'A' && y == 'M' {
            proof {
                reveal_strlit("101");
                assert(d@ =~= seq!['A', 'M']);
                assert("101"@ =~= seq!['1', '0', '1']);
            }
            Some("101")
        } else if x == 'A' && y == 'D' {
            proof {
                reveal_strlit("110");
                assert(d@ =~= seq!['A', 'D']);
                assert("110"@ =~= seq!['1', '1', '0']);
            }
            Some("110")
        } else {
            None
        }
    } else if d.len() == 3 {
        if d[0] == 'A' && d[1] == 'M' && d[2] == 'D' {
            proof {
                reveal_strlit("111");
                assert(d@ =~= seq!['A', 'M', 'D']);
                assert("111"@ =~= seq!['1', '1', '1']);
            }
            Some("111")
        } else {
            None
        }
    } else {
        None
    }
}

/// Looks up the 3-bit code of a jump mnemonic.
pub fn decode_jump(j: &Vec<char>) -> (r: Option<&'static str>)
    ensures
        match r {
            Some(b) => jump_code(j@) == Some(b@),
            None => jump_code(j@) is None,
        },
{
    if j.len() == 3 {
        let x = j[0];
        let y = j[1];
        let z = j[2];
        if x == 'J' && y == 'G' && z == 'T' {
            proof {
                reveal_strlit("001");
                assert(j@ =~= seq!['J', 'G', 'T']);
                assert("001"@ =~= seq!['0', '0', '1']);
            }
            Some("001")
        } else if x == 'J' && y == 'E' && z == 'Q' {
            proof {
                reveal_strlit("010");
                assert(j@ =~= seq!['J', 'E', 'Q']);
                assert("010"@ =~= seq!['0', '1', '0']);
            }
            Some("010")
        } else if x == 'J' && y == 'G' && z == 'E' {
            proof {
                reveal_strlit("011");
                assert(j@ =~= seq!['J', 'G', 'E']);
                assert("011"@ =~= seq!['0', '1', '1']);
            }
            Some("011")
        } else if x == 'J' && y == 'L' && z == 'T' {
            proof {
                reveal_strlit("100");
                assert(j@ =~= seq!['J', 'L', 'T']);
                assert("100"@ =~= seq!['1', '0', '0']);
            }
            Some("100")
        } else if x == 'J' && y == 'N' && z == 'E' {
            proof {
                reveal_strlit("101");
                assert(j@ =~= seq!['J', 'N', 'E']);
                assert("101"@ =~= seq!['1', '0', '1']);
            }
            Some("101")
        } else if x == 'J' && y == 'L' && z == 'E' {
            proof {
                reveal_strlit("110");
                assert(j@ =~= seq!['J', 'L', 'E']);
                assert("110"@ =~= seq!['1', '1', '0']);
            }
            Some("110")
        } else if x == 'J' && y == 'M' && z == 'P' {
            proof {
                reveal_strlit("111");
                assert(j@ =~= seq!['J', 'M', 'P']);
                assert("111"@ =~= seq!['1', '1', '1']);
            }
            Some("111")
        } else {
            None
        }
    } else {
        None
    }
}

/// The `w` binary digits of `n`, most significant first; digit `w-1-i`
/// of the expansion is `(n / 2^i) % 2`.
pub open spec fn bin_digits(n: int, w: nat) -> Seq<char>
    decreases w,
{
    if w == 0 {
        Seq::empty()
    } else {
        bin_digits(n / 2, (w - 1) as nat).push(if n % 2 == 1 {
            '1'
        } else {
            '0'
        })
    }
}

/// The number a string of binary digits denotes, most significant first.
pub open spec fn bits_val(s: Seq<char>) -> int
    decreases s.len(),
{
    if s.len() == 0 {
        0
    } else {
        bits_val(s.drop_last()) * 2 + (if s.last() == '1' {
            1int
        } else {
            0int
        })
    }
}

/// 2 to the power `w`.
pub open spec fn two_pow(w: nat) -> int
    decreases w,
{
    if w == 0 {
        1
    } else {
        2 * two_pow((w - 1) as nat)
    }
}

/// Law: for every non-negative `n` below `2^w`, the `w`-digit expansion
/// of `n` has exactly `w` binary digits and denotes `n` again.
pub proof fn lemma_bin_digits_value(n: int, w: nat)
    requires
        0 <= n < two_pow(w),
    ensures
        bin_digits(n, w).len() == w,
        bits_val(bin_digits(n, w)) == n,
        forall|i: int|
            0 <= i < w ==> bin_digits(n, w)[i] == '0' || bin_digits(n, w)[i] == '1',
    decreases w,
{
    if w > 0 {
        lemma_bin_digits_value(n / 2, (w - 1) as nat);
        assert(bin_digits(n, w).drop_last() =~= bin_digits(n / 2, (w - 1) as nat));
    }
}

/// Law: within the computation table no two mnemonics share a bit
/// pattern. (That decoding is a pure function of the mnemonic is the
/// contract of `decode_comp`: its result equals `comp_code` of its
/// argument alone.)
pub proof fn lemma_comp_code_injective(m1: Seq<char>, m2: Seq<char>)
    requires
        comp_code(m1) is Some,
        comp_code(m2) is Some,
        m1 != m2,
    ensures
        comp_code(m1) != comp_code(m2),
{
    let c1 = comp_code(m1)->Some_0;
    let c2 = comp_code(m2)->Some_0;
    if c1 == c2 {
        assert(c1[0] == c2[0] && c1[1] == c2[1] && c1[2] == c2[2] && c1[3] == c2[3] && c1[4]
            == c2[4] && c1[5] == c2[5] && c1[6] == c2[6]);
        assert(false);
    }
}

/// Law: within the destination table no two mnemonics share a bit
/// pattern.
pub proof fn lemma_dest_code_injective(m1: Seq<char>, m2: Seq<char>)
    requires
        dest_code(m1) is Some,
        dest_code(m2) is Some,
        m1 != m2,
    ensures
        dest_code(m1) != dest_code(m2),
{
    let c1 = dest_code(m1)->Some_0;
    let c2 = dest_code(m2)->Some_0;
    if c1 == c2 {
        assert(c1[0] == c2[0] && c1[1] == c2[1] && c1[2] == c2[2]);
        assert(false);
    }
}

/// Law: within the jump table no two mnemonics share a bit pattern.
pub proof fn lemma_jump_code_injective(m1: Seq<char>, m2: Seq<char>)
    requires
        jump_code(m1) is Some,
        jump_code(m2) is Some,
        m1 != m2,
    ensures
        jump_code(m1) != jump_code(m2),
{
    let c1 = jump_code(m1)->Some_0;
    let c2 = jump_code(m2)->Some_0;
    if c1 == c2 {
        assert(c1[0] == c2[0] && c1[1] == c2[1] && c1[2] == c2[2]);
        assert(false);
    }
}

/// Computes the `w` binary digits of `n`, most significant first.
pub fn address_bits(n: usize, w: usize) -> (v: Vec<char>)
    ensures
        v@ == bin_digits(n as int, w as nat),
    decreases w,
{
    if w == 0 {
        Vec::new()
    } else {
        let mut v = address_bits(n / 2, w - 1);
        v.push(if n % 2 == 1 {
            '1'
        } else {
            '0'
        });
        v
    }
}

} // verus!
