//! The encoder: translates resolved instructions into the machine's
//! 16-character binary words, one line per real instruction, in source
//! order. Labels contribute no word. Field values are re-validated here:
//! an unknown mnemonic, a missing address, or an address outside 15 bits
//! is a fatal error even though the parser screens for the same shapes.

use vstd::prelude::*;
use vstd::string::StringExecFns;

use crate::AsmError;
use crate::ErrorModel;
use crate::code::address_bits;
use crate::code::bin_digits;
use crate::code::bits_val;
use crate::code::lemma_bin_digits_value;
use crate::code::two_pow;
use crate::code::comp_code;
use crate::code::decode_comp;
use crate::code::decode_dest;
use crate::code::decode_jump;
use crate::code::dest_code;
use crate::code::jump_code;
use crate::parser::Instruction;
use crate::parser::InstructionModel;
use crate::parser::models_of;
use crate::symbol_table::ADDRESS_LIMIT;
use crate::text::chars_to_string;
use crate::text::string_to_chars;

verus! {

/// The text one instruction contributes to the output: a label
/// contributes nothing; an address instruction contributes `0`, its
/// address in 15 binary digits and a newline; a compute instruction
/// contributes `111`, its three field codes (an absent destination or
/// jump encodes as all-zero) and a newline.
pub open spec fn encode_inst(m: InstructionModel) -> Result<Seq<char>, ErrorModel> {
    match m {
        InstructionModel::L { lnum, symbol } => Ok(Seq::empty()),
        InstructionModel::A { lnum, symbol, address } => match address {
            Some(a) => if 0 <= a < ADDRESS_LIMIT as int {
                Ok(seq!['0'] + bin_digits(a, 15) + seq!['\n'])
            } else {
                Err(ErrorModel::AddressOverflow { lnum, address: a })
            },
            None => Err(ErrorModel::UnresolvedSymbol { lnum }),
        },
        InstructionModel::C { lnum, dest, comp, jump } => {
            let dd = match dest {
                Some(d) => dest_code(d),
                None => Some(seq!['0', '0', '0']),
            };
            let cc = match comp {
                Some(c) => comp_code(c),
                None => None,
            };
            let jj = match jump {
                Some(j) => jump_code(j),
                None => Some(seq!['0', '0', '0']),
            };
            if dd is None {
                Err(ErrorModel::UnknownMnemonic { lnum, text: dest.unwrap() })
            } else if cc is None {
                Err(
                    ErrorModel::UnknownMnemonic {
                        lnum,
                        text: match comp {
                            Some(c) => c,
                            None => Seq::empty(),
                        },
                    },
                )
            } else if jj is None {
                Err(ErrorModel::UnknownMnemonic { lnum, text: jump.unwrap() })
            } else {
                Ok(
                    seq!['1', '1', '1'] + cc.unwrap() + dd.unwrap() + jj.unwrap() + seq!['\n'],
                )
            }
        },
    }
}

/// Law: an address instruction with a concrete address below `2^15`
/// encodes as `0` followed by the 15-digit binary expansion of the
/// address (and a newline); at or above `2^15` encoding fails. That the
/// 15 digits are the zero-padded binary expansion is
/// `lemma_bin_digits_value`: they read back as the address itself.
pub proof fn lemma_encode_address_literal(lnum: int, a: int)
    requires
        0 <= a,
    ensures
        a < 32768 ==> encode_inst(InstructionModel::A { lnum, symbol: None, address: Some(a) })
            == Ok::<Seq<char>, ErrorModel>(seq!['0'] + bin_digits(a, 15) + seq!['\n']),
        a < 32768 ==> bin_digits(a, 15).len() == 15 && bits_val(bin_digits(a, 15)) == a,
        a >= 32768 ==> encode_inst(InstructionModel::A { lnum, symbol: None, address: Some(a) })
            == Err::<Seq<char>, ErrorModel>(ErrorModel::AddressOverflow { lnum, address: a }),
{
    if a < 32768 {
        assert(two_pow(15) == 32768) by {
            reveal_with_fuel(two_pow, 16);
        }
        lemma_bin_digits_value(a, 15);
    }
}

/// The output text of the first `n` instructions, or the first failing
/// instruction's error.
pub open spec fn decode_upto(ms: Seq<InstructionModel>, n: int) -> Result<Seq<char>, ErrorModel>
    decreases n,
{
    if n <= 0 {
        Ok(Seq::empty())
    } else {
        match decode_upto(ms, n - 1) {
            Ok(text) => match encode_inst(ms[n - 1]) {
                Ok(w) => Ok(text + w),
                Err(e) => Err(e),
            },
            Err(e) => Err(e),
        }
    }
}

/// What decoding an entire instruction list yields.
pub open spec fn decode_spec(ms: Seq<InstructionModel>) -> Result<Seq<char>, ErrorModel> {
    decode_upto(ms, ms.len() as int)
}

/// Once a prefix of the instructions fails, the whole list fails with
/// that same first error.
proof fn lemma_decode_upto_err(ms: Seq<InstructionModel>, i: int, n: int)
    requires
        0 <= i <= n,
        decode_upto(ms, i) is Err,
    ensures
        decode_upto(ms, n) == decode_upto(ms, i),
    decreases n,
{
    if n > i {
        lemma_decode_upto_err(ms, i, n - 1);
    }
}

/// Encodes an address instruction's operand: `0` followed by the
/// address in 15 binary digits, most significant first. An absent
/// address (an unresolved symbol) or one outside 15 bits is a fatal
/// error.
pub fn decode_a(lnum: usize, address: Option<usize>) -> (r: Result<String, AsmError>)
    ensures
        match r {
            Ok(s) => address is Some && address.unwrap() < ADDRESS_LIMIT && s@ == seq!['0']
                + bin_digits(address.unwrap() as int, 15),
            Err(e) => match address {
                Some(a) => a >= ADDRESS_LIMIT && e@ == (ErrorModel::AddressOverflow {
                    lnum: lnum as int,
                    address: a as int,
                }),
                None => e@ == (ErrorModel::UnresolvedSymbol { lnum: lnum as int }),
            },
        },
{
    match address {
        None => Err(AsmError::UnresolvedSymbol { lnum }),
        Some(a) => {
            if a >= ADDRESS_LIMIT {
                Err(AsmError::AddressOverflow { lnum, address: a })
            } else {
                let mut word: Vec<char> = Vec::new();
                word.push('0');
                let mut bits = address_bits(a, 15);
                let ghost old_word = word@;
                word.append(&mut bits);
                proof {
                    assert(word@ == old_word + bin_digits(a as int, 15));
                    assert(old_word =~= seq!['0']);
                }
                Ok(chars_to_string(&word))
            }
        },
    }
}

/// Encodes a compute instruction's fields: `111`, the 7-bit computation
/// code, the 3-bit destination code and the 3-bit jump code. An absent
/// destination or jump encodes as all-zero; a field outside its table,
/// or a missing computation, is a fatal error.
pub fn decode_c(
    lnum: usize,
    dest: &Option<String>,
    comp: &Option<String>,
    jump: &Option<String>,
) -> (r: Result<String, AsmError>)
    ensures
        ({
            let m = InstructionModel::C {
                lnum: lnum as int,
                dest: match dest {
                    Some(d) => Some(d@),
                    None => None,
                },
                comp: match comp {
                    Some(c) => Some(c@),
                    None => None,
                },
                jump: match jump {
                    Some(j) => Some(j@),
                    None => None,
                },
            };
            match r {
                Ok(s) => encode_inst(m) == Ok::<Seq<char>, ErrorModel>(s@.push('\n')),
                Err(e) => encode_inst(m) == Err::<Seq<char>, ErrorModel>(e@),
            }
        }),
{
    let dd: &'static str = match dest {
        Some(d) => {
            let chars = string_to_chars(d.as_str());
            match decode_dest(&chars) {
                Some(b) => b,
                None => {
                    return Err(AsmError::UnknownMnemonic { lnum, text: d.clone() });
                },
            }
        },
        None => {
            proof {
                reveal_strlit("000");
                assert("000"@ =~= seq!['0', '0', '0']);
            }
            "000"
        },
    };
    let cc: &'static str = match comp {
        Some(c) => {
            let chars = string_to_chars(c.as_str());
            match decode_comp(&chars) {
                Some(b) => b,
                None => {
                    return Err(AsmError::UnknownMnemonic { lnum, text: c.clone() });
                },
            }
        },
        None => {
            return Err(AsmError::UnknownMnemonic { lnum, text: String::new() });
        },
    };
    let jj: &'static str = match jump {
        Some(j) => {
            let chars = string_to_chars(j.as_str());
            match decode_jump(&chars) {
                Some(b) => b,
                None => {
                    return Err(AsmError::UnknownMnemonic { lnum, text: j.clone() });
                },
            }
        },
        None => {
            proof {
                reveal_strlit("000");
                assert("000"@ =~= seq!['0', '0', '0']);
            }
            "000"
        },
    };
    let mut w = String::new();
    proof {
        reveal_strlit("111");
        assert("111"@ =~= seq!['1', '1', '1']);
    }
    w.append("111");
    w.append(cc);
    w.append(dd);
    w.append(jj);
    proof {
        assert(w@.push('\n') =~= seq!['1', '1', '1'] + cc@ + dd@ + jj@ + seq!['\n']);
    }
    Ok(w)
}

/// Decodes a resolved instruction list into the output text: one
/// 16-character binary word per real instruction, each on its own line,
/// in source order, labels contributing nothing. The first instruction
/// that cannot be encoded aborts the translation.
pub fn decode(assembly: Vec<Instruction>) -> (r: Result<String, AsmError>)
    ensures
        match r {
            Ok(s) => decode_spec(models_of(assembly@)) == Ok::<Seq<char>, ErrorModel>(s@),
            Err(e) => decode_spec(models_of(assembly@)) == Err::<Seq<char>, ErrorModel>(e@),
        },
{
    let ghost ms = models_of(assembly@);
    let mut out = String::new();
    let mut i: usize = 0;
    while i < assembly.len()
        invariant
            i <= assembly.len(),
            ms == models_of(assembly@),
            decode_upto(ms, i as int) == Ok::<Seq<char>, ErrorModel>(out@),
        decreases assembly.len() - i,
    {
        let ghost old_out = out@;
        proof {
            assert(ms[i as int] == assembly@[i as int]@);
        }
        match &assembly[i] {
            Instruction::A { lnum, symbol: _, address } => match decode_a(*lnum, *address) {
                Ok(word) => {
                    out.append(word.as_str());
                    out.append("\n");
                    proof {
                        reveal_strlit("\n");
                        assert("\n"@ =~= seq!['\n']);
                        assert(out@ =~= old_out + (word@ + seq!['\n']));
                    }
                },
                Err(e) => {
                    proof {
                        lemma_decode_upto_err(ms, i + 1 as int, ms.len() as int);
                    }
                    return Err(e);
                },
            },
            Instruction::L { .. } => {
                proof {
                    assert(old_out + Seq::<char>::empty() =~= old_out);
                }
            },
            Instruction::C { lnum, dest, comp, jump } => match decode_c(*lnum, dest, comp, jump) {
                Ok(word) => {
                    out.append(word.as_str());
                    out.append("\n");
                    proof {
                        reveal_strlit("\n");
                        assert("\n"@ =~= seq!['\n']);
                        assert(out@ =~= old_out + word@.push('\n'));
                    }
                },
                Err(e) => {
                    proof {
                        lemma_decode_upto_err(ms, i + 1 as int, ms.len() as int);
                    }
                    return Err(e);
                },
            },
        }
        i = i + 1;
    }
    Ok(out)
}

} // verus!
