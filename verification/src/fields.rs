//! The three mnemonic fields of a compute instruction.
//!
//! A compute instruction `dest=comp;jump` names a destination, a
//! computation and a jump condition.  Each field is mapped to its fixed
//! bit pattern through one of the tables below; a mnemonic outside its
//! table is a fatal condition that aborts the whole translation.

use vstd::prelude::*;

verus! {

/// Which field of a compute instruction a mnemonic stood in.
#[derive(Clone, Copy, Debug, PartialEq, Eq, Structural)]
pub enum Field {
    Dest,
    Comp,
    Jump,
}

/// What an [`AsmError`] states: the field and the offending mnemonic.
pub struct ErrModel {
    pub field: Field,
    pub mnemonic: Seq<char>,
}

/// A fatal translation error: a mnemonic outside its field's table.
#[derive(Debug, PartialEq, Eq)]
pub struct AsmError {
    pub field: Field,
    pub mnemonic: Vec<char>,
}

impl View for AsmError {
    type V = ErrModel;

    open spec fn view(&self) -> ErrModel {
        ErrModel { field: self.field, mnemonic: self.mnemonic@ }
    }
}

/// The destination table: three bit flags selecting which of the three
/// writable locations receive the result.
pub open spec fn dest_code(s: Seq<char>) -> Option<Seq<char>> {
    if s == seq!['M'] {
        Some(seq!['0', '0', '1'])
    } else if s == seq!['D'] {
        Some(seq!['0', '1', '0'])
    } else if s == seq!['M', 'D'] {
        Some(seq!['0', '1', '1'])
    } else if s == seq!['A'] {
        Some(seq!['1', '0', '0'])
    } else if s == seq!['A', 'M'] {
        Some(seq!['1', '0', '1'])
    } else if s == seq!['A', 'D'] {
        Some(seq!['1', '1', '0'])
    } else if s == seq!['A', 'M', 'D'] {
        Some(seq!['1', '1', '1'])
    } else {
        None
    }
}

/// The jump table: seven non-zero codes for the seven jump conditions.
pub open spec fn jump_code(s: Seq<char>) -> Option<Seq<char>> {
    if s == seq!['J', 'G', 'T'] {
        Some(seq!['0', '0', '1'])
    } else if s == seq!['J', 'E', 'Q'] {
        Some(seq!['0', '1', '0'])
    } else if s == seq!['J', 'G', 'E'] {
        Some(seq!['0', '1', '1'])
    } else if s == seq!['J', 'L', 'T'] {
        Some(seq!['1', '0', '0'])
    } else if s == seq!['J', 'N', 'E'] {
        Some(seq!['1', '0', '1'])
    } else if s == seq!['J', 'L', 'E'] {
        Some(seq!['1', '1', '0'])
    } else if s == seq!['J', 'M', 'P'] {
        Some(seq!['1', '1', '1'])
    } else {
        None
    }
}

/// The computation table: 28 seven-bit codes, the leading bit selecting
/// whether the secondary addressable location stands in for one operand.
pub open spec fn comp_code(s: Seq<char>) -> Option<Seq<char>> {
    if s == seq!['0'] {
        Some(seq!['0', '1', '0', '1', '0', '1', '0'])
    } else if s == seq!['1'] {
        Some(seq!['0', '1', '1', '1', '1', '1', '1'])
    } else if s == seq!['-', '1'] {
        Some(seq!['0', '1', '1', '1', '0', '1', '0'])
    } else if s == seq!['D'] {
        Some(seq!['0', '0', '0', '1', '1', '0', '0'])
    } else if s == seq!['A'] {
        Some(seq!['0', '1', '1', '0', '0', '0', '0'])
    } else if s == seq!['!', 'D'] {
        Some(seq!['0', '0', '0', '1', '1', '0', '1'])
    } else if s == seq!['!', 'A'] {
        Some(seq!['0', '1', '1', '0', '0', '0', '1'])
    } else if s == seq!['-', 'D'] {
        Some(seq!['0', '0', '0', '1', '1', '1', '1'])
    } else if s == seq!['-', 'A'] {
        Some(seq!['0', '1', '1', '0', '0', '1', '1'])
    } else if s == seq!['D', '+', '1'] {
        Some(seq!['0', '0', '1', '1', '1', '1', '1'])
    } else if s == seq!['A', '+', '1'] {
        Some(seq!['0', '1', '1', '0', '1', '1', '1'])
    } else if s == seq!['D', '-', '1'] {
        Some(seq!['0', '0', '0', '1', '1', '1', '0'])
    } else if s == seq!['A', '-', '1'] {
        Some(seq!['0', '1', '1', '0', '0', '1', '0'])
    } else if s == seq!['D', '+', 'A'] {
        Some(seq!['0', '0', '0', '0', '0', '1', '0'])
    } else if s == seq!['D', '-', 'A'] {
        Some(seq!['0', '0', '1', '0', '0', '1', '1'])
    } else if s == seq!['A', '-', 'D'] {
        Some(seq!['0', '0', '0', '0', '1', '1', '1'])
    } else if s == seq!['D', '&', 'A'] {
        Some(seq!['0', '0', '0', '0', '0', '0', '0'])
    } else if s == seq!['A', '|', 'D'] {
        Some(seq!['0', '0', '1', '0', '1', '0', '1'])
    } else if s == seq!['M'] {
        Some(seq!['1', '1', '1', '0', '0', '0', '0'])
    } else if s == seq!['!', 'M'] {
        Some(seq!['1', '1', '1', '0', '0', '0', '1'])
    } else if s == seq!['-', 'M'] {
        Some(seq!['1', '1', '1', '0', '0', '1', '1'])
    } else if s == seq!['M', '+', '1'] {
        Some(seq!['1', '1', '1', '0', '1', '1', '1'])
    } else if s == seq!['M', '-', '1'] {
        Some(seq!['1', '1', '1', '0', '0', '1', '0'])
    } else if s == seq!['D', '+', 'M'] {
        Some(seq!['1', '0', '0', '0', '0', '1', '0'])
    } else if s == seq!['D', '-', 'M'] {
        Some(seq!['1', '0', '1', '0', '0', '1', '1'])
    } else if s == seq!['M', '-', 'D'] {
        Some(seq!['1', '0', '0', '0', '1', '1', '1'])
    } else if s == seq!['D', '&', 'M'] {
        Some(seq!['1', '0', '0', '0', '0', '0', '0'])
    } else if s == seq!['D', '|', 'M'] {
        Some(seq!['1', '0', '1', '0', '1', '0', '1'])
    } else {
        None
    }
}

/// Whether `v` holds exactly the one character `a`.
fn is1(v: &Vec<char>, a: char) -> (b: bool)
    ensures
        b == (v@ == seq![a]),
{
    let b = v.len() == 1 && v[0] == a;
    proof {
        if b {
            assert(v@ =~= seq![a]);
        }
    }
    b
}

/// Whether `v` holds exactly the two characters `a`, `b`.
fn is2(v: &Vec<char>, a: char, b: char) -> (r: bool)
    ensures
        r == (v@ == seq![a, b]),
{
    let r = v.len() == 2 && v[0] == a && v[1] == b;
    proof {
        if r {
            assert(v@ =~= seq![a, b]);
        }
    }
    r
}

/// Whether `v` holds exactly the three characters `a`, `b`, `c`.
fn is3(v: &Vec<char>, a: char, b: char, c: char) -> (r: bool)
    ensures
        r == (v@ == seq![a, b, c]),
{
    let r = v.len() == 3 && v[0] == a && v[1] == b && v[2] == c;
    proof {
        if r {
            assert(v@ =~= seq![a, b, c]);
        }
    }
    r
}

/// A fresh copy of an accumulated mnemonic, for carrying in an error.
fn copy_chars(v: &Vec<char>) -> (r: Vec<char>)
    ensures
        r@ == v@,
{
    let mut r: Vec<char> = Vec::new();
    let mut i: usize = 0;
    while i < v.len()
        invariant
            0 <= i <= v@.len(),
            r@ =~= v@.subrange(0, i as int),
        decreases v@.len() - i,
    {
        r.push(v[i]);
        i = i + 1;
    }
    proof {
        assert(r@ =~= v@);
    }
    r
}

/// Maps a destination mnemonic to its three-bit code, as `dest_code`
/// states it; an unknown mnemonic is the fatal error the tables call for.
pub fn assemble_dest(dest: &Vec<char>) -> (r: Result<&'static str, AsmError>)
    ensures
        match r {
            Ok(code) => dest_code(dest@) == Some(code@),
            Err(e) => dest_code(dest@) is None && e@ == (ErrModel {
                field: Field::Dest,
                mnemonic: dest@,
            }),
        },
{
    proof {
        reveal_strlit("001");
        reveal_strlit("010");
        reveal_strlit("011");
        reveal_strlit("100");
        reveal_strlit("101");
        reveal_strlit("110");
        reveal_strlit("111");
    }
    if is1(dest, 'M') {
        proof {
            assert("001"@ =~= seq!['0', '0', '1']);
        }
        Ok("001")
    } else if is1(dest, 'D') {
        proof {
            assert("010"@ =~= seq!['0', '1', '0']);
        }
        Ok("010")
    } else if is2(dest, 'M', 'D') {
        proof {
            assert("011"@ =~= seq!['0', '1', '1']);
        }
        Ok("011")
    } else if is1(dest, 'A') {
        proof {
            assert("100"@ =~= seq!['1', '0', '0']);
        }
        Ok("100")
    } else if is2(dest, 'A', 'M') {
        proof {
            assert("101"@ =~= seq!['1', '0', '1']);
        }
        Ok("101")
    } else if is2(dest, 'A', 'D') {
        proof {
            assert("110"@ =~= seq!['1', '1', '0']);
        }
        Ok("110")
    } else if is3(dest, 'A', 'M', 'D') {
        proof {
            assert("111"@ =~= seq!['1', '1', '1']);
        }
        Ok("111")
    } else {
        Err(AsmError { field: Field::Dest, mnemonic: copy_chars(dest) })
    }
}

/// Maps a jump mnemonic to its three-bit code, as `jump_code` states it.
pub fn assemble_jmp(jmp: &Vec<char>) -> (r: Result<&'static str, AsmError>)
    ensures
        match r {
            Ok(code) => jump_code(jmp@) == Some(code@),
            Err(e) => jump_code(jmp@) is None && e@ == (ErrModel {
                field: Field::Jump,
                mnemonic: jmp@,
            }),
        },
{
    proof {
        reveal_strlit("001");
        reveal_strlit("010");
        reveal_strlit("011");
        reveal_strlit("100");
        reveal_strlit("101");
        reveal_strlit("110");
        reveal_strlit("111");
    }
    if is3(jmp, 'J', 'G', 'T') {
        proof {
            assert("001"@ =~= seq!['0', '0', '1']);
        }
        Ok("001")
    } else if is3(jmp, 'J', 'E', 'Q') {
        proof {
            assert("010"@ =~= seq!['0', '1', '0']);
        }
        Ok("010")
    } else if is3(jmp, 'J', 'G', 'E') {
        proof {
            assert("011"@ =~= seq!['0', '1', '1']);
        }
        Ok("011")
    } else if is3(jmp, 'J', 'L', 'T') {
        proof {
            assert("100"@ =~= seq!['1', '0', '0']);
        }
        Ok("100")
    } else if is3(jmp, 'J', 'N', 'E') {
        proof {
            assert("101"@ =~= seq!['1', '0', '1']);
        }
        Ok("101")
    } else if is3(jmp, 'J', 'L', 'E') {
        proof {
            assert("110"@ =~= seq!['1', '1', '0']);
        }
        Ok("110")
    } else if is3(jmp, 'J', 'M', 'P') {
        proof {
            assert("111"@ =~= seq!['1', '1', '1']);
        }
        Ok("111")
    } else {
        Err(AsmError { field: Field::Jump, mnemonic: copy_chars(jmp) })
    }
}

/// Maps a computation mnemonic to its seven-bit code, as `comp_code`
/// states it.
pub fn assemble_comp(comp: &Vec<char>) -> (r: Result<&'static str, AsmError>)
    ensures
        match r {
            Ok(code) => comp_code(comp@) == Some(code@),
            Err(e) => comp_code(comp@) is None && e@ == (ErrModel {
                field: Field::Comp,
                mnemonic: comp@,
            }),
        },
{
    if is1(comp, '0') {
        proof {
            reveal_strlit("0101010");
            assert("0101010"@ =~= seq!['0', '1', '0', '1', '0', '1', '0']);
        }
        Ok("0101010")
    } else if is1(comp, '1') {
        proof {
            reveal_strlit("0111111");
            assert("0111111"@ =~= seq!['0', '1', '1', '1', '1', '1', '1']);
        }
        Ok("0111111")
    } else if is2(comp, '-', '1') {
        proof {
            reveal_strlit("0111010");
            assert("0111010"@ =~= seq!['0', '1', '1', '1', '0', '1', '0']);
        }
        Ok("0111010")
    } else if is1(comp, 'D') {
        proof {
            reveal_strlit("0001100");
            assert("0001100"@ =~= seq!['0', '0', '0', '1', '1', '0', '0']);
        }
        Ok("0001100")
    } else if is1(comp, 'A') {
        proof {
            reveal_strlit("0110000");
            assert("0110000"@ =~= seq!['0', '1', '1', '0', '0', '0', '0']);
        }
        Ok("0110000")
    } else if is2(comp, '!', 'D') {
        proof {
            reveal_strlit("0001101");
            assert("0001101"@ =~= seq!['0', '0', '0', '1', '1', '0', '1']);
        }
        Ok("0001101")
    } else if is2(comp, '!', 'A') {
        proof {
            reveal_strlit("0110001");
            assert("0110001"@ =~= seq!['0', '1', '1', '0', '0', '0', '1']);
        }
        Ok("0110001")
    } else if is2(comp, '-', 'D') {
        proof {
            reveal_strlit("0001111");
            assert("0001111"@ =~= seq!['0', '0', '0', '1', '1', '1', '1']);
        }
        Ok("0001111")
    } else if is2(comp, '-', 'A') {
        proof {
            reveal_strlit("0110011");
            assert("0110011"@ =~= seq!['0', '1', '1', '0', '0', '1', '1']);
        }
        Ok("0110011")
    } else if is3(comp, 'D', '+', '1') {
        proof {
            reveal_strlit("0011111");
            assert("0011111"@ =~= seq!['0', '0', '1', '1', '1', '1', '1']);
        }
        Ok("0011111")
    } else if is3(comp, 'A', '+', '1') {
        proof {
            reveal_strlit("0110111");
            assert("0110111"@ =~= seq!['0', '1', '1', '0', '1', '1', '1']);
        }
        Ok("0110111")
    } else if is3(comp, 'D', '-', '1') {
        proof {
            reveal_strlit("0001110");
            assert("0001110"@ =~= seq!['0', '0', '0', '1', '1', '1', '0']);
        }
        Ok("0001110")
    } else if is3(comp, 'A', '-', '1') {
        proof {
            reveal_strlit("0110010");
            assert("0110010"@ =~= seq!['0', '1', '1', '0', '0', '1', '0']);
        }
        Ok("0110010")
    } else if is3(comp, 'D', '+', 'A') {
        proof {
            reveal_strlit("0000010");
            assert("0000010"@ =~= seq!['0', '0', '0', '0', '0', '1', '0']);
        }
        Ok("0000010")
    } else if is3(comp, 'D', '-', 'A') {
        proof {
            reveal_strlit("0010011");
            assert("0010011"@ =~= seq!['0', '0', '1', '0', '0', '1', '1']);
        }
        Ok("0010011")
    } else if is3(comp, 'A', '-', 'D') {
        proof {
            reveal_strlit("0000111");
            assert("0000111"@ =~= seq!['0', '0', '0', '0', '1', '1', '1']);
        }
        Ok("0000111")
    } else if is3(comp, 'D', '&', 'A') {
        proof {
            reveal_strlit("0000000");
            assert("0000000"@ =~= seq!['0', '0', '0', '0', '0', '0', '0']);
        }
        Ok("0000000")
    } else if is3(comp, 'A', '|', 'D') {
        proof {
            reveal_strlit("0010101");
            assert("0010101"@ =~= seq!['0', '0', '1', '0', '1', '0', '1']);
        }
        Ok("0010101")
    } else if is1(comp, 'M') {
        proof {
            reveal_strlit("1110000");
            assert("1110000"@ =~= seq!['1', '1', '1', '0', '0', '0', '0']);
        }
        Ok("1110000")
    } else if is2(comp, '!', 'M') {
        proof {
            reveal_strlit("1110001");
            assert("1110001"@ =~= seq!['1', '1', '1', '0', '0', '0', '1']);
        }
        Ok("1110001")
    } else if is2(comp, '-', 'M') {
        proof {
            reveal_strlit("1110011");
            assert("1110011"@ =~= seq!['1', '1', '1', '0', '0', '1', '1']);
        }
        Ok("1110011")
    } else if is3(comp, 'M', '+', '1') {
        proof {
            reveal_strlit("1110111");
            assert("1110111"@ =~= seq!['1', '1', '1', '0', '1', '1', '1']);
        }
        Ok("1110111")
    } else if is3(comp, 'M', '-', '1') {
        proof {
            reveal_strlit("1110010");
            assert("1110010"@ =~= seq!['1', '1', '1', '0', '0', '1', '0']);
        }
        Ok("1110010")
    } else if is3(comp, 'D', '+', 'M') {
        proof {
            reveal_strlit("1000010");
            assert("1000010"@ =~= seq!['1', '0', '0', '0', '0', '1', '0']);
        }
        Ok("1000010")
    } else if is3(comp, 'D', '-', 'M') {
        proof {
            reveal_strlit("1010011");
            assert("1010011"@ =~= seq!['1', '0', '1', '0', '0', '1', '1']);
        }
        Ok("1010011")
    } else if is3(comp, 'M', '-', 'D') {
        proof {
            reveal_strlit("1000111");
            assert("1000111"@ =~= seq!['1', '0', '0', '0', '1', '1', '1']);
        }
        Ok("1000111")
    } else if is3(comp, 'D', '&', 'M') {
        proof {
            reveal_strlit("1000000");
            assert("1000000"@ =~= seq!['1', '0', '0', '0', '0', '0', '0']);
        }
        Ok("1000000")
    } else if is3(comp, 'D', '|', 'M') {
        proof {
            reveal_strlit("1010101");
            assert("1010101"@ =~= seq!['1', '0', '1', '0', '1', '0', '1']);
        }
        Ok("1010101")
    } else {
        Err(AsmError { field: Field::Comp, mnemonic: copy_chars(comp) })
    }
}

} // verus!
