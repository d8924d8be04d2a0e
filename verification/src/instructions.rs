//! The two instruction encoders.
//!
//! An address instruction `@value` loads a 15-bit address or constant; a
//! compute instruction `[dest=]comp[;jump]` names an ALU operation, an
//! optional destination and an optional jump condition.  The compute
//! encoder scans the line left to right with a small accumulation buffer,
//! exactly as `scan_step` states it.

use vstd::prelude::*;

use crate::binary::{encode16, encode_address};
use crate::fields::{
    assemble_comp, assemble_dest, assemble_jmp, comp_code, dest_code, jump_code, AsmError,
    ErrModel, Field,
};
use crate::numeric::{dec_value, numeric_body, parse_u16, parses_as_u16};
use vstd::hash_map::StringHashMap;

verus! {

/// The scanner's state: the accumulation buffer and the three field codes
/// gathered so far.  The destination and jump codes start as all-zero
/// (their defaults when the field is absent); the computation code starts
/// empty and tells the scanner whether `comp` has been seen yet.
#[verifier::ext_equal]
pub struct ScanState {
    pub acc: Seq<char>,
    pub dest: Seq<char>,
    pub comp: Seq<char>,
    pub jump: Seq<char>,
}

pub open spec fn init_scan() -> ScanState {
    ScanState {
        acc: Seq::empty(),
        dest: seq!['0', '0', '0'],
        comp: Seq::empty(),
        jump: seq!['0', '0', '0'],
    }
}

/// One character of the scan.  `=` closes the destination field, `;`
/// closes the computation field, and the last character of the line closes
/// the computation field if it is still open, the jump field otherwise.
pub open spec fn scan_step(st: ScanState, c: char, is_last: bool) -> Result<ScanState, ErrModel> {
    if c == '=' {
        match dest_code(st.acc) {
            Some(code) => Ok(
                ScanState { acc: Seq::empty(), dest: code, comp: st.comp, jump: st.jump },
            ),
            None => Err(ErrModel { field: Field::Dest, mnemonic: st.acc }),
        }
    } else if c == ';' {
        match comp_code(st.acc) {
            Some(code) => Ok(
                ScanState { acc: Seq::empty(), dest: st.dest, comp: st.comp + code, jump: st.jump },
            ),
            None => Err(ErrModel { field: Field::Comp, mnemonic: st.acc }),
        }
    } else if is_last {
        let buf = st.acc.push(c);
        if st.comp.len() == 0 {
            match comp_code(buf) {
                Some(code) => Ok(
                    ScanState { acc: buf, dest: st.dest, comp: st.comp + code, jump: st.jump },
                ),
                None => Err(ErrModel { field: Field::Comp, mnemonic: buf }),
            }
        } else {
            match jump_code(buf) {
                Some(code) => Ok(ScanState { acc: buf, dest: st.dest, comp: st.comp, jump: code }),
                None => Err(ErrModel { field: Field::Jump, mnemonic: buf }),
            }
        }
    } else {
        Ok(ScanState { acc: st.acc.push(c), dest: st.dest, comp: st.comp, jump: st.jump })
    }
}

/// The scan from position `i` onward, starting in state `st`.
pub open spec fn scan_from(line: Seq<char>, i: int, st: ScanState) -> Result<ScanState, ErrModel>
    decreases line.len() - i,
{
    if i < 0 || i >= line.len() {
        Ok(st)
    } else {
        match scan_step(st, line[i], i == line.len() - 1) {
            Ok(next) => scan_from(line, i + 1, next),
            Err(e) => Err(e),
        }
    }
}

/// The encoding of a compute instruction: the three-bit opcode prefix of
/// all ones, then the computation, destination and jump codes in that
/// order; or the first fatal mnemonic the scan runs into.
pub open spec fn c_encoding(line: Seq<char>) -> Result<Seq<char>, ErrModel> {
    match scan_from(line, 0, init_scan()) {
        Ok(st) => Ok(seq!['1', '1', '1'] + st.comp + st.dest + st.jump),
        Err(e) => Err(e),
    }
}

/// Encodes a compute instruction, exactly as `c_encoding` states it.
pub fn assemble_c_instruction(line: &str) -> (r: Result<String, AsmError>)
    ensures
        match r {
            Ok(code) => c_encoding(line@) == Ok::<Seq<char>, ErrModel>(code@),
            Err(e) => c_encoding(line@) == Err::<Seq<char>, ErrModel>(e@),
        },
{
    let len = line.unicode_len();
    let mut acc: Vec<char> = Vec::new();
    let mut dest: &'static str = "000";
    let mut comp = String::new();
    let mut jump: &'static str = "000";
    proof {
        reveal_strlit("000");
        assert(dest@ =~= seq!['0', '0', '0']);
        assert(jump@ =~= seq!['0', '0', '0']);
    }
    let mut i: usize = 0;
    while i < len
        invariant
            0 <= i <= len,
            len == line@.len(),
            scan_from(line@, i as int, ScanState { acc: acc@, dest: dest@, comp: comp@, jump: jump@ })
                == scan_from(line@, 0, init_scan()),
        decreases len - i,
    {
        let ghost st = ScanState { acc: acc@, dest: dest@, comp: comp@, jump: jump@ };
        let c = line.get_char(i);
        if c == '=' {
            let code = match assemble_dest(&acc) {
                Ok(code) => code,
                Err(e) => {
                    return Err(e);
                },
            };
            dest = code;
            acc.clear();
        } else if c == ';' {
            let code = match assemble_comp(&acc) {
                Ok(code) => code,
                Err(e) => {
                    return Err(e);
                },
            };
            comp.append(code);
            acc.clear();
        } else if i == len - 1 {
            acc.push(c);
            if comp.as_str().unicode_len() == 0 {
                let code = match assemble_comp(&acc) {
                    Ok(code) => code,
                    Err(e) => {
                        return Err(e);
                    },
                };
                comp.append(code);
            } else {
                let code = match assemble_jmp(&acc) {
                    Ok(code) => code,
                    Err(e) => {
                        return Err(e);
                    },
                };
                jump = code;
            }
        } else {
            acc.push(c);
        }
        proof {
            let next = ScanState { acc: acc@, dest: dest@, comp: comp@, jump: jump@ };
            assert(scan_step(st, line@[i as int], i == len - 1) == Ok::<ScanState, ErrModel>(next));
        }
        i = i + 1;
    }
    let mut result = String::new();
    result.append("111");
    result.append(comp.as_str());
    result.append(dest);
    result.append(jump);
    proof {
        reveal_strlit("111");
        assert(result@ =~= seq!['1', '1', '1'] + comp@ + dest@ + jump@);
    }
    Ok(result)
}

/// The encoding of an address instruction: the text after the leading `@`
/// characters read as a decimal literal, or looked up as a symbol; `None`
/// when the symbol is not yet bound — a normal outcome during the first
/// pass, never an error.
pub open spec fn strip_at(s: Seq<char>) -> Seq<char>
    decreases s.len(),
{
    if s.len() > 0 && s[0] == '@' {
        strip_at(s.drop_first())
    } else {
        s
    }
}

pub open spec fn a_encoding(s: Seq<char>, table: Map<Seq<char>, usize>) -> Option<Seq<char>> {
    let body = strip_at(s);
    if parses_as_u16(body) {
        Some(encode16(dec_value(numeric_body(body))))
    } else if table.contains_key(body) {
        Some(encode16(table[body] as nat))
    } else {
        None
    }
}

proof fn lemma_strip_at_subrange(s: Seq<char>, k: int)
    requires
        0 <= k <= s.len(),
        forall|j: int| 0 <= j < k ==> s[j] == '@',
        k < s.len() ==> s[k] != '@',
    ensures
        strip_at(s) == s.subrange(k, s.len() as int),
    decreases k,
{
    if k == 0 {
        assert(s.subrange(0, s.len() as int) =~= s);
    } else {
        let rest = s.drop_first();
        lemma_strip_at_subrange(rest, k - 1);
        assert(rest.subrange(k - 1, rest.len() as int) =~= s.subrange(k, s.len() as int));
    }
}

/// Drops every leading `@` character, as `strip_at` states it.
pub fn strip_at_exec<'a>(s: &'a str) -> (t: &'a str)
    ensures
        t@ == strip_at(s@),
{
    let len = s.unicode_len();
    let mut k: usize = 0;
    while k < len && s.get_char(k) == '@'
        invariant
            0 <= k <= len,
            len == s@.len(),
            forall|j: int| 0 <= j < k ==> s@[j] == '@',
        decreases len - k,
    {
        k = k + 1;
    }
    proof {
        lemma_strip_at_subrange(s@, k as int);
    }
    s.substring_char(k, len)
}

/// Encodes an address instruction against the symbol table, exactly as
/// `a_encoding` states it; `None` stands for "unresolved".
pub fn assemble_a_instruction(a_instr: &str, symbol_table: &StringHashMap<usize>) -> (r: Option<
    String,
>)
    ensures
        match r {
            Some(word) => a_encoding(a_instr@, symbol_table@) == Some(word@),
            None => a_encoding(a_instr@, symbol_table@) is None,
        },
{
    let body = strip_at_exec(a_instr);
    match parse_u16(body) {
        Some(value) => Some(encode_address(value as usize)),
        None => {
            match symbol_table.get(body) {
                Some(address) => Some(encode_address(*address)),
                None => None,
            }
        },
    }
}

} // verus!
