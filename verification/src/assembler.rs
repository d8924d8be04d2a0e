//! The two-pass translation pipeline.
//!
//! The first pass scans the source lines once, in order: comments and
//! blank lines are skipped, a label definition binds its name to the
//! address of the next real instruction, an address instruction is encoded
//! immediately or recorded for later with an all-zero placeholder, and a
//! compute instruction is always encoded on the spot.  The second pass
//! revisits the recorded lines in original order, resolves each against
//! the now-complete label set, or binds the name as a fresh variable at
//! the next address from 16 upward and patches the placeholder in place.

use vstd::prelude::*;

use crate::binary::encode16;
use crate::fields::{AsmError, ErrModel};
use crate::instructions::{
    a_encoding, assemble_a_instruction, assemble_c_instruction, c_encoding, strip_at,
    strip_at_exec,
};
use crate::symbols::predefined_symbols;
use vstd::hash_map::StringHashMap;
use vstd::pervasive::VecAdditionalExecFns;

verus! {

/// The views of a sequence of strings.
pub open spec fn lines_view(v: Seq<String>) -> Seq<Seq<char>> {
    v.map_values(|s: String| s@)
}

/// The views of the pending-resolution records: each pairs the index of an
/// emitted instruction slot with the original trimmed line.
pub open spec fn pending_view(v: Seq<(usize, String)>) -> Seq<(usize, Seq<char>)> {
    v.map_values(|p: (usize, String)| (p.0, p.1@))
}

/// The whitespace characters trimmed from the head of a line.
pub open spec fn is_space(c: char) -> bool {
    c == ' ' || c == '\t' || c == '\n' || c == '\r' || c == '\u{0b}' || c == '\u{0c}'
}

pub open spec fn trim_leading(s: Seq<char>) -> Seq<char>
    decreases s.len(),
{
    if s.len() > 0 && is_space(s[0]) {
        trim_leading(s.drop_first())
    } else {
        s
    }
}

proof fn lemma_trim_leading_subrange(s: Seq<char>, k: int)
    requires
        0 <= k <= s.len(),
        forall|j: int| 0 <= j < k ==> is_space(s[j]),
        k < s.len() ==> !is_space(s[k]),
    ensures
        trim_leading(s) == s.subrange(k, s.len() as int),
    decreases k,
{
    if k == 0 {
        assert(s.subrange(0, s.len() as int) =~= s);
    } else {
        let rest = s.drop_first();
        lemma_trim_leading_subrange(rest, k - 1);
        assert(rest.subrange(k - 1, rest.len() as int) =~= s.subrange(k, s.len() as int));
    }
}

fn trim_leading_exec<'a>(s: &'a str) -> (t: &'a str)
    ensures
        t@ == trim_leading(s@),
{
    let len = s.unicode_len();
    let mut k: usize = 0;
    while k < len && is_space_exec(s.get_char(k))
        invariant
            0 <= k <= len,
            len == s@.len(),
            forall|j: int| 0 <= j < k ==> is_space(s@[j]),
        decreases len - k,
    {
        k = k + 1;
    }
    proof {
        lemma_trim_leading_subrange(s@, k as int);
    }
    s.substring_char(k, len)
}

fn is_space_exec(c: char) -> (b: bool)
    ensures
        b == is_space(c),
{
    c == ' ' || c == '\t' || c == '\n' || c == '\r' || c == '\u{0b}' || c == '\u{0c}'
}

/// The name a label definition binds: the text between the opening
/// parenthesis and the line's last character.
pub open spec fn label_of(line: Seq<char>) -> Seq<char> {
    if line.len() <= 1 {
        Seq::empty()
    } else {
        line.subrange(1, line.len() - 1)
    }
}

/// The first pass's whole state: the symbol table, the instruction words
/// emitted so far, and the pending-resolution records in encounter order.
pub struct PassState {
    pub table: Map<Seq<char>, usize>,
    pub code: Seq<Seq<char>>,
    pub pending: Seq<(usize, Seq<char>)>,
}

/// One source line of the first pass.  The instruction counter is
/// `code.len()`: it advances exactly when a word is emitted, so a label is
/// bound to the address the next real instruction will occupy.
pub open spec fn first_pass_step(st: PassState, raw: Seq<char>) -> Result<PassState, ErrModel> {
    let line = trim_leading(raw);
    if line.len() == 0 {
        Ok(st)
    } else if line[0] == '/' {
        Ok(st)
    } else if line[0] == '(' {
        Ok(
            PassState {
                table: st.table.insert(label_of(line), st.code.len() as usize),
                code: st.code,
                pending: st.pending,
            },
        )
    } else if line[0] == '@' {
        match a_encoding(line, st.table) {
            Some(word) => Ok(
                PassState { table: st.table, code: st.code.push(word), pending: st.pending },
            ),
            None => Ok(
                PassState {
                    table: st.table,
                    code: st.code.push(encode16(0)),
                    pending: st.pending.push((st.code.len() as usize, line)),
                },
            ),
        }
    } else {
        match c_encoding(line) {
            Ok(word) => Ok(
                PassState { table: st.table, code: st.code.push(word), pending: st.pending },
            ),
            Err(e) => Err(e),
        }
    }
}

/// The first pass over the lines from position `i` onward.
pub open spec fn first_pass_from(lines: Seq<Seq<char>>, i: int, st: PassState) -> Result<
    PassState,
    ErrModel,
>
    decreases lines.len() - i,
{
    if i < 0 || i >= lines.len() {
        Ok(st)
    } else {
        match first_pass_step(st, lines[i]) {
            Ok(next) => first_pass_from(lines, i + 1, next),
            Err(e) => Err(e),
        }
    }
}

/// The second pass over the pending records from position `i` onward,
/// with `next_var` the next free variable address.  Returns the final
/// symbol table and the patched instruction stream.
pub open spec fn second_pass_from(
    pending: Seq<(usize, Seq<char>)>,
    i: int,
    table: Map<Seq<char>, usize>,
    code: Seq<Seq<char>>,
    next_var: int,
) -> (Map<Seq<char>, usize>, Seq<Seq<char>>)
    decreases pending.len() - i,
{
    if i < 0 || i >= pending.len() {
        (table, code)
    } else {
        let idx = pending[i].0;
        let text = pending[i].1;
        match a_encoding(text, table) {
            Some(word) => second_pass_from(pending, i + 1, table, code.update(idx as int, word), next_var),
            None => second_pass_from(
                pending,
                i + 1,
                table.insert(strip_at(text), next_var as usize),
                code.update(idx as int, encode16(next_var as nat)),
                next_var + 1,
            ),
        }
    }
}

/// The whole translation: the first pass from the pre-seeded table, then
/// the second pass over its pending records with variable addresses from
/// 16 upward.  An unknown mnemonic aborts the whole translation with no
/// output.
pub open spec fn assemble_spec(lines: Seq<Seq<char>>) -> Result<Seq<Seq<char>>, ErrModel> {
    let init = PassState {
        table: predefined_symbols(),
        code: Seq::empty(),
        pending: Seq::empty(),
    };
    match first_pass_from(lines, 0, init) {
        Ok(st) => Ok(second_pass_from(st.pending, 0, st.table, st.code, 16).1),
        Err(e) => Err(e),
    }
}

/// Runs the first pass, exactly as `first_pass_from` states it, growing
/// `machine_code` and `line_numbers` from empty and binding labels into
/// `symbol_table`.  On a fatal mnemonic the vectors hold partial work that
/// the caller must discard; nothing is stated of them then.
pub fn assemble_first_pass(
    symbol_table: &mut StringHashMap<usize>,
    assembly_code: Vec<String>,
    machine_code: &mut Vec<String>,
    line_numbers: &mut Vec<(usize, String)>,
) -> (r: Result<(), AsmError>)
    requires
        old(machine_code)@.len() == 0,
        old(line_numbers)@.len() == 0,
    ensures
        ({
            let start = PassState {
                table: old(symbol_table)@,
                code: Seq::empty(),
                pending: Seq::empty(),
            };
            match r {
                Ok(_) => first_pass_from(lines_view(assembly_code@), 0, start) == Ok::<
                    PassState,
                    ErrModel,
                >(
                    PassState {
                        table: final(symbol_table)@,
                        code: lines_view(final(machine_code)@),
                        pending: pending_view(final(line_numbers)@),
                    },
                ),
                Err(e) => first_pass_from(lines_view(assembly_code@), 0, start) == Err::<
                    PassState,
                    ErrModel,
                >(e@),
            }
        }),
{
    let ghost lines = lines_view(assembly_code@);
    let ghost start = PassState {
        table: symbol_table@,
        code: Seq::empty(),
        pending: Seq::empty(),
    };
    proof {
        assert(lines_view(machine_code@) =~= Seq::<Seq<char>>::empty());
        assert(pending_view(line_numbers@) =~= Seq::<(usize, Seq<char>)>::empty());
    }
    let n = assembly_code.len();
    let mut i: usize = 0;
    while i < n
        invariant
            0 <= i <= n,
            n == assembly_code@.len(),
            lines == lines_view(assembly_code@),
            start == (PassState {
                table: old(symbol_table)@,
                code: Seq::<Seq<char>>::empty(),
                pending: Seq::<(usize, Seq<char>)>::empty(),
            }),
            first_pass_from(
                lines,
                i as int,
                PassState {
                    table: symbol_table@,
                    code: lines_view(machine_code@),
                    pending: pending_view(line_numbers@),
                },
            ) == first_pass_from(lines, 0, start),
        decreases n - i,
    {
        let ghost st = PassState {
            table: symbol_table@,
            code: lines_view(machine_code@),
            pending: pending_view(line_numbers@),
        };
        proof {
            assert(lines[i as int] == assembly_code@[i as int]@);
        }
        let trimmed = trim_leading_exec(assembly_code[i].as_str());
        let tlen = trimmed.unicode_len();
        if tlen == 0 {
            // blank line: no counter effect, no output
        } else {
            let first = trimmed.get_char(0);
            if first == '/' {
                // comment: skipped
            } else if first == '(' {
                let name = if tlen <= 1 {
                    String::new()
                } else {
                    String::from_str(trimmed.substring_char(1, tlen - 1))
                };
                proof {
                    assert(name@ == label_of(trimmed@));
                }
                symbol_table.insert(name, machine_code.len());
            } else if first == '@' {
                match assemble_a_instruction(trimmed, symbol_table) {
                    Some(word) => {
                        let ghost w = word@;
                        machine_code.push(word);
                        proof {
                            assert(lines_view(machine_code@) =~= st.code.push(w));
                        }
                    },
                    None => {
                        line_numbers.push((machine_code.len(), String::from_str(trimmed)));
                        let word = crate::binary::encode_address(0);
                        let ghost w = word@;
                        machine_code.push(word);
                        proof {
                            assert(lines_view(machine_code@) =~= st.code.push(w));
                            assert(pending_view(line_numbers@) =~= st.pending.push(
                                (st.code.len() as usize, trimmed@),
                            ));
                        }
                    },
                }
            } else {
                match assemble_c_instruction(trimmed) {
                    Ok(word) => {
                        let ghost w = word@;
                        machine_code.push(word);
                        proof {
                            assert(lines_view(machine_code@) =~= st.code.push(w));
                        }
                    },
                    Err(e) => {
                        proof {
                            assert(first_pass_step(st, lines[i as int]) == Err::<
                                PassState,
                                ErrModel,
                            >(e@));
                            assert(first_pass_from(lines, i as int, st) == Err::<
                                PassState,
                                ErrModel,
                            >(e@));
                        }
                        return Err(e);
                    },
                }
            }
        }
        proof {
            let next = PassState {
                table: symbol_table@,
                code: lines_view(machine_code@),
                pending: pending_view(line_numbers@),
            };
            assert(first_pass_step(st, lines[i as int]) == Ok::<PassState, ErrModel>(next));
        }
        i = i + 1;
    }
    Ok(())
}

/// Runs the second pass, exactly as `second_pass_from` states it: each
/// recorded line is resolved against the completed table or bound as a
/// fresh variable, and the placeholder at its index is patched in place.
pub fn assemble_missing_lines(
    symbol_table: &mut StringHashMap<usize>,
    machine_code: &mut Vec<String>,
    line_numbers: Vec<(usize, String)>,
)
    requires
        forall|j: int|
            0 <= j < line_numbers@.len() ==> (#[trigger] line_numbers@[j]).0
                < old(machine_code)@.len(),
        line_numbers@.len() + 16 <= usize::MAX,
    ensures
        ({
            let result = second_pass_from(
                pending_view(line_numbers@),
                0,
                old(symbol_table)@,
                lines_view(old(machine_code)@),
                16,
            );
            final(symbol_table)@ == result.0 && lines_view(final(machine_code)@) == result.1
        }),
{
    let ghost pending = pending_view(line_numbers@);
    let ghost goal = second_pass_from(
        pending,
        0,
        symbol_table@,
        lines_view(machine_code@),
        16,
    );
    let mut next_var: usize = 16;
    let n = line_numbers.len();
    let mut i: usize = 0;
    while i < n
        invariant
            0 <= i <= n,
            n == line_numbers@.len(),
            n + 16 <= usize::MAX,
            pending == pending_view(line_numbers@),
            next_var <= 16 + i,
            machine_code@.len() == old(machine_code)@.len(),
            forall|j: int|
                0 <= j < line_numbers@.len() ==> (#[trigger] line_numbers@[j]).0
                    < old(machine_code)@.len(),
            second_pass_from(
                pending,
                i as int,
                symbol_table@,
                lines_view(machine_code@),
                next_var as int,
            ) == goal,
        decreases n - i,
    {
        let ghost table0 = symbol_table@;
        let ghost code0 = lines_view(machine_code@);
        let entry = &line_numbers[i];
        let idx = entry.0;
        match assemble_a_instruction(entry.1.as_str(), symbol_table) {
            Some(word) => {
                let ghost w = word@;
                machine_code.set(idx, word);
                proof {
                    assert(lines_view(machine_code@) =~= code0.update(idx as int, w));
                }
            },
            None => {
                let name = strip_at_exec(entry.1.as_str());
                symbol_table.insert(String::from_str(name), next_var);
                let word = crate::binary::encode_address(next_var);
                let ghost w = word@;
                machine_code.set(idx, word);
                next_var = next_var + 1;
                proof {
                    assert(lines_view(machine_code@) =~= code0.update(idx as int, w));
                }
            },
        }
        i = i + 1;
    }
}

/// Pending records point into the emitted code, and at most one record is
/// created per source line: what `assemble` needs of the first pass.
proof fn lemma_first_pass_bounds(lines: Seq<Seq<char>>, i: int, st: PassState)
    requires
        0 <= i <= lines.len(),
        first_pass_from(lines, i, st) is Ok,
        forall|j: int| 0 <= j < st.pending.len() ==> (#[trigger] st.pending[j]).0 < st.code.len(),
    ensures
        ({
            let fin = first_pass_from(lines, i, st)->Ok_0;
            &&& forall|j: int|
                0 <= j < fin.pending.len() ==> (#[trigger] fin.pending[j]).0 < fin.code.len()
            &&& fin.pending.len() <= st.pending.len() + (lines.len() - i)
        }),
    decreases lines.len() - i,
{
    if i < lines.len() {
        let next = first_pass_step(st, lines[i])->Ok_0;
        lemma_first_pass_bounds(lines, i + 1, next);
    }
}

/// Translates a source unit, exactly as `assemble_spec` states it: the
/// ordered binary words of its real instructions, or the first fatal
/// mnemonic and the field it stood in.
pub fn assemble(assembly_code: Vec<String>) -> (r: Result<Vec<String>, AsmError>)
    requires
        assembly_code@.len() + 16 <= usize::MAX,
    ensures
        match r {
            Ok(code) => assemble_spec(lines_view(assembly_code@)) == Ok::<Seq<Seq<char>>, ErrModel>(
                lines_view(code@),
            ),
            Err(e) => assemble_spec(lines_view(assembly_code@)) == Err::<Seq<Seq<char>>, ErrModel>(
                e@,
            ),
        },
{
    let ghost lines = lines_view(assembly_code@);
    let mut symbol_table = crate::symbols::build_symbol_table();
    let mut line_numbers: Vec<(usize, String)> = Vec::new();
    let mut machine_code: Vec<String> = Vec::new();
    let ghost start = PassState {
        table: symbol_table@,
        code: Seq::empty(),
        pending: Seq::empty(),
    };

    // After this first pass we have the full translation apart from symbols
    // used earlier in the file than they are declared, and variables.
    match assemble_first_pass(&mut symbol_table, assembly_code, &mut machine_code, &mut line_numbers)
    {
        Ok(_) => {},
        Err(e) => {
            return Err(e);
        },
    }

    proof {
        lemma_first_pass_bounds(lines, 0, start);
        let fin = first_pass_from(lines, 0, start)->Ok_0;
        assert(fin.code == lines_view(machine_code@));
        assert(fin.pending == pending_view(line_numbers@));
        assert(fin.code.len() == machine_code@.len());
        assert(fin.pending.len() == line_numbers@.len());
        assert forall|j: int|
            0 <= j < line_numbers@.len() implies (#[trigger] line_numbers@[j]).0
            < machine_code@.len() by {
            assert(fin.pending[j] == (line_numbers@[j].0, line_numbers@[j].1@));
        }
    }

    // Now revisit the lines the first pass could not translate for want of
    // information.
    assemble_missing_lines(&mut symbol_table, &mut machine_code, line_numbers);

    Ok(machine_code)
}

} // verus!
