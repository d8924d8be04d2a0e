//! The library's stated laws, proved once and for all inputs.
//!
//! Each proof function below is a statement about the translation's
//! specification functions; nothing here runs at translation time.

use vstd::prelude::*;

use crate::assembler::{
    assemble_spec, first_pass_from, first_pass_step, label_of, second_pass_from, trim_leading,
    PassState,
};
use crate::fields::ErrModel;
use crate::instructions::{a_encoding, c_encoding, init_scan, scan_from, scan_step, strip_at,
    ScanState,
};
use crate::fields::{comp_code, dest_code, jump_code};
use crate::numeric::parses_as_u16;
use crate::symbols::predefined_symbols;

verus! {

/// The first pass's starting state: the pre-seeded table, no code, no
/// pending records.
pub open spec fn init_pass() -> PassState {
    PassState { table: predefined_symbols(), code: Seq::empty(), pending: Seq::empty() }
}

/// The pre-seeded symbols resolve to exactly their fixed values: sixteen
/// register symbols at 0 through 15, the five pointer symbols at 0
/// through 4, and the two I/O base symbols at their fixed high addresses
/// — whether or not any of them appears in a source unit.
#[verifier::rlimit(100)]
pub proof fn lemma_predefined_values()
    ensures
        predefined_symbols().contains_key("R0"@) && predefined_symbols()["R0"@] == 0,
        predefined_symbols().contains_key("R1"@) && predefined_symbols()["R1"@] == 1,
        predefined_symbols().contains_key("R2"@) && predefined_symbols()["R2"@] == 2,
        predefined_symbols().contains_key("R3"@) && predefined_symbols()["R3"@] == 3,
        predefined_symbols().contains_key("R4"@) && predefined_symbols()["R4"@] == 4,
        predefined_symbols().contains_key("R5"@) && predefined_symbols()["R5"@] == 5,
        predefined_symbols().contains_key("R6"@) && predefined_symbols()["R6"@] == 6,
        predefined_symbols().contains_key("R7"@) && predefined_symbols()["R7"@] == 7,
        predefined_symbols().contains_key("R8"@) && predefined_symbols()["R8"@] == 8,
        predefined_symbols().contains_key("R9"@) && predefined_symbols()["R9"@] == 9,
        predefined_symbols().contains_key("R10"@) && predefined_symbols()["R10"@] == 10,
        predefined_symbols().contains_key("R11"@) && predefined_symbols()["R11"@] == 11,
        predefined_symbols().contains_key("R12"@) && predefined_symbols()["R12"@] == 12,
        predefined_symbols().contains_key("R13"@) && predefined_symbols()["R13"@] == 13,
        predefined_symbols().contains_key("R14"@) && predefined_symbols()["R14"@] == 14,
        predefined_symbols().contains_key("R15"@) && predefined_symbols()["R15"@] == 15,
        predefined_symbols().contains_key("SP"@) && predefined_symbols()["SP"@] == 0,
        predefined_symbols().contains_key("LCL"@) && predefined_symbols()["LCL"@] == 1,
        predefined_symbols().contains_key("ARG"@) && predefined_symbols()["ARG"@] == 2,
        predefined_symbols().contains_key("THIS"@) && predefined_symbols()["THIS"@] == 3,
        predefined_symbols().contains_key("THAT"@) && predefined_symbols()["THAT"@] == 4,
        predefined_symbols().contains_key("SCREEN"@) && predefined_symbols()["SCREEN"@] == 16384,
        predefined_symbols().contains_key("KBD"@) && predefined_symbols()["KBD"@] == 24576,
{
    reveal_strlit("R0");
    reveal_strlit("R1");
    reveal_strlit("R2");
    reveal_strlit("R3");
    reveal_strlit("R4");
    reveal_strlit("R5");
    reveal_strlit("R6");
    reveal_strlit("R7");
    reveal_strlit("R8");
    reveal_strlit("R9");
    reveal_strlit("R10");
    reveal_strlit("R11");
    reveal_strlit("R12");
    reveal_strlit("R13");
    reveal_strlit("R14");
    reveal_strlit("R15");
    reveal_strlit("SP");
    reveal_strlit("LCL");
    reveal_strlit("ARG");
    reveal_strlit("THIS");
    reveal_strlit("THAT");
    reveal_strlit("SCREEN");
    reveal_strlit("KBD");
    assert("R0"@.len() == 2);
    assert("R0"@[0] == 'R');
    assert("R0"@[1] == '0');
    assert("R1"@.len() == 2);
    assert("R1"@[0] == 'R');
    assert("R1"@[1] == '1');
    assert("R2"@.len() == 2);
    assert("R2"@[0] == 'R');
    assert("R2"@[1] == '2');
    assert("R3"@.len() == 2);
    assert("R3"@[0] == 'R');
    assert("R3"@[1] == '3');
    assert("R4"@.len() == 2);
    assert("R4"@[0] == 'R');
    assert("R4"@[1] == '4');
    assert("R5"@.len() == 2);
    assert("R5"@[0] == 'R');
    assert("R5"@[1] == '5');
    assert("R6"@.len() == 2);
    assert("R6"@[0] == 'R');
    assert("R6"@[1] == '6');
    assert("R7"@.len() == 2);
    assert("R7"@[0] == 'R');
    assert("R7"@[1] == '7');
    assert("R8"@.len() == 2);
    assert("R8"@[0] == 'R');
    assert("R8"@[1] == '8');
    assert("R9"@.len() == 2);
    assert("R9"@[0] == 'R');
    assert("R9"@[1] == '9');
    assert("R10"@.len() == 3);
    assert("R10"@[0] == 'R');
    assert("R10"@[1] == '1');
    assert("R10"@[2] == '0');
    assert("R11"@.len() == 3);
    assert("R11"@[0] == 'R');
    assert("R11"@[1] == '1');
    assert("R11"@[2] == '1');
    assert("R12"@.len() == 3);
    assert("R12"@[0] == 'R');
    assert("R12"@[1] == '1');
    assert("R12"@[2] == '2');
    assert("R13"@.len() == 3);
    assert("R13"@[0] == 'R');
    assert("R13"@[1] == '1');
    assert("R13"@[2] == '3');
    assert("R14"@.len() == 3);
    assert("R14"@[0] == 'R');
    assert("R14"@[1] == '1');
    assert("R14"@[2] == '4');
    assert("R15"@.len() == 3);
    assert("R15"@[0] == 'R');
    assert("R15"@[1] == '1');
    assert("R15"@[2] == '5');
    assert("SP"@.len() == 2);
    assert("SP"@[0] == 'S');
    assert("SP"@[1] == 'P');
    assert("LCL"@.len() == 3);
    assert("LCL"@[0] == 'L');
    assert("LCL"@[1] == 'C');
    assert("LCL"@[2] == 'L');
    assert("ARG"@.len() == 3);
    assert("ARG"@[0] == 'A');
    assert("ARG"@[1] == 'R');
    assert("ARG"@[2] == 'G');
    assert("THIS"@.len() == 4);
    assert("THIS"@[0] == 'T');
    assert("THIS"@[1] == 'H');
    assert("THIS"@[2] == 'I');
    assert("THIS"@[3] == 'S');
    assert("THAT"@.len() == 4);
    assert("THAT"@[0] == 'T');
    assert("THAT"@[1] == 'H');
    assert("THAT"@[2] == 'A');
    assert("THAT"@[3] == 'T');
    assert("SCREEN"@.len() == 6);
    assert("SCREEN"@[0] == 'S');
    assert("SCREEN"@[1] == 'C');
    assert("SCREEN"@[2] == 'R');
    assert("SCREEN"@[3] == 'E');
    assert("SCREEN"@[4] == 'E');
    assert("SCREEN"@[5] == 'N');
    assert("KBD"@.len() == 3);
    assert("KBD"@[0] == 'K');
    assert("KBD"@[1] == 'B');
    assert("KBD"@[2] == 'D');
}

/// Whether a raw line is a compute instruction: non-blank after trimming
/// and opened by none of `/`, `(`, `@`.
pub open spec fn is_compute_line(raw: Seq<char>) -> bool {
    let line = trim_leading(raw);
    line.len() > 0 && line[0] != '/' && line[0] != '(' && line[0] != '@'
}

/// Folding the first pass over all lines equals folding it over the first
/// `k` lines and then going on from position `k`.
proof fn lemma_first_pass_split(lines: Seq<Seq<char>>, k: int, i: int, st: PassState)
    requires
        0 <= i <= k <= lines.len(),
    ensures
        first_pass_from(lines, i, st) == match first_pass_from(lines.take(k), i, st) {
            Ok(mid) => first_pass_from(lines, k, mid),
            Err(e) => Err(e),
        },
    decreases k - i,
{
    if i < k {
        assert(lines.take(k)[i] == lines[i]);
        match first_pass_step(st, lines[i]) {
            Ok(next) => {
                lemma_first_pass_split(lines, k, i + 1, next);
            },
            Err(e) => {},
        }
    }
}

/// An unrecognized mnemonic aborts the whole translation: if the first
/// `k` lines translate fine and line `k` is a compute instruction with a
/// mnemonic outside its table, the translation of the whole unit is that
/// error — no output is produced.
pub proof fn lemma_unknown_mnemonic_aborts(lines: Seq<Seq<char>>, k: int, mid: PassState)
    requires
        0 <= k < lines.len(),
        first_pass_from(lines.take(k), 0, init_pass()) == Ok::<PassState, ErrModel>(mid),
        is_compute_line(lines[k]),
        c_encoding(trim_leading(lines[k])) is Err,
    ensures
        assemble_spec(lines) == Err::<Seq<Seq<char>>, ErrModel>(
            c_encoding(trim_leading(lines[k]))->Err_0,
        ),
{
    lemma_first_pass_split(lines, k, 0, init_pass());
    let e = c_encoding(trim_leading(lines[k]))->Err_0;
    assert(first_pass_step(mid, lines[k]) == Err::<PassState, ErrModel>(e));
    assert(first_pass_from(lines, k, mid) == Err::<PassState, ErrModel>(e));
}

/// Whether a raw line is a label definition: `(` after trimming.
pub open spec fn is_label_line(raw: Seq<char>) -> bool {
    let line = trim_leading(raw);
    line.len() > 0 && line[0] == '('
}

/// The name a label-definition line binds.
pub open spec fn label_name(raw: Seq<char>) -> Seq<char> {
    label_of(trim_leading(raw))
}

/// Whether a raw line emits an instruction word: non-blank after trimming
/// and neither a comment nor a label definition.
pub open spec fn is_instr_line(raw: Seq<char>) -> bool {
    let line = trim_leading(raw);
    line.len() > 0 && line[0] != '/' && line[0] != '('
}

/// How many instruction words the given lines emit.
pub open spec fn instr_count(lines: Seq<Seq<char>>) -> nat
    decreases lines.len(),
{
    if lines.len() == 0 {
        0
    } else {
        instr_count(lines.drop_last()) + if is_instr_line(lines.last()) {
            1nat
        } else {
            0nat
        }
    }
}

proof fn lemma_instr_count_front(lines: Seq<Seq<char>>)
    requires
        lines.len() > 0,
    ensures
        instr_count(lines) == (if is_instr_line(lines[0]) {
            1nat
        } else {
            0nat
        }) + instr_count(lines.drop_first()),
    decreases lines.len(),
{
    if lines.len() == 1 {
        assert(lines.drop_last() =~= Seq::<Seq<char>>::empty());
        assert(lines.drop_first() =~= Seq::<Seq<char>>::empty());
    } else {
        lemma_instr_count_front(lines.drop_last());
        assert(lines.drop_last()[0] == lines[0]);
        assert(lines.drop_first().drop_last() =~= lines.drop_last().drop_first());
        assert(lines.drop_first().last() == lines.last());
    }
}

/// A binding that no later label line rebinds survives the rest of the
/// first pass unchanged.
proof fn lemma_first_pass_keeps(lines: Seq<Seq<char>>, i: int, st: PassState, name: Seq<char>)
    requires
        0 <= i <= lines.len(),
        first_pass_from(lines, i, st) is Ok,
        st.table.contains_key(name),
        forall|m: int|
            i <= m < lines.len() && is_label_line(#[trigger] lines[m]) ==> label_name(lines[m])
                != name,
    ensures
        first_pass_from(lines, i, st)->Ok_0.table.contains_key(name),
        first_pass_from(lines, i, st)->Ok_0.table[name] == st.table[name],
    decreases lines.len() - i,
{
    if i < lines.len() {
        let next = first_pass_step(st, lines[i])->Ok_0;
        assert(next.table.contains_key(name) && next.table[name] == st.table[name]) by {
            if is_label_line(lines[i]) {
                assert(label_name(lines[i]) != name);
            }
        }
        lemma_first_pass_keeps(lines, i + 1, next, name);
    }
}

/// From position `i` on, the label at line `k` ends up bound to the
/// number of instruction words emitted before it.
proof fn lemma_first_pass_label(lines: Seq<Seq<char>>, i: int, st: PassState, k: int)
    requires
        0 <= i <= k < lines.len(),
        is_label_line(lines[k]),
        forall|m: int|
            k < m < lines.len() && is_label_line(#[trigger] lines[m]) ==> label_name(lines[m])
                != label_name(lines[k]),
        first_pass_from(lines, i, st) is Ok,
        st.code.len() + (k - i) <= usize::MAX,
    ensures
        first_pass_from(lines, i, st)->Ok_0.table.contains_key(label_name(lines[k])),
        first_pass_from(lines, i, st)->Ok_0.table[label_name(lines[k])] as nat == st.code.len()
            + instr_count(lines.subrange(i, k)),
    decreases k - i,
{
    let next = first_pass_step(st, lines[i])->Ok_0;
    if i == k {
        assert(lines.subrange(k, k) =~= Seq::<Seq<char>>::empty());
        assert(next.table[label_name(lines[k])] == st.code.len() as usize);
        lemma_first_pass_keeps(lines, i + 1, next, label_name(lines[k]));
    } else {
        lemma_instr_count_front(lines.subrange(i, k));
        assert(lines.subrange(i, k)[0] == lines[i]);
        assert(lines.subrange(i, k).drop_first() =~= lines.subrange(i + 1, k));
        assert(next.code.len() == st.code.len() + if is_instr_line(lines[i]) {
            1nat
        } else {
            0nat
        });
        lemma_first_pass_label(lines, i + 1, next, k);
    }
}

/// The deferred resolver never rebinds a name that is already bound: it
/// binds a name only when resolution failed, and resolution cannot fail
/// on a bound name.
proof fn lemma_second_pass_keeps(
    pending: Seq<(usize, Seq<char>)>,
    i: int,
    table: Map<Seq<char>, usize>,
    code: Seq<Seq<char>>,
    next_var: int,
    name: Seq<char>,
)
    requires
        0 <= i <= pending.len(),
        table.contains_key(name),
    ensures
        second_pass_from(pending, i, table, code, next_var).0.contains_key(name),
        second_pass_from(pending, i, table, code, next_var).0[name] == table[name],
    decreases pending.len() - i,
{
    if i < pending.len() {
        let text = pending[i].1;
        let idx = pending[i].0;
        match a_encoding(text, table) {
            Some(word) => {
                lemma_second_pass_keeps(
                    pending,
                    i + 1,
                    table,
                    code.update(idx as int, word),
                    next_var,
                    name,
                );
            },
            None => {
                assert(strip_at(text) != name);
                lemma_second_pass_keeps(
                    pending,
                    i + 1,
                    table.insert(strip_at(text), next_var as usize),
                    code.update(idx as int, crate::binary::encode16(next_var as nat)),
                    next_var + 1,
                    name,
                );
            },
        }
    }
}

/// A label is bound to the count of address and compute instructions
/// strictly preceding its definition line — the address the next real
/// instruction will occupy — and keeps that address through the second
/// pass, provided no later label line rebinds the same name.
pub proof fn lemma_label_address(lines: Seq<Seq<char>>, k: int)
    requires
        0 <= k < lines.len(),
        lines.len() <= usize::MAX,
        is_label_line(lines[k]),
        forall|m: int|
            k < m < lines.len() && is_label_line(#[trigger] lines[m]) ==> label_name(lines[m])
                != label_name(lines[k]),
        first_pass_from(lines, 0, init_pass()) is Ok,
    ensures
        ({
            let fin = first_pass_from(lines, 0, init_pass())->Ok_0;
            let name = label_name(lines[k]);
            let resolved = second_pass_from(fin.pending, 0, fin.table, fin.code, 16).0;
            &&& fin.table.contains_key(name)
            &&& fin.table[name] as nat == instr_count(lines.take(k))
            &&& resolved.contains_key(name)
            &&& resolved[name] == fin.table[name]
        }),
{
    lemma_first_pass_label(lines, 0, init_pass(), k);
    assert(lines.subrange(0, k) =~= lines.take(k));
    let fin = first_pass_from(lines, 0, init_pass())->Ok_0;
    lemma_second_pass_keeps(fin.pending, 0, fin.table, fin.code, 16, label_name(lines[k]));
}


/// The variable names the deferred resolver will newly allocate, in
/// first-use order: the stripped text of each record that is neither a
/// numeric literal nor a name already known, each name counted only at
/// its first occurrence.
pub open spec fn new_variables(pending: Seq<(usize, Seq<char>)>, known: Set<Seq<char>>) -> Seq<
    Seq<char>,
>
    decreases pending.len(),
{
    if pending.len() == 0 {
        Seq::empty()
    } else {
        let name = strip_at(pending[0].1);
        if !parses_as_u16(name) && !known.contains(name) {
            seq![name] + new_variables(pending.drop_first(), known.insert(name))
        } else {
            new_variables(pending.drop_first(), known)
        }
    }
}

proof fn lemma_new_variables_not_known(
    pending: Seq<(usize, Seq<char>)>,
    known: Set<Seq<char>>,
    j: int,
)
    requires
        0 <= j < new_variables(pending, known).len(),
    ensures
        !known.contains(new_variables(pending, known)[j]),
    decreases pending.len(),
{
    if pending.len() > 0 {
        let name = strip_at(pending[0].1);
        if !parses_as_u16(name) && !known.contains(name) {
            if j > 0 {
                lemma_new_variables_not_known(pending.drop_first(), known.insert(name), j - 1);
            }
        } else {
            lemma_new_variables_not_known(pending.drop_first(), known, j);
        }
    }
}

/// Each variable name is allocated at most once: the first-use list holds
/// no name twice, so re-encountering an allocated variable never advances
/// the address counter.
pub proof fn lemma_new_variables_distinct(
    pending: Seq<(usize, Seq<char>)>,
    known: Set<Seq<char>>,
    p: int,
    q: int,
)
    requires
        0 <= p < q < new_variables(pending, known).len(),
    ensures
        new_variables(pending, known)[p] != new_variables(pending, known)[q],
    decreases pending.len(),
{
    let name = strip_at(pending[0].1);
    if !parses_as_u16(name) && !known.contains(name) {
        if p == 0 {
            lemma_new_variables_not_known(pending.drop_first(), known.insert(name), q - 1);
        } else {
            lemma_new_variables_distinct(pending.drop_first(), known.insert(name), p - 1, q - 1);
        }
    } else {
        lemma_new_variables_distinct(pending.drop_first(), known, p, q);
    }
}

proof fn lemma_second_pass_vars(
    pending: Seq<(usize, Seq<char>)>,
    i: int,
    table: Map<Seq<char>, usize>,
    code: Seq<Seq<char>>,
    next_var: int,
    n: int,
)
    requires
        0 <= i <= pending.len(),
        0 <= n < new_variables(pending.skip(i), table.dom()).len(),
        0 <= next_var,
        next_var + (pending.len() - i) <= usize::MAX,
    ensures
        ({
            let vars = new_variables(pending.skip(i), table.dom());
            let fin = second_pass_from(pending, i, table, code, next_var);
            fin.0.contains_key(vars[n]) && fin.0[vars[n]] == (next_var + n) as usize
        }),
    decreases pending.len() - i,
{
    let vars = new_variables(pending.skip(i), table.dom());
    if i == pending.len() {
        assert(pending.skip(i).len() == 0);
    } else {
        assert(pending.skip(i)[0] == pending[i]);
        assert(pending.skip(i).drop_first() =~= pending.skip(i + 1));
        let text = pending[i].1;
        let idx = pending[i].0;
        let name = strip_at(text);
        match a_encoding(text, table) {
            Some(word) => {
                assert(vars == new_variables(pending.skip(i + 1), table.dom()));
                lemma_second_pass_vars(
                    pending,
                    i + 1,
                    table,
                    code.update(idx as int, word),
                    next_var,
                    n,
                );
            },
            None => {
                let table2 = table.insert(name, next_var as usize);
                let code2 = code.update(idx as int, crate::binary::encode16(next_var as nat));
                assert(table2.dom() =~= table.dom().insert(name));
                assert(vars == seq![name] + new_variables(pending.skip(i + 1), table2.dom()));
                if n == 0 {
                    assert(vars[0] == name);
                    lemma_second_pass_keeps(pending, i + 1, table2, code2, next_var + 1, name);
                } else {
                    assert(vars[n] == new_variables(pending.skip(i + 1), table2.dom())[n - 1]);
                    lemma_second_pass_vars(pending, i + 1, table2, code2, next_var + 1, n - 1);
                }
            },
        }
    }
}

/// The nth distinct variable name, in left-to-right first-use order over
/// the pending records, is bound to address `16 + n`, counting `n` from
/// zero; references to an already-allocated name resolve through the
/// ordinary lookup and allocate nothing.
pub proof fn lemma_variable_addresses(
    pending: Seq<(usize, Seq<char>)>,
    table: Map<Seq<char>, usize>,
    code: Seq<Seq<char>>,
    n: int,
)
    requires
        pending.len() + 16 <= usize::MAX,
        0 <= n < new_variables(pending, table.dom()).len(),
    ensures
        ({
            let vars = new_variables(pending, table.dom());
            let resolved = second_pass_from(pending, 0, table, code, 16);
            resolved.0.contains_key(vars[n]) && resolved.0[vars[n]] == (16 + n) as usize
        }),
{
    assert(pending.skip(0) =~= pending);
    lemma_second_pass_vars(pending, 0, table, code, 16, n);
}


/// A recognized computation code is seven bits wide.
proof fn lemma_comp_code_len(s: Seq<char>)
    requires
        comp_code(s) is Some,
    ensures
        comp_code(s)->Some_0.len() == 7,
{
}

/// A mnemonic inside any of the three tables is non-empty and holds
/// neither `=` nor `;`.
proof fn lemma_table_mnemonic_chars(s: Seq<char>)
    requires
        dest_code(s) is Some || comp_code(s) is Some || jump_code(s) is Some,
    ensures
        s.len() > 0,
        forall|m: int| 0 <= m < s.len() ==> s[m] != '=' && s[m] != ';',
{
}

/// Scanning a run of ordinary characters, none of them the line's last,
/// only extends the accumulation buffer.
proof fn lemma_scan_plain(line: Seq<char>, i: int, j: int, st: ScanState)
    requires
        0 <= i <= j < line.len(),
        forall|m: int| i <= m < j ==> line[m] != '=' && line[m] != ';',
    ensures
        scan_from(line, i, st) == scan_from(
            line,
            j,
            ScanState { acc: st.acc + line.subrange(i, j), dest: st.dest, comp: st.comp, jump: st.jump },
        ),
    decreases j - i,
{
    if i == j {
        assert(ScanState {
            acc: st.acc + line.subrange(i, j),
            dest: st.dest,
            comp: st.comp,
            jump: st.jump,
        } =~= st);
    } else {
        let next = ScanState {
            acc: st.acc.push(line[i]),
            dest: st.dest,
            comp: st.comp,
            jump: st.jump,
        };
        assert(scan_step(st, line[i], i == line.len() - 1) == Ok::<ScanState, ErrModel>(next));
        lemma_scan_plain(line, i + 1, j, next);
        assert(st.acc.push(line[i]) + line.subrange(i + 1, j) =~= st.acc + line.subrange(i, j));
    }
}

/// The line a recognized combination of fields writes: `dest=`, then
/// `comp`, then `;jump`, with the optional parts present or absent.
pub open spec fn compute_line_of(dest: Option<Seq<char>>, comp: Seq<char>, jump: Option<Seq<char>>) -> Seq<char> {
    (match dest {
        Some(d) => d + seq!['='],
        None => Seq::empty(),
    }) + comp + (match jump {
        Some(j) => seq![';'] + j,
        None => Seq::empty(),
    })
}

/// Every recognized `dest=comp;jump` combination encodes exactly by the
/// three field tables: the all-ones opcode prefix, then the computation,
/// destination and jump codes, an absent destination or jump contributing
/// its all-zero default.
#[verifier::rlimit(100)]
#[verifier::spinoff_prover]
pub proof fn lemma_c_encoding_follows_tables(
    dest: Option<Seq<char>>,
    comp: Seq<char>,
    jump: Option<Seq<char>>,
)
    requires
        dest is Some ==> dest_code(dest->0) is Some,
        comp_code(comp) is Some,
        jump is Some ==> jump_code(jump->0) is Some,
    ensures
        ({
            let dcode = match dest {
                Some(d) => dest_code(d)->Some_0,
                None => seq!['0', '0', '0'],
            };
            let jcode = match jump {
                Some(j) => jump_code(j)->Some_0,
                None => seq!['0', '0', '0'],
            };
            c_encoding(compute_line_of(dest, comp, jump)) == Ok::<Seq<char>, ErrModel>(
                seq!['1', '1', '1'] + comp_code(comp)->Some_0 + dcode + jcode,
            )
        }),
{
    let line = compute_line_of(dest, comp, jump);
    let cl = comp.len() as int;
    let cc = comp_code(comp)->Some_0;
    lemma_table_mnemonic_chars(comp);

    // Position of comp's first character, and the state on reaching it:
    // destination already closed (or defaulted), buffer empty.
    let p: int = match dest {
        Some(d) => d.len() + 1int,
        None => 0,
    };
    let dcode = match dest {
        Some(d) => dest_code(d)->Some_0,
        None => seq!['0', '0', '0'],
    };
    let st_comp = ScanState {
        acc: Seq::empty(),
        dest: dcode,
        comp: Seq::empty(),
        jump: seq!['0', '0', '0'],
    };
    match dest {
        Some(d) => {
            let dl = d.len() as int;
            lemma_table_mnemonic_chars(d);
            assert(line.subrange(0, dl) =~= d);
            assert forall|m: int| 0 <= m < dl implies line[m] != '=' && line[m] != ';' by {
                assert(line[m] == d[m]);
            }
            assert(line[dl] == '=');
            assert(dl < line.len() - 1);
            lemma_scan_plain(line, 0, dl, init_scan());
            let st1 = ScanState {
                acc: Seq::<char>::empty() + line.subrange(0, dl),
                dest: seq!['0', '0', '0'],
                comp: Seq::empty(),
                jump: seq!['0', '0', '0'],
            };
            assert(st1.acc =~= d);
            let st2 = ScanState {
                acc: Seq::empty(),
                dest: dest_code(d)->Some_0,
                comp: Seq::empty(),
                jump: seq!['0', '0', '0'],
            };
            assert(scan_step(st1, '=', false) == Ok::<ScanState, ErrModel>(st2));
            assert(scan_from(line, dl, st1) == scan_from(line, dl + 1, st2));
            assert(st2 == st_comp);
            assert(scan_from(line, 0, init_scan()) == scan_from(line, p, st_comp));
        },
        None => {
            assert(scan_from(line, 0, init_scan()) == scan_from(line, p, st_comp));
        },
    }
    assert(line.subrange(p, p + cl) =~= comp);
    assert forall|m: int| p <= m < p + cl implies line[m] != '=' && line[m] != ';' by {
        assert(line[m] == comp[m - p]);
    }

    match jump {
        Some(j) => {
            let jl = j.len() as int;
            lemma_table_mnemonic_chars(j);
            assert(line.len() == p + cl + 1 + jl);
            assert(line[p + cl] == ';');
            assert forall|m: int| p + cl + 1 <= m < line.len() implies line[m] != '='
                && line[m] != ';' by {
                assert(line[m] == j[m - (p + cl + 1)]);
            }
            lemma_scan_plain(line, p, p + cl, st_comp);
            let st3 = ScanState {
                acc: Seq::<char>::empty() + line.subrange(p, p + cl),
                dest: dcode,
                comp: Seq::empty(),
                jump: seq!['0', '0', '0'],
            };
            assert(st3.acc =~= comp);
            let st4 = ScanState {
                acc: Seq::empty(),
                dest: dcode,
                comp: Seq::<char>::empty() + cc,
                jump: seq!['0', '0', '0'],
            };
            assert(scan_step(st3, ';', p + cl == line.len() - 1) == Ok::<ScanState, ErrModel>(
                st4,
            ));
            assert(scan_from(line, p + cl, st3) == scan_from(line, p + cl + 1, st4));
            lemma_scan_plain(line, p + cl + 1, line.len() - 1, st4);
            let st5 = ScanState {
                acc: st4.acc + line.subrange(p + cl + 1, line.len() - 1),
                dest: dcode,
                comp: st4.comp,
                jump: seq!['0', '0', '0'],
            };
            let last = line[line.len() - 1];
            assert(last == j[jl - 1]);
            assert(last != '=' && last != ';');
            assert(st5.acc.push(last) =~= j);
            assert(st4.comp.len() == cc.len());
            lemma_comp_code_len(comp);
            let st6 = ScanState {
                acc: st5.acc.push(last),
                dest: dcode,
                comp: st4.comp,
                jump: jump_code(j)->Some_0,
            };
            assert(scan_step(st5, last, true) == Ok::<ScanState, ErrModel>(st6));
            assert(scan_from(line, line.len() - 1, st5) == scan_from(line, line.len() as int, st6));
            assert(scan_from(line, line.len() as int, st6) == Ok::<ScanState, ErrModel>(st6));
            assert(seq!['1', '1', '1'] + st6.comp + st6.dest + st6.jump =~= seq!['1', '1', '1']
                + cc + dcode + jump_code(j)->Some_0);
        },
        None => {
            assert(line.len() == p + cl);
            lemma_scan_plain(line, p, line.len() - 1, st_comp);
            let st3 = ScanState {
                acc: Seq::<char>::empty() + line.subrange(p, line.len() - 1),
                dest: dcode,
                comp: Seq::empty(),
                jump: seq!['0', '0', '0'],
            };
            let last = line[line.len() - 1];
            assert(last == comp[cl - 1]);
            assert(last != '=' && last != ';');
            assert(st3.acc.push(last) =~= comp);
            let st6 = ScanState {
                acc: st3.acc.push(last),
                dest: dcode,
                comp: Seq::<char>::empty() + cc,
                jump: seq!['0', '0', '0'],
            };
            assert(scan_step(st3, last, true) == Ok::<ScanState, ErrModel>(st6));
            assert(scan_from(line, line.len() - 1, st3) == scan_from(line, line.len() as int, st6));
            assert(scan_from(line, line.len() as int, st6) == Ok::<ScanState, ErrModel>(st6));
            assert(seq!['1', '1', '1'] + st6.comp + st6.dest + st6.jump =~= seq!['1', '1', '1']
                + cc + dcode + seq!['0', '0', '0']);
        },
    }
}

} // verus!
