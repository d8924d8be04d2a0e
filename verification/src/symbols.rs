//! The pre-seeded symbol table.
//!
//! Sixteen general-purpose register symbols at addresses 0 through 15,
//! five architectural pointer symbols at 0 through 4, and the two
//! memory-mapped I/O base symbols: the bitmap display region and the
//! keyboard register.  Labels and variables are bound into the same table
//! later; a rebinding silently overwrites.

use vstd::prelude::*;

use vstd::hash_map::StringHashMap;

verus! {

/// The fixed pre-seeded bindings, available without declaration.
pub open spec fn predefined_symbols() -> Map<Seq<char>, usize> {
    Map::<Seq<char>, usize>::empty().insert("R0"@, 0).insert("R1"@, 1).insert("R2"@, 2).insert(
        "R3"@,
        3,
    ).insert("R4"@, 4).insert("R5"@, 5).insert("R6"@, 6).insert("R7"@, 7).insert("R8"@, 8).insert(
        "R9"@,
        9,
    ).insert("R10"@, 10).insert("R11"@, 11).insert("R12"@, 12).insert("R13"@, 13).insert(
        "R14"@,
        14,
    ).insert("R15"@, 15).insert("SP"@, 0).insert("LCL"@, 1).insert("ARG"@, 2).insert(
        "THIS"@,
        3,
    ).insert("THAT"@, 4).insert("SCREEN"@, 16384).insert("KBD"@, 24576)
}

/// Builds the table holding exactly the pre-seeded bindings of
/// `predefined_symbols`.
pub fn build_symbol_table() -> (table: StringHashMap<usize>)
    ensures
        table@ == predefined_symbols(),
{
    let mut table = StringHashMap::<usize>::new();
    table.insert(String::from_str("R0"), 0);
    table.insert(String::from_str("R1"), 1);
    table.insert(String::from_str("R2"), 2);
    table.insert(String::from_str("R3"), 3);
    table.insert(String::from_str("R4"), 4);
    table.insert(String::from_str("R5"), 5);
    table.insert(String::from_str("R6"), 6);
    table.insert(String::from_str("R7"), 7);
    table.insert(String::from_str("R8"), 8);
    table.insert(String::from_str("R9"), 9);
    table.insert(String::from_str("R10"), 10);
    table.insert(String::from_str("R11"), 11);
    table.insert(String::from_str("R12"), 12);
    table.insert(String::from_str("R13"), 13);
    table.insert(String::from_str("R14"), 14);
    table.insert(String::from_str("R15"), 15);
    table.insert(String::from_str("SP"), 0);
    table.insert(String::from_str("LCL"), 1);
    table.insert(String::from_str("ARG"), 2);
    table.insert(String::from_str("THIS"), 3);
    table.insert(String::from_str("THAT"), 4);
    table.insert(String::from_str("SCREEN"), 16384);
    table.insert(String::from_str("KBD"), 24576);
    proof {
        assert(table@ =~= predefined_symbols());
    }
    table
}

} // verus!
