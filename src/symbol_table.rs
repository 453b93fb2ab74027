use vstd::prelude::*;
use crate::error::TranslationError;

verus! {

/// The names that every table holds from the start, with their addresses.
pub open spec fn reserved_symbols() -> Map<Seq<char>, i32> {
    map![
        "SP"@ => 0i32, "LCL"@ => 1i32, "ARG"@ => 2i32, "THIS"@ => 3i32, "THAT"@ => 4i32,
        "R0"@ => 0i32, "R1"@ => 1i32, "R2"@ => 2i32, "R3"@ => 3i32, "R4"@ => 4i32,
        "R5"@ => 5i32, "R6"@ => 6i32, "R7"@ => 7i32, "R8"@ => 8i32, "R9"@ => 9i32,
        "R10"@ => 10i32, "R11"@ => 11i32, "R12"@ => 12i32, "R13"@ => 13i32,
        "R14"@ => 14i32, "R15"@ => 15i32, "SCREEN"@ => 16384i32, "KBD"@ => 24576i32
    ]
}

/// The mapping that a list of entries stands for: a later entry for a name
/// replaces an earlier one.
pub open spec fn entries_map(s: Seq<(String, i32)>) -> Map<Seq<char>, i32>
    decreases s.len(),
{
    if s.len() == 0 {
        Map::empty()
    } else {
        entries_map(s.drop_last()).insert(s.last().0@, s.last().1)
    }
}

/// What looking `name` up in `m` gives.
pub open spec fn lookup(m: Map<Seq<char>, i32>, name: Seq<char>) -> Result<i32, TranslationError> {
    if m.contains_key(name) {
        Ok(m[name])
    } else {
        Err(TranslationError::UnknownSymbol)
    }
}

proof fn lemma_entries_map_absent(s: Seq<(String, i32)>, k: Seq<char>)
    requires
        forall|j: int| 0 <= j < s.len() ==> (#[trigger] s[j]).0@ != k,
    ensures
        !entries_map(s).contains_key(k),
    decreases s.len(),
{
    if s.len() > 0 {
        lemma_entries_map_absent(s.drop_last(), k);
    }
}

proof fn lemma_entries_map_last(s: Seq<(String, i32)>, k: Seq<char>, i: int)
    requires
        0 <= i < s.len(),
        s[i].0@ == k,
        forall|j: int| i < j < s.len() ==> (#[trigger] s[j]).0@ != k,
    ensures
        entries_map(s).contains_key(k),
        entries_map(s)[k] == s[i].1,
    decreases s.len(),
{
    if i < s.len() - 1 {
        lemma_entries_map_last(s.drop_last(), k, i);
    }
}

proof fn lemma_entries_map_update(s: Seq<(String, i32)>, i: int, e: (String, i32))
    requires
        0 <= i < s.len(),
        s[i].0@ == e.0@,
        forall|j: int| i < j < s.len() ==> (#[trigger] s[j]).0@ != e.0@,
    ensures
        entries_map(s.update(i, e)) == entries_map(s).insert(e.0@, e.1),
    decreases s.len(),
{
    let t = s.update(i, e);
    if i == s.len() - 1 {
        assert(t.drop_last() =~= s.drop_last());
        assert(entries_map(t) =~= entries_map(s).insert(e.0@, e.1));
    } else {
        assert(t.drop_last() =~= s.drop_last().update(i, e));
        lemma_entries_map_update(s.drop_last(), i, e);
        assert(s.last().0@ != e.0@);
        assert(entries_map(t) =~= entries_map(s).insert(e.0@, e.1));
    }
}

/// A mapping from symbol names to addresses.
pub struct SymbolTable {
    entries: Vec<(String, i32)>,
}

impl View for SymbolTable {
    type V = Map<Seq<char>, i32>;

    closed spec fn view(&self) -> Map<Seq<char>, i32> {
        entries_map(self.entries@)
    }
}

impl SymbolTable {
    /// The position of the last entry for `name`, if there is one.
    fn find(&self, name: &String) -> (r: Option<usize>)
        ensures
            match r {
                Some(i) => i < self.entries.len() && self.entries[i as int].0@ == name@ && forall|
                    j: int,
                | i < j < self.entries.len() ==> (#[trigger] self.entries[j]).0@ != name@,
                None => forall|j: int|
                    0 <= j < self.entries.len() ==> (#[trigger] self.entries[j]).0@ != name@,
            },
    {
        let mut i = self.entries.len();
        while i > 0
            invariant
                i <= self.entries.len(),
                forall|j: int| i <= j < self.entries.len() ==> (#[trigger] self.entries[j]).0@ != name@,
            decreases i,
        {
            if self.entries[i - 1].0 == *name {
                return Some(i - 1);
            }
            i = i - 1;
        }
        None
    }

    /// Maps `symbol` to `address`, replacing what it was mapped to before.
    pub fn add_entry(&mut self, symbol: String, address: i32)
        ensures
            final(self)@ == old(self)@.insert(symbol@, address),
    {
        match self.find(&symbol) {
            Some(i) => {
                proof {
                    lemma_entries_map_update(self.entries@, i as int, (symbol, address));
                }
                self.entries.set(i, (symbol, address));
            },
            None => {
                let ghost before = self.entries@;
                self.entries.push((symbol, address));
                assert(self.entries@.drop_last() =~= before);
            },
        }
    }

    /// Whether `symbol` is mapped.
    pub fn contains(&self, symbol: &str) -> (r: bool)
        ensures
            r == self@.contains_key(symbol@),
    {
        let name = symbol.to_owned();
        match self.find(&name) {
            Some(i) => {
                proof {
                    lemma_entries_map_last(self.entries@, name@, i as int);
                }
                true
            },
            None => {
                proof {
                    lemma_entries_map_absent(self.entries@, name@);
                }
                false
            },
        }
    }

    /// The address that `symbol` is mapped to.
    pub fn get_address(&self, symbol: &str) -> (r: Result<i32, TranslationError>)
        ensures
            r == lookup(self@, symbol@),
    {
        let name = symbol.to_owned();
        match self.find(&name) {
            Some(i) => {
                proof {
                    lemma_entries_map_last(self.entries@, name@, i as int);
                }
                Ok(self.entries[i].1)
            },
            None => {
                proof {
                    lemma_entries_map_absent(self.entries@, name@);
                }
                Err(TranslationError::UnknownSymbol)
            },
        }
    }

    /// A table that holds the reserved names and nothing else.
    pub fn new() -> (t: SymbolTable)
        ensures
            t@ == reserved_symbols(),
    {
        let mut t = SymbolTable { entries: Vec::new() };
        assert(t@ =~= Map::empty());
        t.add_entry("SP".to_owned(), 0);
        t.add_entry("LCL".to_owned(), 1);
        t.add_entry("ARG".to_owned(), 2);
        t.add_entry("THIS".to_owned(), 3);
        t.add_entry("THAT".to_owned(), 4);
        t.add_entry("R0".to_owned(), 0);
        t.add_entry("R1".to_owned(), 1);
        t.add_entry("R2".to_owned(), 2);
        t.add_entry("R3".to_owned(), 3);
        t.add_entry("R4".to_owned(), 4);
        t.add_entry("R5".to_owned(), 5);
        t.add_entry("R6".to_owned(), 6);
        t.add_entry("R7".to_owned(), 7);
        t.add_entry("R8".to_owned(), 8);
        t.add_entry("R9".to_owned(), 9);
        t.add_entry("R10".to_owned(), 10);
        t.add_entry("R11".to_owned(), 11);
        t.add_entry("R12".to_owned(), 12);
        t.add_entry("R13".to_owned(), 13);
        t.add_entry("R14".to_owned(), 14);
        t.add_entry("R15".to_owned(), 15);
        t.add_entry("SCREEN".to_owned(), 16384);
        t.add_entry("KBD".to_owned(), 24576);
        t
    }
}

/// A fresh table holds every reserved name at its fixed address.
pub proof fn reserved_names_resolve(name: Seq<char>)
    requires
        reserved_symbols().contains_key(name),
    ensures
        lookup(reserved_symbols(), name) == Ok::<i32, TranslationError>(reserved_symbols()[name]),
{
}

/// The reserved addresses of a fresh table, name by name.
pub proof fn reserved_addresses()
    ensures
        lookup(reserved_symbols(), "SP"@) == Ok::<i32, TranslationError>(0),
        lookup(reserved_symbols(), "LCL"@) == Ok::<i32, TranslationError>(1),
        lookup(reserved_symbols(), "ARG"@) == Ok::<i32, TranslationError>(2),
        lookup(reserved_symbols(), "THIS"@) == Ok::<i32, TranslationError>(3),
        lookup(reserved_symbols(), "THAT"@) == Ok::<i32, TranslationError>(4),
        lookup(reserved_symbols(), "R0"@) == Ok::<i32, TranslationError>(0),
        lookup(reserved_symbols(), "R1"@) == Ok::<i32, TranslationError>(1),
        lookup(reserved_symbols(), "R2"@) == Ok::<i32, TranslationError>(2),
        lookup(reserved_symbols(), "R3"@) == Ok::<i32, TranslationError>(3),
        lookup(reserved_symbols(), "R4"@) == Ok::<i32, TranslationError>(4),
        lookup(reserved_symbols(), "R5"@) == Ok::<i32, TranslationError>(5),
        lookup(reserved_symbols(), "R6"@) == Ok::<i32, TranslationError>(6),
        lookup(reserved_symbols(), "R7"@) == Ok::<i32, TranslationError>(7),
        lookup(reserved_symbols(), "R8"@) == Ok::<i32, TranslationError>(8),
        lookup(reserved_symbols(), "R9"@) == Ok::<i32, TranslationError>(9),
        lookup(reserved_symbols(), "R10"@) == Ok::<i32, TranslationError>(10),
        lookup(reserved_symbols(), "R11"@) == Ok::<i32, TranslationError>(11),
        lookup(reserved_symbols(), "R12"@) == Ok::<i32, TranslationError>(12),
        lookup(reserved_symbols(), "R13"@) == Ok::<i32, TranslationError>(13),
        lookup(reserved_symbols(), "R14"@) == Ok::<i32, TranslationError>(14),
        lookup(reserved_symbols(), "R15"@) == Ok::<i32, TranslationError>(15),
        lookup(reserved_symbols(), "SCREEN"@) == Ok::<i32, TranslationError>(16384),
        lookup(reserved_symbols(), "KBD"@) == Ok::<i32, TranslationError>(24576),
{
    reveal_strlit("SP");
    assert("SP"@.len() == 2 && "SP"@[0] == 'S' && "SP"@[1] == 'P');
    reveal_strlit("LCL");
    assert("LCL"@.len() == 3 && "LCL"@[0] == 'L' && "LCL"@[1] == 'C' && "LCL"@[2] == 'L');
    reveal_strlit("ARG");
    assert("ARG"@.len() == 3 && "ARG"@[0] == 'A' && "ARG"@[1] == 'R' && "ARG"@[2] == 'G');
    reveal_strlit("THIS");
    assert("THIS"@.len() == 4 && "THIS"@[0] == 'T' && "THIS"@[1] == 'H' && "THIS"@[2] == 'I' && "THIS"@[3] == 'S');
    reveal_strlit("THAT");
    assert("THAT"@.len() == 4 && "THAT"@[0] == 'T' && "THAT"@[1] == 'H' && "THAT"@[2] == 'A' && "THAT"@[3] == 'T');
    reveal_strlit("R0");
    assert("R0"@.len() == 2 && "R0"@[0] == 'R' && "R0"@[1] == '0');
    reveal_strlit("R1");
    assert("R1"@.len() == 2 && "R1"@[0] == 'R' && "R1"@[1] == '1');
    reveal_strlit("R2");
    assert("R2"@.len() == 2 && "R2"@[0] == 'R' && "R2"@[1] == '2');
    reveal_strlit("R3");
    assert("R3"@.len() == 2 && "R3"@[0] == 'R' && "R3"@[1] == '3');
    reveal_strlit("R4");
    assert("R4"@.len() == 2 && "R4"@[0] == 'R' && "R4"@[1] == '4');
    reveal_strlit("R5");
    assert("R5"@.len() == 2 && "R5"@[0] == 'R' && "R5"@[1] == '5');
    reveal_strlit("R6");
    assert("R6"@.len() == 2 && "R6"@[0] == 'R' && "R6"@[1] == '6');
    reveal_strlit("R7");
    assert("R7"@.len() == 2 && "R7"@[0] == 'R' && "R7"@[1] == '7');
    reveal_strlit("R8");
    assert("R8"@.len() == 2 && "R8"@[0] == 'R' && "R8"@[1] == '8');
    reveal_strlit("R9");
    assert("R9"@.len() == 2 && "R9"@[0] == 'R' && "R9"@[1] == '9');
    reveal_strlit("R10");
    assert("R10"@.len() == 3 && "R10"@[0] == 'R' && "R10"@[1] == '1' && "R10"@[2] == '0');
    reveal_strlit("R11");
    assert("R11"@.len() == 3 && "R11"@[0] == 'R' && "R11"@[1] == '1' && "R11"@[2] == '1');
    reveal_strlit("R12");
    assert("R12"@.len() == 3 && "R12"@[0] == 'R' && "R12"@[1] == '1' && "R12"@[2] == '2');
    reveal_strlit("R13");
    assert("R13"@.len() == 3 && "R13"@[0] == 'R' && "R13"@[1] == '1' && "R13"@[2] == '3');
    reveal_strlit("R14");
    assert("R14"@.len() == 3 && "R14"@[0] == 'R' && "R14"@[1] == '1' && "R14"@[2] == '4');
    reveal_strlit("R15");
    assert("R15"@.len() == 3 && "R15"@[0] == 'R' && "R15"@[1] == '1' && "R15"@[2] == '5');
    reveal_strlit("SCREEN");
    assert("SCREEN"@.len() == 6 && "SCREEN"@[0] == 'S' && "SCREEN"@[1] == 'C' && "SCREEN"@[2] == 'R' && "SCREEN"@[3] == 'E' && "SCREEN"@[4] == 'E' && "SCREEN"@[5] == 'N');
    reveal_strlit("KBD");
    assert("KBD"@.len() == 3 && "KBD"@[0] == 'K' && "KBD"@[1] == 'B' && "KBD"@[2] == 'D');
}

/// A name that is neither reserved nor added is unknown to a table.
pub proof fn unreserved_name_is_unknown(name: Seq<char>)
    requires
        !reserved_symbols().contains_key(name),
    ensures
        lookup(reserved_symbols(), name) == Err::<i32, TranslationError>(
            TranslationError::UnknownSymbol,
        ),
{
}

/// After `add_entry(name, a)` the name resolves to `a`; a second
/// `add_entry(name, b)` makes it resolve to `b`.
pub proof fn added_name_resolves(m: Map<Seq<char>, i32>, name: Seq<char>, a: i32, b: i32)
    ensures
        lookup(m.insert(name, a), name) == Ok::<i32, TranslationError>(a),
        lookup(m.insert(name, a).insert(name, b), name) == Ok::<i32, TranslationError>(b),
{
}

} // verus!
