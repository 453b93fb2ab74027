use hack_front::error::TranslationError;
use hack_front::symbol_table::SymbolTable;

#[test]
fn reserved_names_are_present() {
    let t = SymbolTable::new();
    let reserved = [
        ("SP", 0),
        ("LCL", 1),
        ("ARG", 2),
        ("THIS", 3),
        ("THAT", 4),
        ("R0", 0),
        ("R1", 1),
        ("R2", 2),
        ("R3", 3),
        ("R4", 4),
        ("R5", 5),
        ("R6", 6),
        ("R7", 7),
        ("R8", 8),
        ("R9", 9),
        ("R10", 10),
        ("R11", 11),
        ("R12", 12),
        ("R13", 13),
        ("R14", 14),
        ("R15", 15),
        ("SCREEN", 16384),
        ("KBD", 24576),
    ];
    for (name, address) in reserved {
        assert!(t.contains(name));
        assert_eq!(t.get_address(name), Ok(address));
    }
}

#[test]
fn unknown_name_is_reported() {
    let t = SymbolTable::new();
    assert!(!t.contains("LOOP"));
    assert_eq!(t.get_address("LOOP"), Err(TranslationError::UnknownSymbol));
    assert!(!t.contains("sp"));
    assert_eq!(t.get_address("R16"), Err(TranslationError::UnknownSymbol));
    assert_eq!(t.get_address(""), Err(TranslationError::UnknownSymbol));
}

#[test]
fn added_entry_resolves_and_overwrites() {
    let mut t = SymbolTable::new();
    t.add_entry("LOOP".to_string(), 16);
    assert!(t.contains("LOOP"));
    assert_eq!(t.get_address("LOOP"), Ok(16));
    t.add_entry("LOOP".to_string(), 42);
    assert_eq!(t.get_address("LOOP"), Ok(42));
    assert_eq!(t.get_address("SP"), Ok(0));
}

#[test]
fn reserved_name_can_be_redefined() {
    let mut t = SymbolTable::new();
    t.add_entry("SP".to_string(), 256);
    assert_eq!(t.get_address("SP"), Ok(256));
    assert_eq!(t.get_address("R0"), Ok(0));
}
