use vstd::prelude::*;

verus! {

/// The kind of a VM command, told by its first token.
#[derive(Debug, Clone, Copy, PartialEq, Eq, Structural)]
pub enum CommandType {
    CArithmetic,
    CPush,
    CPop,
    CLabel,
    CGoto,
    CIf,
    CFunction,
    CReturn,
    CCall,
}

/// The arithmetic and logical operators, each of which is a whole command.
pub open spec fn is_arithmetic_keyword(w: Seq<char>) -> bool {
    w == "add"@ || w == "sub"@ || w == "neg"@ || w == "eq"@ || w == "gt"@ || w == "lt"@ || w
        == "and"@ || w == "or"@ || w == "not"@
}

/// The command type that the keyword `w` names, if it names one.
pub open spec fn keyword_command(w: Seq<char>) -> Option<CommandType> {
    if is_arithmetic_keyword(w) {
        Some(CommandType::CArithmetic)
    } else if w == "push"@ {
        Some(CommandType::CPush)
    } else if w == "pop"@ {
        Some(CommandType::CPop)
    } else if w == "label"@ {
        Some(CommandType::CLabel)
    } else if w == "goto"@ {
        Some(CommandType::CGoto)
    } else if w == "if-goto"@ {
        Some(CommandType::CIf)
    } else if w == "function"@ {
        Some(CommandType::CFunction)
    } else if w == "call"@ {
        Some(CommandType::CCall)
    } else if w == "return"@ {
        Some(CommandType::CReturn)
    } else {
        None
    }
}

/// The command types whose second operand is a number.
pub open spec fn carries_index(k: CommandType) -> bool {
    k == CommandType::CPush || k == CommandType::CPop || k == CommandType::CFunction || k
        == CommandType::CCall
}

/// Whether `v[lo..hi]` spells `w`.
fn spells(v: &Vec<char>, lo: usize, hi: usize, w: &str) -> (r: bool)
    requires
        lo <= hi <= v.len(),
    ensures
        r == (v@.subrange(lo as int, hi as int) == w@),
{
    let n = w.unicode_len();
    if hi - lo != n {
        return false;
    }
    let mut k: usize = 0;
    while k < n
        invariant
            lo <= hi <= v.len(),
            hi - lo == n == w@.len(),
            k <= n,
            forall|j: int| 0 <= j < k ==> v@[lo + j] == w@[j],
        decreases n - k,
    {
        if v[lo + k] != w.get_char(k) {
            assert(v@.subrange(lo as int, hi as int)[k as int] != w@[k as int]);
            return false;
        }
        k = k + 1;
    }
    assert(v@.subrange(lo as int, hi as int) =~= w@);
    true
}

/// The command type that the keyword `v[lo..hi]` names, if it names one.
pub(crate) fn command_of_keyword(v: &Vec<char>, lo: usize, hi: usize) -> (r: Option<CommandType>)
    requires
        lo <= hi <= v.len(),
    ensures
        r == keyword_command(v@.subrange(lo as int, hi as int)),
{
    if spells(v, lo, hi, "add") || spells(v, lo, hi, "sub") || spells(v, lo, hi, "neg")
        || spells(v, lo, hi, "eq") || spells(v, lo, hi, "gt") || spells(v, lo, hi, "lt")
        || spells(v, lo, hi, "and") || spells(v, lo, hi, "or") || spells(v, lo, hi, "not") {
        Some(CommandType::CArithmetic)
    } else if spells(v, lo, hi, "push") {
        Some(CommandType::CPush)
    } else if spells(v, lo, hi, "pop") {
        Some(CommandType::CPop)
    } else if spells(v, lo, hi, "label") {
        Some(CommandType::CLabel)
    } else if spells(v, lo, hi, "goto") {
        Some(CommandType::CGoto)
    } else if spells(v, lo, hi, "if-goto") {
        Some(CommandType::CIf)
    } else if spells(v, lo, hi, "function") {
        Some(CommandType::CFunction)
    } else if spells(v, lo, hi, "call") {
        Some(CommandType::CCall)
    } else if spells(v, lo, hi, "return") {
        Some(CommandType::CReturn)
    } else {
        None
    }
}

} // verus!
