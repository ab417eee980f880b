//! The opcode table: the closed set of instructions, the byte that stands
//! for each in a binary word, their source names and their operand classes.

use vstd::prelude::*;

verus! {

/// An instruction opcode.
///
/// The variants are listed in the order of their bytes, which run from 1 to
/// 25 without a gap. Everything listed before [`Op::Push`] takes no operand,
/// `Push` takes an integer, and everything after it takes an address.
#[derive(Debug, Clone, Copy, PartialEq, Eq, Structural)]
pub enum Op {
    Pop,
    Add,
    Inc,
    Dec,
    Sub,
    Mul,
    Div,
    Mod,
    Print,
    Halt,
    Dup,
    /// Duplicates the top two values. It has a byte but no source name.
    Dup2,
    Swap,
    Clear,
    Over,
    Push,
    Je,
    Jn,
    Jg,
    Jl,
    Jge,
    Jle,
    Jmp,
    Jz,
    Jnz,
}

/// How many operands an opcode takes, and of which kind.
#[derive(Debug, Clone, Copy, PartialEq, Eq, Structural)]
pub enum Arity {
    /// No operand.
    Niladic,
    /// One signed integer.
    Immediate,
    /// One instruction address, written as a label in source text.
    Address,
}

/// The smallest opcode byte.
pub const FIRST_OPCODE: u8 = 1;

/// The largest opcode byte.
pub const LAST_OPCODE: u8 = 25;

impl Op {
    /// The byte that stands for this opcode in a binary word.
    pub open spec fn byte(self) -> u8 {
        match self {
            Op::Pop => 1,
            Op::Add => 2,
            Op::Inc => 3,
            Op::Dec => 4,
            Op::Sub => 5,
            Op::Mul => 6,
            Op::Div => 7,
            Op::Mod => 8,
            Op::Print => 9,
            Op::Halt => 10,
            Op::Dup => 11,
            Op::Dup2 => 12,
            Op::Swap => 13,
            Op::Clear => 14,
            Op::Over => 15,
            Op::Push => 16,
            Op::Je => 17,
            Op::Jn => 18,
            Op::Jg => 19,
            Op::Jl => 20,
            Op::Jge => 21,
            Op::Jle => 22,
            Op::Jmp => 23,
            Op::Jz => 24,
            Op::Jnz => 25,
        }
    }

    /// The opcode that a byte stands for, if any.
    pub open spec fn of_byte(b: u8) -> Option<Op> {
        if b == 1 {
            Some(Op::Pop)
        } else if b == 2 {
            Some(Op::Add)
        } else if b == 3 {
            Some(Op::Inc)
        } else if b == 4 {
            Some(Op::Dec)
        } else if b == 5 {
            Some(Op::Sub)
        } else if b == 6 {
            Some(Op::Mul)
        } else if b == 7 {
            Some(Op::Div)
        } else if b == 8 {
            Some(Op::Mod)
        } else if b == 9 {
            Some(Op::Print)
        } else if b == 10 {
            Some(Op::Halt)
        } else if b == 11 {
            Some(Op::Dup)
        } else if b == 12 {
            Some(Op::Dup2)
        } else if b == 13 {
            Some(Op::Swap)
        } else if b == 14 {
            Some(Op::Clear)
        } else if b == 15 {
            Some(Op::Over)
        } else if b == 16 {
            Some(Op::Push)
        } else if b == 17 {
            Some(Op::Je)
        } else if b == 18 {
            Some(Op::Jn)
        } else if b == 19 {
            Some(Op::Jg)
        } else if b == 20 {
            Some(Op::Jl)
        } else if b == 21 {
            Some(Op::Jge)
        } else if b == 22 {
            Some(Op::Jle)
        } else if b == 23 {
            Some(Op::Jmp)
        } else if b == 24 {
            Some(Op::Jz)
        } else if b == 25 {
            Some(Op::Jnz)
        } else {
            None
        }
    }

    /// The operand class, which depends on nothing but where the opcode's
    /// byte lies relative to that of `Push`.
    pub open spec fn class(self) -> Arity {
        if self.byte() < Op::Push.byte() {
            Arity::Niladic
        } else if self.byte() == Op::Push.byte() {
            Arity::Immediate
        } else {
            Arity::Address
        }
    }

    /// The canonical name of the opcode.
    pub open spec fn name(self) -> Seq<char> {
        match self {
            Op::Pop => "pop"@,
            Op::Add => "add"@,
            Op::Inc => "inc"@,
            Op::Dec => "dec"@,
            Op::Sub => "sub"@,
            Op::Mul => "mul"@,
            Op::Div => "div"@,
            Op::Mod => "mod"@,
            Op::Print => "print"@,
            Op::Halt => "halt"@,
            Op::Dup => "dup"@,
            Op::Dup2 => "dup2"@,
            Op::Swap => "swap"@,
            Op::Clear => "clear"@,
            Op::Over => "over"@,
            Op::Push => "push"@,
            Op::Je => "je"@,
            Op::Jn => "jn"@,
            Op::Jg => "jg"@,
            Op::Jl => "jl"@,
            Op::Jge => "jge"@,
            Op::Jle => "jle"@,
            Op::Jmp => "jmp"@,
            Op::Jz => "jz"@,
            Op::Jnz => "jnz"@,
        }
    }

    /// Whether the opcode can be written in source text. Every opcode but
    /// `Dup2` can.
    pub open spec fn in_source(self) -> bool {
        self != Op::Dup2
    }

    /// Whether `text` is the source name of this opcode.
    pub open spec fn spelled(self, text: Seq<char>) -> bool {
        self.in_source() && self.name() == text
    }

    /// Whether a jump with this opcode pops two values and compares them.
    pub open spec fn compares(self) -> bool {
        self == Op::Je || self == Op::Jn || self == Op::Jg || self == Op::Jl || self == Op::Jge
            || self == Op::Jle
    }

    /// Returns the byte that stands for this opcode in a binary word.
    pub fn code(self) -> (b: u8)
        ensures
            b == self.byte(),
            FIRST_OPCODE <= b <= LAST_OPCODE,
    {
        match self {
            Op::Pop => 1,
            Op::Add => 2,
            Op::Inc => 3,
            Op::Dec => 4,
            Op::Sub => 5,
            Op::Mul => 6,
            Op::Div => 7,
            Op::Mod => 8,
            Op::Print => 9,
            Op::Halt => 10,
            Op::Dup => 11,
            Op::Dup2 => 12,
            Op::Swap => 13,
            Op::Clear => 14,
            Op::Over => 15,
            Op::Push => 16,
            Op::Je => 17,
            Op::Jn => 18,
            Op::Jg => 19,
            Op::Jl => 20,
            Op::Jge => 21,
            Op::Jle => 22,
            Op::Jmp => 23,
            Op::Jz => 24,
            Op::Jnz => 25,
        }
    }

    /// Returns the opcode that `code` stands for, or `None` when the byte is
    /// outside the table.
    pub fn from_repr(code: u8) -> (r: Option<Op>)
        ensures
            r == Op::of_byte(code),
            r is Some <==> FIRST_OPCODE <= code <= LAST_OPCODE,
            r matches Some(op) ==> op.byte() == code,
    {
        match code {
            1 => Some(Op::Pop),
            2 => Some(Op::Add),
            3 => Some(Op::Inc),
            4 => Some(Op::Dec),
            5 => Some(Op::Sub),
            6 => Some(Op::Mul),
            7 => Some(Op::Div),
            8 => Some(Op::Mod),
            9 => Some(Op::Print),
            10 => Some(Op::Halt),
            11 => Some(Op::Dup),
            12 => Some(Op::Dup2),
            13 => Some(Op::Swap),
            14 => Some(Op::Clear),
            15 => Some(Op::Over),
            16 => Some(Op::Push),
            17 => Some(Op::Je),
            18 => Some(Op::Jn),
            19 => Some(Op::Jg),
            20 => Some(Op::Jl),
            21 => Some(Op::Jge),
            22 => Some(Op::Jle),
            23 => Some(Op::Jmp),
            24 => Some(Op::Jz),
            25 => Some(Op::Jnz),
            _ => None,
        }
    }

    /// Tells whether the opcode can be written in source text.
    pub fn has_source_name(self) -> (r: bool)
        ensures
            r == self.in_source(),
    {
        match self {
            Op::Dup2 => false,
            _ => true,
        }
    }

    /// Returns the operand class of the opcode.
    pub fn arity(self) -> (a: Arity)
        ensures
            a == self.class(),
    {
        let b = self.code();
        let push = Op::Push.code();
        if b < push {
            Arity::Niladic
        } else if b == push {
            Arity::Immediate
        } else {
            Arity::Address
        }
    }

    /// Returns the canonical name of the opcode.
    pub fn mnemonic(self) -> (s: &'static str)
        ensures
            s@ == self.name(),
    {
        match self {
            Op::Pop => "pop",
            Op::Add => "add",
            Op::Inc => "inc",
            Op::Dec => "dec",
            Op::Sub => "sub",
            Op::Mul => "mul",
            Op::Div => "div",
            Op::Mod => "mod",
            Op::Print => "print",
            Op::Halt => "halt",
            Op::Dup => "dup",
            Op::Dup2 => "dup2",
            Op::Swap => "swap",
            Op::Clear => "clear",
            Op::Over => "over",
            Op::Push => "push",
            Op::Je => "je",
            Op::Jn => "jn",
            Op::Jg => "jg",
            Op::Jl => "jl",
            Op::Jge => "jge",
            Op::Jle => "jle",
            Op::Jmp => "jmp",
            Op::Jz => "jz",
            Op::Jnz => "jnz",
        }
    }

    /// Looks a source name up in the table. The result is the one opcode
    /// that is spelled `text`, or `None` when there is none.
    pub fn from_mnemonic(text: &str) -> (r: Option<Op>)
        ensures
            r matches Some(op) ==> op.spelled(text@),
            r is None ==> forall|op: Op| !op.spelled(text@),
    {
        let chars = chars_of(text);
        lookup(chars.as_slice())
    }
}

/// Copies the characters of a string into a vector.
pub fn chars_of(text: &str) -> (chars: Vec<char>)
    ensures
        chars@ == text@,
{
    let mut chars: Vec<char> = Vec::new();
    for c in it: text.chars()
        invariant
            it.seq() == text@,
            chars@ == it.seq().take(it.index() as int),
    {
        chars.push(c);
    }
    chars
}

/// Tells whether a run of characters spells out `word`.
pub fn spells(chars: &[char], word: &str) -> (r: bool)
    ensures
        r == (chars@ == word@),
{
    let n = word.unicode_len();
    if chars.len() != n {
        return false;
    }
    let mut i: usize = 0;
    while i < n
        invariant
            i <= n,
            n == chars@.len(),
            n == word@.len(),
            forall|j: int| 0 <= j < i ==> chars@[j] == word@[j],
        decreases n - i,
    {
        if chars[i] != word.get_char(i) {
            return false;
        }
        i += 1;
    }
    assert(chars@ =~= word@);
    true
}

/// Looks a run of characters up among the source names of the opcodes.
pub fn lookup(chars: &[char]) -> (r: Option<Op>)
    ensures
        r matches Some(op) ==> op.spelled(chars@),
        r is None ==> forall|op: Op| !op.spelled(chars@),
{
    let mut code: u8 = FIRST_OPCODE;
    while code <= LAST_OPCODE
        invariant
            FIRST_OPCODE <= code <= LAST_OPCODE + 1,
            forall|op: Op| op.byte() < code ==> !op.spelled(chars@),
        decreases LAST_OPCODE + 1 - code,
    {
        if let Some(op) = Op::from_repr(code) {
            if op.has_source_name() && spells(chars, op.mnemonic()) {
                return Some(op);
            }
        }
        proof {
            assert forall|op: Op| op.byte() < code + 1 implies !op.spelled(chars@) by {
                if op.byte() == code {
                    assert(Op::of_byte(code) == Some(op));
                }
            }
        }
        code += 1;
    }
    None
}

/// Every opcode is found again from its byte, and the bytes fill the range
/// from the first to the last opcode.
pub proof fn lemma_byte_round_trip(op: Op)
    ensures
        Op::of_byte(op.byte()) == Some(op),
        FIRST_OPCODE <= op.byte() <= LAST_OPCODE,
{
}

/// A byte that stands for an opcode is the byte of that opcode, and the bytes
/// that stand for one are exactly those of the table's range.
pub proof fn lemma_of_byte(b: u8)
    ensures
        Op::of_byte(b) is Some <==> FIRST_OPCODE <= b <= LAST_OPCODE,
        Op::of_byte(b) matches Some(op) ==> op.byte() == b,
{
}

/// The order of the opcodes by byte decides the operand class: two opcodes
/// on the same side of `Push` are in the same class.
pub proof fn lemma_class_by_position(a: Op, b: Op)
    ensures
        (a.byte() < Op::Push.byte() && b.byte() < Op::Push.byte()) ==> a.class() == b.class(),
        (a.byte() > Op::Push.byte() && b.byte() > Op::Push.byte()) ==> a.class() == b.class(),
        a.class() == Arity::Immediate <==> a == Op::Push,
{
}

/// No two opcodes share a name, so a name is spelled by at most one opcode.
pub proof fn lemma_names_distinct(a: Op, b: Op)
    requires
        a.name() == b.name(),
    ensures
        a == b,
{
    reveal_names();
    let la = a.name().len();
    let lb = b.name().len();
    assert(la == lb);
    assert(a.name()[0] == b.name()[0]);
    assert(a.name()[1] == b.name()[1]);
    if la >= 3 {
        assert(a.name()[2] == b.name()[2]);
    }
}

/// Makes the characters of every opcode name known.
pub proof fn reveal_names()
    ensures
        "pop"@ == seq!['p', 'o', 'p'],
        "add"@ == seq!['a', 'd', 'd'],
        "inc"@ == seq!['i', 'n', 'c'],
        "dec"@ == seq!['d', 'e', 'c'],
        "sub"@ == seq!['s', 'u', 'b'],
        "mul"@ == seq!['m', 'u', 'l'],
        "div"@ == seq!['d', 'i', 'v'],
        "mod"@ == seq!['m', 'o', 'd'],
        "print"@ == seq!['p', 'r', 'i', 'n', 't'],
        "halt"@ == seq!['h', 'a', 'l', 't'],
        "dup"@ == seq!['d', 'u', 'p'],
        "dup2"@ == seq!['d', 'u', 'p', '2'],
        "swap"@ == seq!['s', 'w', 'a', 'p'],
        "clear"@ == seq!['c', 'l', 'e', 'a', 'r'],
        "over"@ == seq!['o', 'v', 'e', 'r'],
        "push"@ == seq!['p', 'u', 's', 'h'],
        "je"@ == seq!['j', 'e'],
        "jn"@ == seq!['j', 'n'],
        "jg"@ == seq!['j', 'g'],
        "jl"@ == seq!['j', 'l'],
        "jge"@ == seq!['j', 'g', 'e'],
        "jle"@ == seq!['j', 'l', 'e'],
        "jmp"@ == seq!['j', 'm', 'p'],
        "jz"@ == seq!['j', 'z'],
        "jnz"@ == seq!['j', 'n', 'z'],
{
    reveal_strlit("pop");
    reveal_strlit("add");
    reveal_strlit("inc");
    reveal_strlit("dec");
    reveal_strlit("sub");
    reveal_strlit("mul");
    reveal_strlit("div");
    reveal_strlit("mod");
    reveal_strlit("print");
    reveal_strlit("halt");
    reveal_strlit("dup");
    reveal_strlit("dup2");
    reveal_strlit("swap");
    reveal_strlit("clear");
    reveal_strlit("over");
    reveal_strlit("push");
    reveal_strlit("je");
    reveal_strlit("jn");
    reveal_strlit("jg");
    reveal_strlit("jl");
    reveal_strlit("jge");
    reveal_strlit("jle");
    reveal_strlit("jmp");
    reveal_strlit("jz");
    reveal_strlit("jnz");
    assert("pop"@ =~= seq!['p', 'o', 'p']);
    assert("add"@ =~= seq!['a', 'd', 'd']);
    assert("inc"@ =~= seq!['i', 'n', 'c']);
    assert("dec"@ =~= seq!['d', 'e', 'c']);
    assert("sub"@ =~= seq!['s', 'u', 'b']);
    assert("mul"@ =~= seq!['m', 'u', 'l']);
    assert("div"@ =~= seq!['d', 'i', 'v']);
    assert("mod"@ =~= seq!['m', 'o', 'd']);
    assert("print"@ =~= seq!['p', 'r', 'i', 'n', 't']);
    assert("halt"@ =~= seq!['h', 'a', 'l', 't']);
    assert("dup"@ =~= seq!['d', 'u', 'p']);
    assert("dup2"@ =~= seq!['d', 'u', 'p', '2']);
    assert("swap"@ =~= seq!['s', 'w', 'a', 'p']);
    assert("clear"@ =~= seq!['c', 'l', 'e', 'a', 'r']);
    assert("over"@ =~= seq!['o', 'v', 'e', 'r']);
    assert("push"@ =~= seq!['p', 'u', 's', 'h']);
    assert("je"@ =~= seq!['j', 'e']);
    assert("jn"@ =~= seq!['j', 'n']);
    assert("jg"@ =~= seq!['j', 'g']);
    assert("jl"@ =~= seq!['j', 'l']);
    assert("jge"@ =~= seq!['j', 'g', 'e']);
    assert("jle"@ =~= seq!['j', 'l', 'e']);
    assert("jmp"@ =~= seq!['j', 'm', 'p']);
    assert("jz"@ =~= seq!['j', 'z']);
    assert("jnz"@ =~= seq!['j', 'n', 'z']);
}

} // verus!
