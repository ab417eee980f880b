//! The two-pass assembler.
//!
//! The first pass walks the tokens with a cursor, groups them into
//! instructions whose operand may still be the name of a label, and records
//! where each label stands. The second pass replaces every label name by the
//! address it was recorded with, so a label may be used before it is
//! defined.

use vstd::prelude::*;
use crate::instr::Instr;
use crate::lexer::{lexemes, Lexeme, Token};
use crate::op::{Arity, Op};

verus! {

/// The operand of an instruction between the two passes.
#[derive(Debug, Clone, PartialEq, Eq)]
pub enum AbstractValue {
    /// The instruction takes no operand.
    Absent,
    Integer(i64),
    /// The name of a label that is still to be resolved.
    Label(String),
}

/// An instruction between the two passes.
#[derive(Debug, Clone, PartialEq, Eq)]
pub struct AbstractInstr {
    pub op: Op,
    pub value: AbstractValue,
}

/// Why a sequence of tokens is no program.
#[derive(Debug, Clone, PartialEq, Eq)]
pub enum AssembleError {
    /// No instruction can start with the token at `index`: it is an
    /// integer or an unknown word, or a jump that is followed by neither a
    /// label nor an integer.
    SyntaxError { index: usize, token: Token },
    /// The opcode at `index` takes an integer, and `found` follows it
    /// instead: another kind of token, or the end of the tokens.
    MalformedOperand { op: Op, index: usize, found: Option<Token> },
    /// The label is defined a second time.
    DuplicateLabel { name: String },
    /// A jump names a label that is defined nowhere.
    UndefinedLabel { name: String },
}

/// The mathematical model of an operand between the two passes.
pub enum Operand {
    Absent,
    Integer(i64),
    Label(Seq<char>),
}

/// The mathematical model of an instruction between the two passes.
pub struct Draft {
    pub op: Op,
    pub operand: Operand,
}

/// The mathematical model of an assembly error.
pub enum Fault {
    SyntaxError { index: nat, token: Lexeme },
    MalformedOperand { op: Op, index: nat, found: Option<Lexeme> },
    DuplicateLabel { name: Seq<char> },
    UndefinedLabel { name: Seq<char> },
}

/// What the first pass has gathered: the instructions so far, and the
/// address of each label, which is the number of instructions that stood
/// before its definition.
pub struct Grouping {
    pub drafts: Seq<Draft>,
    pub labels: Map<Seq<char>, nat>,
}

impl View for AbstractValue {
    type V = Operand;

    open spec fn view(&self) -> Operand {
        match self {
            AbstractValue::Absent => Operand::Absent,
            AbstractValue::Integer(v) => Operand::Integer(*v),
            AbstractValue::Label(name) => Operand::Label(name@),
        }
    }
}

impl View for AbstractInstr {
    type V = Draft;

    open spec fn view(&self) -> Draft {
        Draft { op: self.op, operand: self.value@ }
    }
}

/// The model of a token that may be missing.
pub open spec fn found_view(found: Option<Token>) -> Option<Lexeme> {
    match found {
        Some(token) => Some(token@),
        None => None,
    }
}

impl View for AssembleError {
    type V = Fault;

    open spec fn view(&self) -> Fault {
        match self {
            AssembleError::SyntaxError { index, token } => Fault::SyntaxError {
                index: *index as nat,
                token: token@,
            },
            AssembleError::MalformedOperand { op, index, found } => Fault::MalformedOperand {
                op: *op,
                index: *index as nat,
                found: found_view(*found),
            },
            AssembleError::DuplicateLabel { name } => Fault::DuplicateLabel { name: name@ },
            AssembleError::UndefinedLabel { name } => Fault::UndefinedLabel { name: name@ },
        }
    }
}

/// The models of a sequence of instructions between the passes.
pub open spec fn drafts_of(instrs: Seq<AbstractInstr>) -> Seq<Draft> {
    instrs.map_values(|i: AbstractInstr| i@)
}

impl Grouping {
    /// Nothing gathered yet.
    pub open spec fn empty() -> Grouping {
        Grouping { drafts: Seq::empty(), labels: Map::empty() }
    }

    /// The grouping with one more instruction.
    pub open spec fn emit(self, draft: Draft) -> Grouping {
        Grouping { drafts: self.drafts.push(draft), ..self }
    }

    /// The grouping with `name` defined at the address of the next
    /// instruction.
    pub open spec fn define(self, name: Seq<char>) -> Grouping {
        Grouping { labels: self.labels.insert(name, self.drafts.len()), ..self }
    }

    /// Whether every label points at an instruction gathered so far, or
    /// just behind the last one.
    pub open spec fn labels_in_range(self) -> bool {
        forall|name: Seq<char>| #[trigger]
            self.labels.contains_key(name) ==> self.labels[name] <= self.drafts.len()
    }
}

/// The token that follows the one at `at`, if there is one.
pub open spec fn following(tokens: Seq<Lexeme>, at: int) -> Option<Lexeme> {
    if at + 1 < tokens.len() {
        Some(tokens[at + 1])
    } else {
        None
    }
}

/// One move of the first pass with the cursor at `at`: the new place of the
/// cursor and what has then been gathered, or the error.
///
/// A label definition records the address of the next instruction and emits
/// nothing. An opcode without operand stands alone. `push` takes the
/// integer that follows it. A jump takes the label or the integer that
/// follows it.
pub open spec fn consume(tokens: Seq<Lexeme>, at: int, sofar: Grouping) -> Result<
    (int, Grouping),
    Fault,
>
    recommends
        0 <= at < tokens.len(),
{
    match tokens[at] {
        Lexeme::Label(name) => if sofar.labels.contains_key(name) {
            Err(Fault::DuplicateLabel { name })
        } else {
            Ok((at + 1, sofar.define(name)))
        },
        Lexeme::Op(op) => match op.class() {
            Arity::Niladic => Ok((at + 1, sofar.emit(Draft { op, operand: Operand::Absent }))),
            Arity::Immediate => match following(tokens, at) {
                Some(Lexeme::Value(v)) => Ok(
                    (at + 2, sofar.emit(Draft { op, operand: Operand::Integer(v) })),
                ),
                found => Err(Fault::MalformedOperand { op, index: at as nat, found }),
            },
            Arity::Address => match following(tokens, at) {
                Some(Lexeme::Value(v)) => Ok(
                    (at + 2, sofar.emit(Draft { op, operand: Operand::Integer(v) })),
                ),
                Some(Lexeme::Label(name)) => Ok(
                    (at + 2, sofar.emit(Draft { op, operand: Operand::Label(name) })),
                ),
                _ => Err(Fault::SyntaxError { index: at as nat, token: tokens[at] }),
            },
        },
        other => Err(Fault::SyntaxError { index: at as nat, token: other }),
    }
}

/// The first pass from the cursor at `at` to the end of the tokens.
pub open spec fn group(tokens: Seq<Lexeme>, at: int, sofar: Grouping) -> Result<Grouping, Fault>
    decreases tokens.len() - at,
{
    if !(0 <= at < tokens.len()) {
        Ok(sofar)
    } else {
        match consume(tokens, at, sofar) {
            Err(e) => Err(e),
            Ok(moved) => group(tokens, moved.0, moved.1),
        }
    }
}

/// The second pass on one instruction.
pub open spec fn resolve(draft: Draft, labels: Map<Seq<char>, nat>) -> Result<Instr, Fault> {
    match draft.operand {
        Operand::Absent => Ok(Instr { op: draft.op, value: 0 }),
        Operand::Integer(v) => Ok(Instr { op: draft.op, value: v }),
        Operand::Label(name) => if labels.contains_key(name) {
            Ok(Instr { op: draft.op, value: labels[name] as i64 })
        } else {
            Err(Fault::UndefinedLabel { name })
        },
    }
}

/// The second pass: every instruction resolved, in order, or the error of
/// the first instruction that names an undefined label.
pub open spec fn resolve_all(drafts: Seq<Draft>, labels: Map<Seq<char>, nat>) -> Result<
    Seq<Instr>,
    Fault,
>
    decreases drafts.len(),
{
    if drafts.len() == 0 {
        Ok(Seq::empty())
    } else {
        match resolve_all(drafts.drop_last(), labels) {
            Err(e) => Err(e),
            Ok(code) => match resolve(drafts.last(), labels) {
                Err(e) => Err(e),
                Ok(instr) => Ok(code.push(instr)),
            },
        }
    }
}

/// Both passes: the program that a sequence of tokens stands for, or why
/// it stands for none.
pub open spec fn assemble(tokens: Seq<Lexeme>) -> Result<Seq<Instr>, Fault> {
    match group(tokens, 0, Grouping::empty()) {
        Err(e) => Err(e),
        Ok(grouping) => resolve_all(grouping.drafts, grouping.labels),
    }
}

/// The table of the labels defined so far. No name occurs twice in it.
pub struct LabelTable {
    names: Vec<String>,
    addresses: Vec<usize>,
    map: Ghost<Map<Seq<char>, nat>>,
}

impl View for LabelTable {
    type V = Map<Seq<char>, nat>;

    closed spec fn view(&self) -> Map<Seq<char>, nat> {
        self.map@
    }
}

impl LabelTable {
    /// Whether the table's vectors hold exactly what its map says.
    pub closed spec fn wf(&self) -> bool {
        &&& self.names@.len() == self.addresses@.len()
        &&& forall|i: int|
            0 <= i < self.names@.len() ==> self.map@.contains_key((#[trigger] self.names@[i])@)
                && self.map@[self.names@[i]@] == self.addresses@[i]
        &&& forall|name: Seq<char>| #[trigger]
            self.map@.contains_key(name) ==> exists|i: int|
                0 <= i < self.names@.len() && (#[trigger] self.names@[i])@ == name
    }

    /// Creates an empty table.
    pub fn new() -> (table: LabelTable)
        ensures
            table.wf(),
            table@ == Map::<Seq<char>, nat>::empty(),
    {
        LabelTable { names: Vec::new(), addresses: Vec::new(), map: Ghost(Map::empty()) }
    }

    /// Returns the address that `name` was defined with, if it was defined.
    pub fn get(&self, name: &String) -> (r: Option<usize>)
        requires
            self.wf(),
        ensures
            r is Some <==> self@.contains_key(name@),
            r matches Some(address) ==> address == self@[name@],
    {
        let mut i: usize = 0;
        while i < self.names.len()
            invariant
                self.wf(),
                i <= self.names@.len(),
                forall|j: int| 0 <= j < i ==> (#[trigger] self.names@[j])@ != name@,
            decreases self.names@.len() - i,
        {
            if self.names[i].eq(name) {
                return Some(self.addresses[i]);
            }
            i += 1;
        }
        None
    }

    /// Defines `name` with `address`.
    pub fn insert(&mut self, name: String, address: usize)
        requires
            old(self).wf(),
            !old(self)@.contains_key(name@),
        ensures
            final(self).wf(),
            final(self)@ == old(self)@.insert(name@, address as nat),
    {
        let ghost before = self.names@;
        self.map = Ghost(self.map@.insert(name@, address as nat));
        self.names.push(name);
        self.addresses.push(address);
        proof {
            assert forall|i: int| 0 <= i < self.names@.len() implies self.map@.contains_key(
                (#[trigger] self.names@[i])@,
            ) && self.map@[self.names@[i]@] == self.addresses@[i] by {
                if i < before.len() {
                    assert(self.names@[i] == before[i]);
                }
            }
            assert forall|key: Seq<char>| #[trigger] self.map@.contains_key(key) implies exists|
                i: int,
            |
                0 <= i < self.names@.len() && (#[trigger] self.names@[i])@ == key by {
                if key == name@ {
                    assert(self.names@[before.len() as int]@ == key);
                } else {
                    let i = choose|i: int| 0 <= i < before.len() && (#[trigger] before[i])@ == key;
                    assert(self.names@[i] == before[i]);
                }
            }
        }
    }
}

/// The first pass: groups the tokens into instructions and records the
/// labels.
pub fn group_tokens(tokens: &[Token]) -> (r: Result<
    (Vec<AbstractInstr>, LabelTable),
    AssembleError,
>)
    ensures
        r matches Ok(pair) ==> pair.1.wf() && group(lexemes(tokens@), 0, Grouping::empty()) == Ok::<
            Grouping,
            Fault,
        >(Grouping { drafts: drafts_of(pair.0@), labels: pair.1@ }),
        r matches Err(e) ==> group(lexemes(tokens@), 0, Grouping::empty()) == Err::<
            Grouping,
            Fault,
        >(e@),
{
    let ghost all = lexemes(tokens@);
    let n = tokens.len();
    let mut result: Vec<AbstractInstr> = Vec::new();
    let mut labels = LabelTable::new();
    let mut at: usize = 0;
    assert(drafts_of(result@) =~= Seq::<Draft>::empty());
    while at < n
        invariant
            at <= n,
            n == tokens@.len(),
            all == lexemes(tokens@),
            labels.wf(),
            group(all, at as int, Grouping { drafts: drafts_of(result@), labels: labels@ })
                == group(all, 0, Grouping::empty()),
        decreases n - at,
    {
        assert(all[at as int] == tokens@[at as int]@);
        let next: Option<&Token> = if at + 1 < n {
            assert(all[at + 1] == tokens@[at + 1]@);
            Some(&tokens[at + 1])
        } else {
            None
        };
        match &tokens[at] {
            Token::Label(name) => {
                if labels.get(name).is_some() {
                    return Err(AssembleError::DuplicateLabel { name: name.clone() });
                }
                labels.insert(name.clone(), result.len());
                at += 1;
            },
            Token::Op(op) => {
                let op = *op;
                match (op.arity(), next) {
                    (Arity::Niladic, _) => {
                        emit(&mut result, AbstractInstr { op, value: AbstractValue::Absent });
                        at += 1;
                    },
                    (Arity::Immediate, Some(Token::Value(v))) => {
                        emit(&mut result, AbstractInstr { op, value: AbstractValue::Integer(*v) });
                        at += 2;
                    },
                    (Arity::Immediate, found) => {
                        let found = match found {
                            Some(token) => Some(token.duplicate()),
                            None => None,
                        };
                        return Err(AssembleError::MalformedOperand { op, index: at, found });
                    },
                    (Arity::Address, Some(Token::Value(v))) => {
                        emit(&mut result, AbstractInstr { op, value: AbstractValue::Integer(*v) });
                        at += 2;
                    },
                    (Arity::Address, Some(Token::Label(name))) => {
                        let value = AbstractValue::Label(name.clone());
                        emit(&mut result, AbstractInstr { op, value });
                        at += 2;
                    },
                    (Arity::Address, _) => {
                        let token = tokens[at].duplicate();
                        return Err(AssembleError::SyntaxError { index: at, token });
                    },
                }
            },
            other => {
                let token = other.duplicate();
                return Err(AssembleError::SyntaxError { index: at, token });
            },
        }
    }
    Ok((result, labels))
}

/// Appends an instruction to those gathered so far.
fn emit(result: &mut Vec<AbstractInstr>, instr: AbstractInstr)
    ensures
        drafts_of(final(result)@) == drafts_of(old(result)@).push(instr@),
{
    result.push(instr);
    assert(drafts_of(result@) =~= drafts_of(old(result)@).push(instr@));
}

/// The second pass: replaces every label name by its address.
pub fn resolve_labels(drafts: &Vec<AbstractInstr>, labels: &LabelTable) -> (r: Result<
    Vec<Instr>,
    AssembleError,
>)
    requires
        labels.wf(),
    ensures
        r matches Ok(code) ==> resolve_all(drafts_of(drafts@), labels@) == Ok::<Seq<Instr>, Fault>(
            code@,
        ),
        r matches Err(e) ==> resolve_all(drafts_of(drafts@), labels@) == Err::<Seq<Instr>, Fault>(
            e@,
        ),
{
    let ghost all = drafts_of(drafts@);
    let mut result: Vec<Instr> = Vec::new();
    let mut i: usize = 0;
    assert(all.take(0) =~= Seq::<Draft>::empty());
    while i < drafts.len()
        invariant
            i <= drafts@.len(),
            all == drafts_of(drafts@),
            labels.wf(),
            resolve_all(all.take(i as int), labels@) == Ok::<Seq<Instr>, Fault>(result@),
        decreases drafts@.len() - i,
    {
        let draft = &drafts[i];
        proof {
            let longer = all.take(i + 1);
            assert(longer.drop_last() =~= all.take(i as int));
            assert(longer.last() == draft@);
        }
        let value: i64 = match &draft.value {
            AbstractValue::Absent => 0,
            AbstractValue::Integer(v) => *v,
            AbstractValue::Label(name) => {
                match labels.get(name) {
                    Some(address) => {
                        #[verifier::truncate]
                        (address as i64)
                    },
                    None => {
                        proof {
                            lemma_resolve_fails(all, i + 1, labels@);
                        }
                        return Err(AssembleError::UndefinedLabel { name: name.clone() });
                    },
                }
            },
        };
        result.push(Instr { op: draft.op, value });
        i += 1;
    }
    assert(all.take(i as int) =~= all);
    Ok(result)
}

/// An error of the second pass on the first `k` instructions is the error
/// of the pass on all of them.
pub proof fn lemma_resolve_fails(drafts: Seq<Draft>, k: int, labels: Map<Seq<char>, nat>)
    requires
        0 <= k <= drafts.len(),
        resolve_all(drafts.take(k), labels) is Err,
    ensures
        resolve_all(drafts, labels) == resolve_all(drafts.take(k), labels),
    decreases drafts.len() - k,
{
    if k == drafts.len() {
        assert(drafts.take(k) =~= drafts);
    } else {
        let longer = drafts.take(k + 1);
        assert(longer.drop_last() =~= drafts.take(k));
        lemma_resolve_fails(drafts, k + 1, labels);
    }
}

/// Assembles a sequence of tokens into a program.
///
/// Fails with the error of the first pass if there is one, and otherwise
/// with `UndefinedLabel` for the first instruction that names a label
/// which the tokens define nowhere.
pub fn compile_to_instrs(tokens: &[Token]) -> (r: Result<Vec<Instr>, AssembleError>)
    ensures
        r matches Ok(code) ==> assemble(lexemes(tokens@)) == Ok::<Seq<Instr>, Fault>(code@),
        r matches Err(e) ==> assemble(lexemes(tokens@)) == Err::<Seq<Instr>, Fault>(e@),
{
    match group_tokens(tokens) {
        Err(e) => Err(e),
        Ok((drafts, labels)) => resolve_labels(&drafts, &labels),
    }
}

/// The first pass only ever adds: the instructions gathered before stay,
/// and labels that pointed at an instruction, or just behind the last one,
/// still do when the pass is over.
pub proof fn lemma_group_keeps_range(tokens: Seq<Lexeme>, at: int, sofar: Grouping)
    requires
        sofar.labels_in_range(),
        group(tokens, at, sofar) is Ok,
    ensures
        group(tokens, at, sofar)->Ok_0.labels_in_range(),
        sofar.drafts.len() <= group(tokens, at, sofar)->Ok_0.drafts.len(),
    decreases tokens.len() - at,
{
    if 0 <= at < tokens.len() {
        let moved = consume(tokens, at, sofar)->Ok_0;
        assert(moved.1.labels_in_range()) by {
            assert forall|name: Seq<char>| #[trigger]
                moved.1.labels.contains_key(name) implies moved.1.labels[name]
                <= moved.1.drafts.len() by {
                if sofar.labels.contains_key(name) {
                    assert(sofar.labels[name] <= sofar.drafts.len());
                }
            }
        }
        lemma_group_keeps_range(tokens, moved.0, moved.1);
    }
}

/// The second pass keeps the number and the order of the instructions, and
/// turns the operand of each into a plain integer: 0 where there was none,
/// the integer itself, or the address of the label.
pub proof fn lemma_resolve_all(drafts: Seq<Draft>, labels: Map<Seq<char>, nat>)
    requires
        resolve_all(drafts, labels) is Ok,
    ensures
        resolve_all(drafts, labels)->Ok_0.len() == drafts.len(),
        forall|i: int|
            0 <= i < drafts.len() ==> resolve(#[trigger] drafts[i], labels) == Ok::<Instr, Fault>(
                resolve_all(drafts, labels)->Ok_0[i],
            ),
    decreases drafts.len(),
{
    if drafts.len() > 0 {
        lemma_resolve_all(drafts.drop_last(), labels);
        let code = resolve_all(drafts, labels)->Ok_0;
        let shorter = resolve_all(drafts.drop_last(), labels)->Ok_0;
        assert forall|i: int| 0 <= i < drafts.len() implies resolve(
            #[trigger] drafts[i],
            labels,
        ) == Ok::<Instr, Fault>(code[i]) by {
            if i < drafts.len() - 1 {
                assert(drafts[i] == drafts.drop_last()[i]);
                assert(code[i] == shorter[i]);
            }
        }
    }
}

/// A jump to a label never leaves the program: in an assembled program of
/// a length that a 64-bit operand can hold, every instruction whose operand
/// was a label carries an address inside the program or exactly at its end.
pub proof fn lemma_labels_resolve_in_range(tokens: Seq<Lexeme>, i: int)
    requires
        assemble(tokens) is Ok,
        assemble(tokens)->Ok_0.len() <= i64::MAX,
        0 <= i < assemble(tokens)->Ok_0.len(),
    ensures
        group(tokens, 0, Grouping::empty()) is Ok,
        assemble(tokens)->Ok_0.len() == group(tokens, 0, Grouping::empty())->Ok_0.drafts.len(),
        group(tokens, 0, Grouping::empty())->Ok_0.drafts[i].operand is Label ==> 0 <= assemble(
            tokens,
        )->Ok_0[i].value <= assemble(tokens)->Ok_0.len(),
{
    let grouping = group(tokens, 0, Grouping::empty())->Ok_0;
    lemma_group_keeps_range(tokens, 0, Grouping::empty());
    lemma_resolve_all(grouping.drafts, grouping.labels);
    let draft = grouping.drafts[i];
    if draft.operand is Label {
        let name = draft.operand->Label_0;
        assert(resolve(draft, grouping.labels) is Ok);
        assert(grouping.labels.contains_key(name));
        assert(grouping.labels[name] <= grouping.drafts.len());
    }
}

} // verus!
