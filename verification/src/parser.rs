use vstd::prelude::*;

use crate::runtime::{Data, Instruction, InstructionCall, InstructionMap, InstructionName, Labels,
    Program};
use crate::tokenizer::{build_lexer, DataToken, KeywordToken, LexError, SymbolToken, Token,
    TokenView, spec_tokens, token_views};

verus! {

/// A parse-time failure; the engine itself never raises.
#[derive(Debug)]
pub enum ParserError {
    /// A token the statement grammar does not accept, carrying it.
    NotAllowed(Token),
    /// A value literal with no instruction context, carrying the token.
    InvalidInstruction(Token),
    /// The source text has a position no lexical rule matches.
    Lex(LexError),
    /// A bare word that names no registered instruction, carrying its text.
    UnfoundInstruction(String),
}

/// The value a literal token carries over into run time: a direct one-to-one
/// tag mapping.
pub open spec fn spec_token_to_data(tok: DataToken) -> Data {
    match tok {
        DataToken::Bool(b) => Data::Bool(b),
        DataToken::Float(f) => Data::Float(f),
        DataToken::Str(s) => Data::HString(s),
        DataToken::Character(c) => Data::Char(c),
        DataToken::Nil => Data::Nil,
        DataToken::Integer(i) => Data::Integer(i),
    }
}

fn token_to_data(tok: DataToken) -> (r: Data)
    ensures
        r == spec_token_to_data(tok),
{
    match tok {
        DataToken::Bool(b) => Data::Bool(b),
        DataToken::Float(f) => Data::Float(f),
        DataToken::Str(s) => Data::HString(s),
        DataToken::Character(c) => Data::Char(c),
        DataToken::Nil => Data::Nil,
        DataToken::Integer(i) => Data::Integer(i),
    }
}

/// A call as the assembler tracks it: name, resolved instruction and the
/// argument values gathered so far.
pub struct SpecCall {
    pub name: InstructionName,
    pub inst: Instruction,
    pub args: Seq<Data>,
}

/// The assembler's whole state: the optional pending call and the two output
/// collections.
pub struct AsmState {
    pub pending: Option<SpecCall>,
    pub prog: Seq<SpecCall>,
    pub labels: Map<Seq<char>, usize>,
}

/// The call sequence an executable program stands for.
pub open spec fn prog_view(p: Seq<InstructionCall>) -> Seq<SpecCall> {
    p.map_values(|c: InstructionCall| SpecCall { name: c.name, inst: c.inst, args: c.args@ })
}

/// The pending slot a variable of the assembler stands for.
pub open spec fn pending_view(c: Option<InstructionCall>) -> Option<SpecCall> {
    match c {
        Some(c) => Some(SpecCall { name: c.name, inst: c.inst, args: c.args@ }),
        None => None,
    }
}

/// Appending the pending call, if any, to the program.
pub open spec fn asm_flush(st: AsmState) -> AsmState {
    match st.pending {
        Some(c) => AsmState { pending: None, prog: st.prog.push(c), labels: st.labels },
        None => st,
    }
}

/// One token of assembly, against the host's instruction table.  `en` and
/// `et` are the shared interned name and the argument text used for the
/// exit keyword throughout one parse.
pub open spec fn asm_step(
    st: AsmState,
    t: Token,
    table: Map<Seq<char>, (InstructionName, Instruction)>,
    en: InstructionName,
    et: String,
) -> Result<AsmState, ParserError> {
    match t {
        Token::Text(text) => match st.pending {
            Some(c) => Ok(
                AsmState {
                    pending: Some(
                        SpecCall { name: c.name, inst: c.inst, args: c.args.push(Data::Text(text)) },
                    ),
                    prog: st.prog,
                    labels: st.labels,
                },
            ),
            None => if table.contains_key(text@) {
                Ok(
                    AsmState {
                        pending: Some(
                            SpecCall {
                                name: table[text@].0,
                                inst: table[text@].1,
                                args: Seq::empty(),
                            },
                        ),
                        prog: st.prog,
                        labels: st.labels,
                    },
                )
            } else {
                Err(ParserError::UnfoundInstruction(text))
            },
        },
        Token::Data(d) => match st.pending {
            Some(c) => Ok(
                AsmState {
                    pending: Some(
                        SpecCall {
                            name: c.name,
                            inst: c.inst,
                            args: c.args.push(spec_token_to_data(d)),
                        },
                    ),
                    prog: st.prog,
                    labels: st.labels,
                },
            ),
            None => Err(ParserError::InvalidInstruction(Token::Data(d))),
        },
        Token::NewLine => Ok(asm_flush(st)),
        Token::Symbol(SymbolToken::Semicolon) => Ok(asm_flush(st)),
        Token::Label(l) => {
            let f = asm_flush(st);
            Ok(
                AsmState {
                    pending: None,
                    prog: f.prog,
                    labels: f.labels.insert(l@, f.prog.len() as usize),
                },
            )
        },
        Token::Keyword(KeywordToken::Exit) => match st.pending {
            Some(c) => Ok(
                AsmState {
                    pending: Some(
                        SpecCall {
                            name: c.name,
                            inst: c.inst,
                            args: c.args.push(Data::Text(et)),
                        },
                    ),
                    prog: st.prog,
                    labels: st.labels,
                },
            ),
            None => Ok(
                AsmState {
                    pending: Some(
                        SpecCall { name: en, inst: Instruction::Exit, args: Seq::empty() },
                    ),
                    prog: st.prog,
                    labels: st.labels,
                },
            ),
        },
        Token::Symbol(s) => Err(ParserError::NotAllowed(Token::Symbol(s))),
    }
}

/// Assembly of a whole token sequence from a given state; a still-pending
/// call is flushed at the end of the stream.
pub open spec fn spec_assemble(
    toks: Seq<Token>,
    table: Map<Seq<char>, (InstructionName, Instruction)>,
    en: InstructionName,
    et: String,
    st: AsmState,
) -> Result<AsmState, ParserError>
    decreases toks.len(),
{
    if toks.len() == 0 {
        Ok(asm_flush(st))
    } else {
        match asm_step(st, toks[0], table, en, et) {
            Ok(st2) => spec_assemble(toks.skip(1), table, en, et, st2),
            Err(e) => Err(e),
        }
    }
}

/// Shared shape of the exit witnesses: an interned name and an argument
/// text both reading `exit`.
pub open spec fn exit_witness(en: InstructionName, et: String) -> bool {
    en@ == "exit"@ && et@ == "exit"@
}

/// The fresh assembler state: nothing pending, empty outputs.
pub open spec fn empty_asm_state() -> AsmState {
    AsmState { pending: None, prog: Seq::empty(), labels: Map::empty() }
}

/// A whole-text parse from a fresh state succeeds with this program and
/// label table.
pub open spec fn parse_gives(
    text: Seq<char>,
    table: Map<Seq<char>, (InstructionName, Instruction)>,
    prog: Seq<SpecCall>,
    labels: Map<Seq<char>, usize>,
) -> bool {
    exists|toks: Seq<Token>, en: InstructionName, et: String|
        {
            &&& spec_tokens(text) == Ok::<Seq<TokenView>, int>(token_views(toks))
            &&& exit_witness(en, et)
            &&& spec_assemble(toks, table, en, et, empty_asm_state()) matches Ok(st) && st.prog
                == prog && st.labels == labels
        }
}

/// A whole-text parse from a fresh state fails with this error: lexing
/// fails at its position, or assembly of the lexed tokens fails with it.
pub open spec fn parse_fails(
    text: Seq<char>,
    table: Map<Seq<char>, (InstructionName, Instruction)>,
    e: ParserError,
) -> bool {
    match spec_tokens(text) {
        Err(p) => e matches ParserError::Lex(le) && le.position == p,
        Ok(tvs) => exists|toks: Seq<Token>, en: InstructionName, et: String|
            {
                &&& token_views(toks) == tvs
                &&& exit_witness(en, et)
                &&& spec_assemble(toks, table, en, et, empty_asm_state()) == Err::<
                    AsmState,
                    ParserError,
                >(e)
            },
    }
}

/// The program assembler: resolves bare words against a host-supplied
/// instruction table and produces a program and a label table.
pub struct Parser {
    available_instructions: InstructionMap,
}

impl Parser {
    /// The host-supplied vocabulary: name text to the interned name handle
    /// and the registered instruction.
    pub closed spec fn table(&self) -> Map<Seq<char>, (InstructionName, Instruction)> {
        self.available_instructions.map_view()
    }

    pub fn new() -> (r: Parser)
        ensures
            r.table() == Map::<Seq<char>, (InstructionName, Instruction)>::empty(),
    {
        Parser { available_instructions: InstructionMap::new() }
    }

    /// Parses a whole source text into a fresh program and label table; on
    /// failure no partial program is returned.
    pub fn parse(&self, text: &str) -> (r: Result<(Program, Labels), ParserError>)
        ensures
            match r {
                Ok(out) => parse_gives(text@, self.table(), prog_view(out.0@), out.1.map_view()),
                Err(e) => parse_fails(text@, self.table(), e),
            },
    {
        let mut program: Program = Vec::new();
        let mut labels: Labels = Labels::new();
        proof {
            assert(prog_view(program@) =~= Seq::<SpecCall>::empty());
            assert(labels.map_view() =~= Map::<Seq<char>, usize>::empty());
        }
        match self.parse_text(text, &mut program, &mut labels) {
            Ok(_) => Ok((program, labels)),
            Err(e) => Err(e),
        }
    }

    /// Lexes and assembles a text into the given collections.
    pub fn parse_text(&self, text: &str, program: &mut Program, labels: &mut Labels) -> (r: Result<
        (),
        ParserError,
    >)
        ensures
            match r {
                Ok(_) => exists|toks: Seq<Token>, en: InstructionName, et: String|
                    {
                        &&& spec_tokens(text@) == Ok::<Seq<TokenView>, int>(token_views(toks))
                        &&& exit_witness(en, et)
                        &&& spec_assemble(
                            toks,
                            self.table(),
                            en,
                            et,
                            AsmState {
                                pending: None,
                                prog: prog_view(old(program)@),
                                labels: old(labels).map_view(),
                            },
                        ) matches Ok(st) && prog_view(final(program)@) == st.prog && final(labels).map_view() == st.labels
                    },
                Err(e) => match spec_tokens(text@) {
                    Err(p) => e matches ParserError::Lex(le) && le.position == p
                        && *final(program) == *old(program) && *final(labels) == *old(labels),
                    Ok(tvs) => exists|toks: Seq<Token>, en: InstructionName, et: String|
                        {
                            &&& token_views(toks) == tvs
                            &&& exit_witness(en, et)
                            &&& spec_assemble(
                                toks,
                                self.table(),
                                en,
                                et,
                                AsmState {
                                    pending: None,
                                    prog: prog_view(old(program)@),
                                    labels: old(labels).map_view(),
                                },
                            ) == Err::<AsmState, ParserError>(e)
                        },
                },
            },
    {
        let lexer = build_lexer();
        match lexer.tokens(text) {
            Ok(tokens) => self.parse_tokens(tokens, program, labels),
            Err(le) => Err(ParserError::Lex(le)),
        }
    }

    /// Assembles an already-lexed token sequence into the given collections.
    /// On failure, calls flushed before the offending token remain appended,
    /// as the single left-to-right pass left them.
    pub fn parse_tokens(
        &self,
        tokens: Vec<Token>,
        program: &mut Program,
        labels: &mut Labels,
    ) -> (r: Result<(), ParserError>)
        ensures
            match r {
                Ok(_) => exists|en: InstructionName, et: String|
                    {
                        &&& exit_witness(en, et)
                        &&& spec_assemble(
                            tokens@,
                            self.table(),
                            en,
                            et,
                            AsmState {
                                pending: None,
                                prog: prog_view(old(program)@),
                                labels: old(labels).map_view(),
                            },
                        ) matches Ok(st) && prog_view(final(program)@) == st.prog && final(labels).map_view() == st.labels
                    },
                Err(e) => exists|en: InstructionName, et: String|
                    {
                        &&& exit_witness(en, et)
                        &&& spec_assemble(
                            tokens@,
                            self.table(),
                            en,
                            et,
                            AsmState {
                                pending: None,
                                prog: prog_view(old(program)@),
                                labels: old(labels).map_view(),
                            },
                        ) == Err::<AsmState, ParserError>(e)
                    },
            },
    {
        let ghost table = self.table();
        let exit_name = InstructionName::new(exit_text());
        let exit_arg = exit_text();
        let mut toks = tokens;
        let mut current: Option<InstructionCall> = None;
        let ghost st0 = AsmState {
            pending: None,
            prog: prog_view(program@),
            labels: labels.map_view(),
        };
        while toks.len() > 0
            invariant
                exit_witness(exit_name, exit_arg),
                table == self.table(),
                st0 == (AsmState {
                    pending: None,
                    prog: prog_view(old(program)@),
                    labels: old(labels).map_view(),
                }),
                spec_assemble(tokens@, table, exit_name, exit_arg, st0) == spec_assemble(
                    toks@,
                    table,
                    exit_name,
                    exit_arg,
                    AsmState {
                        pending: pending_view(current),
                        prog: prog_view(program@),
                        labels: labels.map_view(),
                    },
                ),
            decreases toks@.len(),
        {
            let ghost pre_toks = toks@;
            let ghost pre_st = AsmState {
                pending: pending_view(current),
                prog: prog_view(program@),
                labels: labels.map_view(),
            };
            let t = toks.remove(0);
            proof {
                assert(t == pre_toks[0]);
                assert(toks@ =~= pre_toks.skip(1));
            }
            match t {
                Token::Text(text) => {
                    let taken = opt_take(&mut current);
                    match taken {
                        Some(mut inst) => {
                            inst.args.push(Data::Text(text));
                            current = Some(inst);
                        },
                        None => {
                            match self.available_instructions.get_entry(text.as_str()) {
                                Some(kv) => {
                                    current = Some(
                                        InstructionCall::new_with_args(kv.1, Vec::new(), kv.0),
                                    );
                                },
                                None => {
                                    proof {
                                        assert(spec_assemble(
                                            pre_toks,
                                            table,
                                            exit_name,
                                            exit_arg,
                                            pre_st,
                                        ) == Err::<AsmState, ParserError>(
                                            ParserError::UnfoundInstruction(text),
                                        ));
                                    }
                                    return Err(ParserError::UnfoundInstruction(text));
                                },
                            }
                        },
                    }
                },
                Token::Data(d) => {
                    let taken = opt_take(&mut current);
                    match taken {
                        Some(mut inst) => {
                            inst.args.push(token_to_data(d));
                            current = Some(inst);
                        },
                        None => {
                            proof {
                                assert(spec_assemble(pre_toks, table, exit_name, exit_arg, pre_st)
                                    == Err::<AsmState, ParserError>(
                                    ParserError::InvalidInstruction(Token::Data(d)),
                                ));
                            }
                            return Err(ParserError::InvalidInstruction(Token::Data(d)));
                        },
                    }
                },
                Token::NewLine => {
                    flush_pending(&mut current, program);
                },
                Token::Symbol(SymbolToken::Semicolon) => {
                    flush_pending(&mut current, program);
                },
                Token::Label(l) => {
                    flush_pending(&mut current, program);
                    labels.insert_label(l, program.len());
                },
                Token::Keyword(KeywordToken::Exit) => {
                    let taken = opt_take(&mut current);
                    match taken {
                        Some(mut inst) => {
                            inst.args.push(Data::Text(exit_arg.clone()));
                            current = Some(inst);
                        },
                        None => {
                            current = Some(
                                InstructionCall::new_with_args(
                                    Instruction::Exit,
                                    Vec::new(),
                                    exit_name.clone(),
                                ),
                            );
                        },
                    }
                },
                Token::Symbol(s) => {
                    proof {
                        assert(spec_assemble(pre_toks, table, exit_name, exit_arg, pre_st) == Err::<
                            AsmState,
                            ParserError,
                        >(ParserError::NotAllowed(Token::Symbol(s))));
                    }
                    return Err(ParserError::NotAllowed(Token::Symbol(s)));
                },
            }
            proof {
                assert(asm_step(pre_st, pre_toks[0], table, exit_name, exit_arg) matches Ok(st2)
                    && st2 == (AsmState {
                    pending: pending_view(current),
                    prog: prog_view(program@),
                    labels: labels.map_view(),
                }));
            }
        }
        let ghost pre_st = AsmState {
            pending: pending_view(current),
            prog: prog_view(program@),
            labels: labels.map_view(),
        };
        flush_pending(&mut current, program);
        proof {
            assert(toks@.len() == 0);
            assert(spec_assemble(toks@, table, exit_name, exit_arg, pre_st) == Ok::<
                AsmState,
                ParserError,
            >(asm_flush(pre_st)));
            assert(prog_view(program@) == asm_flush(pre_st).prog);
            assert(labels.map_view() == asm_flush(pre_st).labels);
        }
        Ok(())
    }

    /// Registers an instruction under a name.
    pub fn add_instruction(&mut self, key: String, inst: Instruction)
        ensures
            final(self).table().contains_key(key@),
            final(self).table()[key@].0@ == key@,
            final(self).table()[key@].1 == inst,
            forall|k: Seq<char>|
                k != key@ ==> (final(self).table().contains_key(k) == old(self).table().contains_key(k) && (old(self).table().contains_key(k) ==> final(self).table()[k] == old(self).table()[k])),
    {
        let inst_name = InstructionName::new(key);
        self.available_instructions.insert(inst_name, inst);
    }

    /// Registers a host value function under a name.
    pub fn add_rust_function(&mut self, key: String, fun: crate::runtime::FunctionHandle)
        ensures
            final(self).table().contains_key(key@),
            final(self).table()[key@].0@ == key@,
            final(self).table()[key@].1 == Instruction::RustFunction(fun),
            forall|k: Seq<char>|
                k != key@ ==> (final(self).table().contains_key(k) == old(self).table().contains_key(k) && (old(self).table().contains_key(k) ==> final(self).table()[k] == old(self).table()[k])),
    {
        let inst_name = InstructionName::new(key);
        self.available_instructions.insert(inst_name, Instruction::RustFunction(fun));
    }

    /// Registers a host engine-aware instruction under a name.
    pub fn add_rust_instruction(&mut self, key: String, inst: crate::runtime::InstructionHandle)
        ensures
            final(self).table().contains_key(key@),
            final(self).table()[key@].0@ == key@,
            final(self).table()[key@].1 == Instruction::RustInstruction(inst),
            forall|k: Seq<char>|
                k != key@ ==> (final(self).table().contains_key(k) == old(self).table().contains_key(k) && (old(self).table().contains_key(k) ==> final(self).table()[k] == old(self).table()[k])),
    {
        let inst_name = InstructionName::new(key);
        self.available_instructions.insert(inst_name, Instruction::RustInstruction(inst));
    }

    /// Replaces the whole instruction table.
    pub fn set_instructions(&mut self, map: InstructionMap)
        ensures
            final(self).table() == map.map_view(),
    {
        self.available_instructions = map;
    }
}

fn exit_text() -> (r: String)
    ensures
        r@ == "exit"@,
{
    let s: &str = "exit";
    s.to_owned()
}

/// Empties an optional slot, handing its content out.
fn opt_take(slot: &mut Option<InstructionCall>) -> (r: Option<InstructionCall>)
    ensures
        *final(slot) is None,
        r == *old(slot),
{
    let mut taken: Option<InstructionCall> = None;
    core::mem::swap(slot, &mut taken);
    taken
}

/// Appends the pending call, if any, to the program and clears the slot.
fn flush_pending(current: &mut Option<InstructionCall>, program: &mut Program)
    ensures
        *final(current) is None,
        prog_view(final(program)@) == match pending_view(*old(current)) {
            Some(c) => prog_view(old(program)@).push(c),
            None => prog_view(old(program)@),
        },
{
    let taken = opt_take(current);
    match taken {
        Some(c) => {
            let ghost pre = program@;
            program.push(c);
            proof {
                assert(prog_view(program@) =~= prog_view(pre).push(
                    SpecCall { name: c.name, inst: c.inst, args: c.args@ },
                ));
            }
        },
        None => {},
    }
}

} // verus!
