use vstd::prelude::*;

use crate::dump::dump_text;
use crate::runtime::{Data, DataView, InstructionCall, InstructionName, Instruction, jump_dest,
    next_pc};
use crate::parser::{spec_assemble, empty_asm_state};
use crate::tokenizer::{DataToken, Token};
use crate::goto_dest;

verus! {

/// Control transfer lands exactly once on the named index: a jump to a
/// label recorded at index `k` parks the counter at `jump_dest(k)`, and the
/// loop's single post-dispatch increment then fetches exactly index `k`,
/// wherever the jump was issued from.
pub proof fn lemma_goto_label_lands(labels: Map<Seq<char>, usize>, name: Seq<char>, k: usize)
    requires
        labels.contains_key(name),
        labels[name] == k,
    ensures
        next_pc(jump_dest(k)) == k,
{
}

/// The built-in goto: a non-negative integer argument makes the next
/// fetched index exactly that integer; a string or bare word naming a known
/// label makes it exactly the recorded index; a boolean argument leaves the
/// counter where it was, so execution simply continues in sequence.
pub proof fn lemma_builtin_goto_lands(d: DataView, labels: Map<Seq<char>, usize>, pc: usize)
    ensures
        (d matches DataView::Integer(i) && 0 <= i <= usize::MAX as int) ==> next_pc(
            goto_dest(d, labels, pc),
        ) as int == d->Integer_0,
        (d matches DataView::Text(s) && labels.contains_key(s)) ==> next_pc(
            goto_dest(d, labels, pc),
        ) == labels[d->Text_0],
        (d matches DataView::HString(s) && labels.contains_key(s)) ==> next_pc(
            goto_dest(d, labels, pc),
        ) == labels[d->HString_0],
        d is Bool ==> goto_dest(d, labels, pc) == pc,
        d is Nil ==> goto_dest(d, labels, pc) == pc,
{
}

/// The variable store reads back what was stored: defining a name and then
/// reading it gives the defined shape; defining and then assigning the same
/// name updates the stored shape; and the store after an insert always
/// holds the key.  Assigning an unbound name is specified separately by
/// `set_var` itself: it reports `false` and leaves the store untouched.
pub proof fn lemma_var_roundtrip(
    vars: Map<Seq<char>, DataView>,
    k: Seq<char>,
    v: DataView,
    w: DataView,
)
    ensures
        vars.insert(k, v).contains_key(k),
        vars.insert(k, v)[k] == v,
        vars.insert(k, v).insert(k, w)[k] == w,
{
}

/// Prepending `k` instructions shifts a label's recorded offset by exactly
/// `k`, and the shifted offset still names the same logical instruction in
/// the longer program.
pub proof fn lemma_prepend_preserves_labels(
    pre: Seq<InstructionCall>,
    post: Seq<InstructionCall>,
    ins: Seq<InstructionCall>,
    o: usize,
)
    requires
        post == ins + pre,
        o < pre.len(),
    ensures
        post[o + ins.len()] == pre[o as int],
{
}

/// For any instruction table that binds `foo`, assembling the token stream
/// of `foo 1 2 3` and a line end yields a program of exactly one call: the
/// one resolved from the table under `foo`, with the integer arguments 1,
/// 2, 3, in order, and no labels.
pub proof fn lemma_assemble_one_call(
    table: Map<Seq<char>, (InstructionName, Instruction)>,
    en: InstructionName,
    et: String,
    toks: Seq<Token>,
    ft: String,
)
    requires
        ft@ == "foo"@,
        table.contains_key("foo"@),
        toks.len() == 5,
        toks[0] == Token::Text(ft),
        toks[1] == Token::Data(DataToken::Integer(1i64)),
        toks[2] == Token::Data(DataToken::Integer(2i64)),
        toks[3] == Token::Data(DataToken::Integer(3i64)),
        toks[4] == Token::NewLine,
    ensures
        spec_assemble(toks, table, en, et, empty_asm_state()) matches Ok(st) && st.prog.len() == 1
            && st.prog[0].name == table["foo"@].0 && st.prog[0].inst == table["foo"@].1
            && st.prog[0].args == seq![
            Data::Integer(1i64),
            Data::Integer(2i64),
            Data::Integer(3i64),
        ] && st.labels == Map::<Seq<char>, usize>::empty(),
{
    reveal_with_fuel(spec_assemble, 7);
    let s1 = toks.skip(1);
    let s2 = toks.skip(2);
    let s3 = toks.skip(3);
    let s4 = toks.skip(4);
    let s5 = toks.skip(5);
    assert(s1[0] == toks[1] && s2[0] == toks[2] && s3[0] == toks[3] && s4[0] == toks[4]);
    assert(s1.skip(1) =~= s2);
    assert(s2.skip(1) =~= s3);
    assert(s3.skip(1) =~= s4);
    assert(s4.skip(1) =~= s5);
    assert(s5.len() == 0);
    let st = spec_assemble(toks, table, en, et, empty_asm_state());
    assert(st matches Ok(f) && f.prog.len() == 1 && f.prog[0].args =~= seq![
        Data::Integer(1i64),
        Data::Integer(2i64),
        Data::Integer(3i64),
    ] && f.labels =~= Map::<Seq<char>, usize>::empty());
}

/// For any instruction table that binds `foo`, assembling a label line `a:`
/// followed by a bare `foo` line yields the label `a` recorded at index 0
/// and a one-call program.
pub proof fn lemma_assemble_labelled_call(
    table: Map<Seq<char>, (InstructionName, Instruction)>,
    en: InstructionName,
    et: String,
    toks: Seq<Token>,
    la: String,
    ft: String,
)
    requires
        la@ == "a"@,
        ft@ == "foo"@,
        table.contains_key("foo"@),
        toks.len() == 3,
        toks[0] == Token::Label(la),
        toks[1] == Token::Text(ft),
        toks[2] == Token::NewLine,
    ensures
        spec_assemble(toks, table, en, et, empty_asm_state()) matches Ok(st) && st.prog.len() == 1
            && st.prog[0].name == table["foo"@].0 && st.prog[0].args.len() == 0 && st.labels
            == Map::<Seq<char>, usize>::empty().insert("a"@, 0usize),
{
    reveal_with_fuel(spec_assemble, 5);
    let s1 = toks.skip(1);
    let s2 = toks.skip(2);
    let s3 = toks.skip(3);
    assert(s1[0] == toks[1] && s2[0] == toks[2]);
    assert(s1.skip(1) =~= s2);
    assert(s2.skip(1) =~= s3);
    assert(s3.len() == 0);
    let st = spec_assemble(toks, table, en, et, empty_asm_state());
    assert(st matches Ok(f) && f.prog.len() == 1 && f.prog[0].args.len() == 0);
}

/// Dumping is deterministic: the rendered text is a function of the
/// program and the label table alone, so repeated dumps of an unchanged
/// engine are byte-identical.
pub proof fn lemma_dump_deterministic(
    a: Seq<char>,
    b: Seq<char>,
    prog: Seq<InstructionCall>,
    entries: Seq<(Seq<char>, usize)>,
)
    requires
        a == dump_text(prog, entries),
        b == dump_text(prog, entries),
    ensures
        a == b,
{
}

} // verus!
