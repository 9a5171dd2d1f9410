use vstd::prelude::*;

verus! {

use crate::runtime::push_char;

/// A lexical unit of the source text.  Produced transiently; the parser
/// consumes the whole sequence in one pass.
#[derive(Debug, PartialEq)]
pub enum Token {
    Data(DataToken),
    Keyword(KeywordToken),
    Text(String),
    Symbol(SymbolToken),
    Label(String),
    NewLine,
}

#[derive(Debug, PartialEq, Eq, Structural, Clone, Copy)]
pub enum KeywordToken {
    Exit,
}

/// A literal value as written in the source.  A float literal keeps its
/// source text, sign and digits exactly as written.
#[derive(Debug, PartialEq)]
pub enum DataToken {
    Bool(bool),
    Integer(i64),
    Float(String),
    Character(char),
    Str(String),
    Nil,
}

#[derive(Debug, PartialEq, Eq, Structural, Clone, Copy)]
pub enum SymbolToken {
    RoundOpen,
    RoundClose,
    Semicolon,
}

/// The mathematical shape of a token: strings become character sequences.
pub enum TokenView {
    Data(DataTokenView),
    Keyword(KeywordToken),
    Text(Seq<char>),
    Symbol(SymbolToken),
    Label(Seq<char>),
    NewLine,
}

pub enum DataTokenView {
    Bool(bool),
    Integer(int),
    Float(Seq<char>),
    Character(char),
    Str(Seq<char>),
    Nil,
}

impl View for DataToken {
    type V = DataTokenView;

    open spec fn view(&self) -> DataTokenView {
        match self {
            DataToken::Bool(b) => DataTokenView::Bool(*b),
            DataToken::Integer(i) => DataTokenView::Integer(*i as int),
            DataToken::Float(s) => DataTokenView::Float(s@),
            DataToken::Character(c) => DataTokenView::Character(*c),
            DataToken::Str(s) => DataTokenView::Str(s@),
            DataToken::Nil => DataTokenView::Nil,
        }
    }
}

impl View for Token {
    type V = TokenView;

    open spec fn view(&self) -> TokenView {
        match self {
            Token::Data(d) => TokenView::Data(d@),
            Token::Keyword(k) => TokenView::Keyword(*k),
            Token::Text(s) => TokenView::Text(s@),
            Token::Symbol(s) => TokenView::Symbol(*s),
            Token::Label(s) => TokenView::Label(s@),
            Token::NewLine => TokenView::NewLine,
        }
    }
}

pub open spec fn token_views(s: Seq<Token>) -> Seq<TokenView> {
    s.map_values(|t: Token| t@)
}

/// Lexing failed: no rule matches at this character position.
#[derive(Debug, PartialEq, Eq, Structural, Clone, Copy)]
pub struct LexError {
    pub position: usize,
}

// ---------------------------------------------------------------------------
// Character classes
// ---------------------------------------------------------------------------
pub open spec fn is_space(c: char) -> bool {
    c == ' ' || c == '\t' || c == '\r' || c == '\u{000b}' || c == '\u{000c}'
}

pub open spec fn is_digit(c: char) -> bool {
    48 <= c as u32 && c as u32 <= 57
}

pub open spec fn is_word_start(c: char) -> bool {
    (97 <= c as u32 && c as u32 <= 122) || (65 <= c as u32 && c as u32 <= 90) || c == '_'
}

pub open spec fn is_word_char(c: char) -> bool {
    is_word_start(c) || is_digit(c)
}

fn space_char(c: char) -> (r: bool)
    ensures
        r == is_space(c),
{
    c == ' ' || c == '\t' || c == '\r' || c == '\u{000b}' || c == '\u{000c}'
}

fn digit_char(c: char) -> (r: bool)
    ensures
        r == is_digit(c),
{
    let u = c as u32;
    48 <= u && u <= 57
}

fn word_start_char(c: char) -> (r: bool)
    ensures
        r == is_word_start(c),
{
    let u = c as u32;
    (97 <= u && u <= 122) || (65 <= u && u <= 90) || c == '_'
}

fn word_char(c: char) -> (r: bool)
    ensures
        r == is_word_char(c),
{
    word_start_char(c) || digit_char(c)
}

// ---------------------------------------------------------------------------
// Scanning: spec functions and their exec mirrors
// ---------------------------------------------------------------------------
/// The first position at or after `i` holding `c`, or the end of input.
pub open spec fn find_char(cs: Seq<char>, i: int, c: char) -> int
    decreases cs.len() - i,
{
    if i < 0 || i >= cs.len() {
        cs.len() as int
    } else if cs[i] == c {
        i
    } else {
        find_char(cs, i + 1, c)
    }
}

/// The first position at or after `i` whose character fails `is_digit`.
pub open spec fn digits_end(cs: Seq<char>, i: int) -> int
    decreases cs.len() - i,
{
    if i < 0 || i >= cs.len() {
        cs.len() as int
    } else if is_digit(cs[i]) {
        digits_end(cs, i + 1)
    } else {
        i
    }
}

/// The first position at or after `i` whose character fails `is_word_char`.
pub open spec fn word_end(cs: Seq<char>, i: int) -> int
    decreases cs.len() - i,
{
    if i < 0 || i >= cs.len() {
        cs.len() as int
    } else if is_word_char(cs[i]) {
        word_end(cs, i + 1)
    } else {
        i
    }
}

/// The first position at or after `i` whose character fails `is_space`.
pub open spec fn spaces_end(cs: Seq<char>, i: int) -> int
    decreases cs.len() - i,
{
    if i < 0 || i >= cs.len() {
        cs.len() as int
    } else if is_space(cs[i]) {
        spaces_end(cs, i + 1)
    } else {
        i
    }
}

proof fn lemma_scan_bounds(cs: Seq<char>, i: int)
    requires
        0 <= i <= cs.len(),
    ensures
        i <= find_char(cs, i, '\n') <= cs.len(),
        i <= digits_end(cs, i) <= cs.len(),
        i <= word_end(cs, i) <= cs.len(),
        i <= spaces_end(cs, i) <= cs.len(),
    decreases cs.len() - i,
{
    if i < cs.len() {
        lemma_scan_bounds(cs, i + 1);
    }
}

fn exec_find_char(cs: &Vec<char>, from: usize, c: char) -> (r: usize)
    requires
        from <= cs@.len(),
    ensures
        r == find_char(cs@, from as int, c),
        from <= r <= cs@.len(),
{
    let mut i: usize = from;
    while i < cs.len()
        invariant
            from <= i <= cs@.len(),
            find_char(cs@, from as int, c) == find_char(cs@, i as int, c),
        decreases cs@.len() - i,
    {
        if cs[i] == c {
            return i;
        }
        i = i + 1;
    }
    i
}

fn exec_digits_end(cs: &Vec<char>, from: usize) -> (r: usize)
    requires
        from <= cs@.len(),
    ensures
        r == digits_end(cs@, from as int),
        from <= r <= cs@.len(),
{
    let mut i: usize = from;
    while i < cs.len()
        invariant
            from <= i <= cs@.len(),
            digits_end(cs@, from as int) == digits_end(cs@, i as int),
        decreases cs@.len() - i,
    {
        if !digit_char(cs[i]) {
            return i;
        }
        i = i + 1;
    }
    i
}

fn exec_word_end(cs: &Vec<char>, from: usize) -> (r: usize)
    requires
        from <= cs@.len(),
    ensures
        r == word_end(cs@, from as int),
        from <= r <= cs@.len(),
{
    let mut i: usize = from;
    while i < cs.len()
        invariant
            from <= i <= cs@.len(),
            word_end(cs@, from as int) == word_end(cs@, i as int),
        decreases cs@.len() - i,
    {
        if !word_char(cs[i]) {
            return i;
        }
        i = i + 1;
    }
    i
}

fn exec_spaces_end(cs: &Vec<char>, from: usize) -> (r: usize)
    requires
        from <= cs@.len(),
    ensures
        r == spaces_end(cs@, from as int),
        from <= r <= cs@.len(),
{
    let mut i: usize = from;
    while i < cs.len()
        invariant
            from <= i <= cs@.len(),
            spaces_end(cs@, from as int) == spaces_end(cs@, i as int),
        decreases cs@.len() - i,
    {
        if !space_char(cs[i]) {
            return i;
        }
        i = i + 1;
    }
    i
}

// ---------------------------------------------------------------------------
// Digit strings
// ---------------------------------------------------------------------------
/// The base-ten value of a digit string.
pub open spec fn digits_val(s: Seq<char>) -> int
    decreases s.len(),
{
    if s.len() == 0 {
        0
    } else {
        digits_val(s.drop_last()) * 10 + (s.last() as u32 - 48)
    }
}

proof fn lemma_digits_val_nonneg(s: Seq<char>)
    requires
        forall|j: int| 0 <= j < s.len() ==> is_digit(s[j]),
    ensures
        digits_val(s) >= 0,
    decreases s.len(),
{
    if s.len() > 0 {
        lemma_digits_val_nonneg(s.drop_last());
    }
}

proof fn lemma_digits_val_extend(s: Seq<char>, a: int, b: int, b2: int)
    requires
        0 <= a <= b <= b2 <= s.len(),
        forall|j: int| a <= j < b2 ==> is_digit(s[j]),
    ensures
        digits_val(s.subrange(a, b2)) >= digits_val(s.subrange(a, b)),
    decreases b2 - b,
{
    if b2 > b {
        lemma_digits_val_extend(s, a, b, b2 - 1);
        assert(s.subrange(a, b2).drop_last() =~= s.subrange(a, b2 - 1));
        assert forall|j: int| 0 <= j < s.subrange(a, b2 - 1).len() implies is_digit(
            #[trigger] s.subrange(a, b2 - 1)[j],
        ) by {
            assert(s.subrange(a, b2 - 1)[j] == s[a + j]);
        }
        lemma_digits_val_nonneg(s.subrange(a, b2 - 1));
    }
}

/// The value of the digit run `cs[start..end]`, or `None` when it does not
/// fit a `u64`.
fn parse_digits(cs: &Vec<char>, start: usize, end: usize) -> (r: Option<u64>)
    requires
        start <= end <= cs@.len(),
        forall|j: int| start <= j < end ==> is_digit(cs@[j]),
    ensures
        match r {
            Some(v) => v == digits_val(cs@.subrange(start as int, end as int)),
            None => digits_val(cs@.subrange(start as int, end as int)) > u64::MAX,
        },
{
    let mut acc: u64 = 0;
    let mut i: usize = start;
    while i < end
        invariant
            start <= i <= end <= cs@.len(),
            forall|j: int| start <= j < end ==> is_digit(cs@[j]),
            acc == digits_val(cs@.subrange(start as int, i as int)),
        decreases end - i,
    {
        let d: u32 = (cs[i] as u32) - 48;
        proof {
            assert(is_digit(cs@[i as int]));
            assert(cs@.subrange(start as int, i as int + 1).drop_last() =~= cs@.subrange(
                start as int,
                i as int,
            ));
        }
        if acc > u64::MAX / 10 || (acc == u64::MAX / 10 && (d as u64) > u64::MAX % 10) {
            proof {
                assert(digits_val(cs@.subrange(start as int, i as int + 1)) > u64::MAX);
                lemma_digits_val_extend(cs@, start as int, i as int + 1, end as int);
            }
            return None;
        }
        acc = acc * 10 + (d as u64);
        i = i + 1;
    }
    Some(acc)
}

// ---------------------------------------------------------------------------
// Quoted strings
// ---------------------------------------------------------------------------
/// Unescaping of a quoted string's body: each two-character `\n` sequence
/// becomes a newline character; nothing else is rewritten.
pub open spec fn unescape_from(s: Seq<char>, i: int) -> Seq<char>
    decreases s.len() - i,
{
    if i < 0 || i >= s.len() {
        Seq::empty()
    } else if s[i] == '\\' && i + 1 < s.len() && s[i + 1] == 'n' {
        seq!['\n'].add(unescape_from(s, i + 2))
    } else {
        seq![s[i]].add(unescape_from(s, i + 1))
    }
}

fn unescape(cs: &Vec<char>, start: usize, end: usize) -> (r: String)
    requires
        start <= end <= cs@.len(),
    ensures
        r@ == unescape_from(cs@.subrange(start as int, end as int), 0),
{
    let ghost body = cs@.subrange(start as int, end as int);
    let mut out = String::new();
    let mut k: usize = 0;
    while k < end - start
        invariant
            start <= end <= cs@.len(),
            body == cs@.subrange(start as int, end as int),
            k <= end - start,
            unescape_from(body, 0) == out@ + unescape_from(body, k as int),
        decreases end - start - k,
    {
        let c = cs[start + k];
        proof {
            assert(body[k as int] == cs@[start + k]);
        }
        if c == '\\' && k + 1 < end - start && cs[start + k + 1] == 'n' {
            proof {
                assert(body[k as int + 1] == cs@[start + k + 1]);
                assert(unescape_from(body, k as int) == seq!['\n'].add(
                    unescape_from(body, k as int + 2),
                ));
                assert(out@ + seq!['\n'].add(unescape_from(body, k + 2)) =~= out@.push('\n')
                    + unescape_from(body, k + 2));
            }
            push_char(&mut out, '\n');
            k = k + 2;
        } else {
            proof {
                assert(unescape_from(body, k as int) == seq![body[k as int]].add(
                    unescape_from(body, k as int + 1),
                ));
                assert(out@ + seq![body[k as int]].add(unescape_from(body, k + 1)) =~= out@.push(
                    body[k as int],
                ) + unescape_from(body, k + 1));
            }
            push_char(&mut out, c);
            k = k + 1;
        }
    }
    proof {
        assert(out@ + unescape_from(body, k as int) =~= out@);
    }
    out
}

/// Builds the string holding `cs[start..end]`.
fn substring(cs: &Vec<char>, start: usize, end: usize) -> (r: String)
    requires
        start <= end <= cs@.len(),
    ensures
        r@ == cs@.subrange(start as int, end as int),
{
    let mut out = String::new();
    let mut k: usize = start;
    while k < end
        invariant
            start <= k <= end <= cs@.len(),
            out@ == cs@.subrange(start as int, k as int),
        decreases end - k,
    {
        proof {
            assert(cs@.subrange(start as int, k as int + 1) =~= cs@.subrange(
                start as int,
                k as int,
            ).push(cs@[k as int]));
        }
        push_char(&mut out, cs[k]);
        k = k + 1;
    }
    out
}

/// Relies on `str::chars`: the characters of the slice, in order.
#[verifier::external_body]
fn chars_of(s: &str) -> (r: Vec<char>)
    ensures
        r@ == s@,
{
    s.chars().collect()
}

// ---------------------------------------------------------------------------
// One lexing step
// ---------------------------------------------------------------------------
/// Whether a position sits at the start of a line.
pub open spec fn at_line_start(cs: Seq<char>, i: int) -> bool {
    i == 0 || cs[i - 1] == '\n'
}

/// The outcome of one lexing step at a position: emit a token and move on,
/// consume silently and move on, or fail because no rule matches.
pub enum LexStep {
    Emit(int, TokenView),
    Skip(int),
    Fail,
}

/// One step of the lexer at position `i`: longest match wins, and the
/// keyword, boolean and absent-value rules take priority over the bare-word
/// rule on an exact tie.  A label is a bare word at line start followed by a
/// colon and, after optional blanks, a line terminator.
pub open spec fn spec_step(cs: Seq<char>, i: int) -> LexStep {
    let c = cs[i];
    if c == '\n' {
        LexStep::Emit(i + 1, TokenView::NewLine)
    } else if is_space(c) {
        LexStep::Skip(i + 1)
    } else if c == ';' {
        LexStep::Emit(i + 1, TokenView::Symbol(SymbolToken::Semicolon))
    } else if c == '(' {
        LexStep::Emit(i + 1, TokenView::Symbol(SymbolToken::RoundOpen))
    } else if c == ')' {
        LexStep::Emit(i + 1, TokenView::Symbol(SymbolToken::RoundClose))
    } else if c == '#' {
        let j = find_char(cs, i + 1, '\n');
        if j < cs.len() {
            LexStep::Skip(j + 1)
        } else {
            LexStep::Fail
        }
    } else if c == '\'' {
        if i + 2 < cs.len() && cs[i + 1] != '\n' && cs[i + 2] == '\'' {
            LexStep::Emit(i + 3, TokenView::Data(DataTokenView::Character(cs[i + 1])))
        } else {
            LexStep::Fail
        }
    } else if c == '"' {
        let j = find_char(cs, i + 1, '"');
        let nl = find_char(cs, i + 1, '\n');
        if j < cs.len() && j < nl {
            LexStep::Emit(
                j + 1,
                TokenView::Data(DataTokenView::Str(unescape_from(cs.subrange(i + 1, j), 0))),
            )
        } else {
            LexStep::Fail
        }
    } else if c == '-' || is_digit(c) {
        if c == '-' && (i + 1 >= cs.len() || !is_digit(cs[i + 1])) {
            LexStep::Fail
        } else {
            let d0 = if c == '-' {
                i + 1
            } else {
                i
            };
            let j = digits_end(cs, d0);
            if j < cs.len() && cs[j] == '.' && j + 1 < cs.len() && is_digit(cs[j + 1]) {
                let k = digits_end(cs, j + 1);
                LexStep::Emit(k, TokenView::Data(DataTokenView::Float(cs.subrange(i, k))))
            } else {
                let v = digits_val(cs.subrange(d0, j));
                let sv = if c == '-' {
                    -v
                } else {
                    v
                };
                if -0x8000_0000_0000_0000 <= sv && sv < 0x8000_0000_0000_0000 {
                    LexStep::Emit(j, TokenView::Data(DataTokenView::Integer(sv)))
                } else {
                    LexStep::Fail
                }
            }
        }
    } else if is_word_start(c) {
        let j = word_end(cs, i);
        let w = cs.subrange(i, j);
        let t = spaces_end(cs, j + 1);
        if at_line_start(cs, i) && j < cs.len() && cs[j] == ':' && t < cs.len() && cs[t] == '\n' {
            LexStep::Emit(t + 1, TokenView::Label(w))
        } else if w == "exit"@ {
            LexStep::Emit(j, TokenView::Keyword(KeywordToken::Exit))
        } else if w == "true"@ {
            LexStep::Emit(j, TokenView::Data(DataTokenView::Bool(true)))
        } else if w == "false"@ {
            LexStep::Emit(j, TokenView::Data(DataTokenView::Bool(false)))
        } else if w == "none"@ {
            LexStep::Emit(j, TokenView::Data(DataTokenView::Nil))
        } else {
            LexStep::Emit(j, TokenView::Text(w))
        }
    } else {
        LexStep::Fail
    }
}

/// The whole lexing of `cs` from position `i`, with tokens already produced
/// in `acc`: the token shapes in order, or the position where no rule
/// matches.
pub open spec fn spec_lex_acc(cs: Seq<char>, i: int, acc: Seq<TokenView>) -> Result<
    Seq<TokenView>,
    int,
>
    decreases cs.len() - i,
{
    if i < 0 || i >= cs.len() {
        Ok(acc)
    } else {
        match spec_step(cs, i) {
            LexStep::Emit(j, t) => {
                let j2 = if j <= i {
                    i + 1
                } else if j > cs.len() {
                    cs.len() as int
                } else {
                    j
                };
                spec_lex_acc(cs, j2, acc.push(t))
            },
            LexStep::Skip(j) => {
                let j2 = if j <= i {
                    i + 1
                } else if j > cs.len() {
                    cs.len() as int
                } else {
                    j
                };
                spec_lex_acc(cs, j2, acc)
            },
            LexStep::Fail => Err(i),
        }
    }
}

/// The lexing of a whole text: its token shapes in order, or the first
/// position at which no rule matches.
pub open spec fn spec_tokens(cs: Seq<char>) -> Result<Seq<TokenView>, int> {
    spec_lex_acc(cs, 0, Seq::empty())
}

enum StepOutcome {
    Produce(usize, Token),
    Advance(usize),
    Reject,
}

fn exec_step(cs: &Vec<char>, i: usize) -> (r: StepOutcome)
    requires
        i < cs@.len(),
    ensures
        match r {
            StepOutcome::Produce(j, t) => spec_step(cs@, i as int) == LexStep::Emit(j as int, t@)
                && i < j <= cs@.len(),
            StepOutcome::Advance(j) => spec_step(cs@, i as int) == LexStep::Skip(j as int) && i < j
                <= cs@.len(),
            StepOutcome::Reject => spec_step(cs@, i as int) is Fail,
        },
{
    let n = cs.len();
    let c = cs[i];
    if c == '\n' {
        StepOutcome::Produce(i + 1, Token::NewLine)
    } else if space_char(c) {
        StepOutcome::Advance(i + 1)
    } else if c == ';' {
        StepOutcome::Produce(i + 1, Token::Symbol(SymbolToken::Semicolon))
    } else if c == '(' {
        StepOutcome::Produce(i + 1, Token::Symbol(SymbolToken::RoundOpen))
    } else if c == ')' {
        StepOutcome::Produce(i + 1, Token::Symbol(SymbolToken::RoundClose))
    } else if c == '#' {
        let j = exec_find_char(cs, i + 1, '\n');
        if j < cs.len() {
            StepOutcome::Advance(j + 1)
        } else {
            StepOutcome::Reject
        }
    } else if c == '\'' {
        if n - i > 2 && cs[i + 1] != '\n' && cs[i + 2] == '\'' {
            proof {
                assert(i + 2 < cs@.len());
            }
            StepOutcome::Produce(i + 3, Token::Data(DataToken::Character(cs[i + 1])))
        } else {
            StepOutcome::Reject
        }
    } else if c == '"' {
        let j = exec_find_char(cs, i + 1, '"');
        let nl = exec_find_char(cs, i + 1, '\n');
        if j < cs.len() && j < nl {
            StepOutcome::Produce(j + 1, Token::Data(DataToken::Str(unescape(cs, i + 1, j))))
        } else {
            StepOutcome::Reject
        }
    } else if c == '-' || digit_char(c) {
        if c == '-' && (i + 1 >= cs.len() || !digit_char(cs[i + 1])) {
            StepOutcome::Reject
        } else {
            let d0 = if c == '-' {
                i + 1
            } else {
                i
            };
            let j = exec_digits_end(cs, d0);
            proof {
                lemma_scan_bounds(cs@, i as int + 1);
                assert(j > i);
            }
            if j < cs.len() && cs[j] == '.' && j + 1 < cs.len() && digit_char(cs[j + 1]) {
                let k = exec_digits_end(cs, j + 1);
                StepOutcome::Produce(k, Token::Data(DataToken::Float(substring(cs, i, k))))
            } else {
                proof {
                    lemma_digits_end_digits(cs@, d0 as int);
                }
                match parse_digits(cs, d0, j) {
                    Some(v) => {
                        if c == '-' {
                            if v <= 0x8000_0000_0000_0000u64 {
                                let sv: i64 = if v == 0x8000_0000_0000_0000u64 {
                                    i64::MIN
                                } else {
                                    -(v as i64)
                                };
                                StepOutcome::Produce(j, Token::Data(DataToken::Integer(sv)))
                            } else {
                                StepOutcome::Reject
                            }
                        } else {
                            if v <= 0x7fff_ffff_ffff_ffffu64 {
                                StepOutcome::Produce(
                                    j,
                                    Token::Data(DataToken::Integer(v as i64)),
                                )
                            } else {
                                StepOutcome::Reject
                            }
                        }
                    },
                    None => StepOutcome::Reject,
                }
            }
        }
    } else if word_start_char(c) {
        let j = exec_word_end(cs, i);
        proof {
            lemma_scan_bounds(cs@, i as int + 1);
            assert(j > i);
        }
        let line_start = i == 0 || cs[i - 1] == '\n';
        let mut is_label = false;
        let mut after: usize = 0;
        if line_start && j < cs.len() && cs[j] == ':' {
            let t = exec_spaces_end(cs, j + 1);
            if t < cs.len() && cs[t] == '\n' {
                is_label = true;
                after = t + 1;
            }
        }
        let w = substring(cs, i, j);
        if is_label {
            StepOutcome::Produce(after, Token::Label(w))
        } else if str_eq_word(&w, "exit") {
            StepOutcome::Produce(j, Token::Keyword(KeywordToken::Exit))
        } else if str_eq_word(&w, "true") {
            StepOutcome::Produce(j, Token::Data(DataToken::Bool(true)))
        } else if str_eq_word(&w, "false") {
            StepOutcome::Produce(j, Token::Data(DataToken::Bool(false)))
        } else if str_eq_word(&w, "none") {
            StepOutcome::Produce(j, Token::Data(DataToken::Nil))
        } else {
            StepOutcome::Produce(j, Token::Text(w))
        }
    } else {
        StepOutcome::Reject
    }
}

proof fn lemma_digits_end_digits(cs: Seq<char>, i: int)
    requires
        0 <= i <= cs.len(),
    ensures
        forall|j: int| i <= j < digits_end(cs, i) ==> is_digit(cs[j]),
    decreases cs.len() - i,
{
    if i < cs.len() && is_digit(cs[i]) {
        lemma_digits_end_digits(cs, i + 1);
    }
}

fn str_eq_word(w: &String, kw: &str) -> (r: bool)
    ensures
        r == (w@ == kw@),
{
    crate::runtime::str_eq(w.as_str(), kw)
}

/// The lexer: a fixed rule set over the grammar's lexical forms.
pub struct Lexer;

/// Builds the lexer.  The rule set is fixed, so construction cannot fail.
pub fn build_lexer() -> (r: Lexer) {
    Lexer
}

impl Lexer {
    /// Lexes a whole text into its ordered token list, or reports the first
    /// position at which no lexical rule matches.
    pub fn tokens(&self, text: &str) -> (r: Result<Vec<Token>, LexError>)
        ensures
            match r {
                Ok(v) => spec_tokens(text@) == Ok::<Seq<TokenView>, int>(token_views(v@)),
                Err(e) => spec_tokens(text@) == Err::<Seq<TokenView>, int>(e.position as int)
                    && e.position < text@.len(),
            },
    {
        let cs = chars_of(text);
        let mut out: Vec<Token> = Vec::new();
        proof {
            assert(token_views(out@) =~= Seq::<TokenView>::empty());
        }
        let mut i: usize = 0;
        while i < cs.len()
            invariant
                cs@ == text@,
                i <= cs@.len(),
                spec_tokens(text@) == spec_lex_acc(cs@, i as int, token_views(out@)),
            decreases cs@.len() - i,
        {
            match exec_step(&cs, i) {
                StepOutcome::Produce(j, t) => {
                    proof {
                        assert(token_views(out@.push(t)) =~= token_views(out@).push(t@));
                    }
                    out.push(t);
                    i = j;
                },
                StepOutcome::Advance(j) => {
                    i = j;
                },
                StepOutcome::Reject => {
                    return Err(LexError { position: i });
                },
            }
        }
        Ok(out)
    }
}


} // verus!
