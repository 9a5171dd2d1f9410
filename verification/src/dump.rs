use vstd::prelude::*;

use crate::runtime::{push_char, Data, InstructionCall, Labels, Program, Runtime};

verus! {

use vstd::string::StringExecFns;

// ---------------------------------------------------------------------------
// Decimal rendering
// ---------------------------------------------------------------------------
/// The decimal digits of a natural number, most significant first.
pub open spec fn dec_text(n: nat) -> Seq<char>
    decreases n,
{
    if n < 10 {
        seq![((48 + n) as u8) as char]
    } else {
        dec_text(n / 10).push(((48 + n % 10) as u8) as char)
    }
}

/// The decimal rendering of an integer, with a leading minus sign when
/// negative.
pub open spec fn int_text(i: int) -> Seq<char> {
    if i < 0 {
        seq!['-'] + dec_text((-i) as nat)
    } else {
        dec_text(i as nat)
    }
}

fn push_dec(out: &mut String, n: u64)
    ensures
        final(out)@ == old(out)@ + dec_text(n as nat),
    decreases n,
{
    if n < 10 {
        let c = ((48 + n) as u8) as char;
        push_char(out, c);
        proof {
            assert(old(out)@ + dec_text(n as nat) =~= old(out)@.push(((48 + n) as u8) as char));
        }
    } else {
        push_dec(out, n / 10);
        let c = ((48 + n % 10) as u8) as char;
        push_char(out, c);
        proof {
            assert(old(out)@ + dec_text(n as nat) =~= (old(out)@ + dec_text((n / 10) as nat)).push(
                ((48 + n % 10) as u8) as char,
            ));
        }
    }
}

fn push_int(out: &mut String, i: i64)
    ensures
        final(out)@ == old(out)@ + int_text(i as int),
{
    if i < 0 {
        push_char(out, '-');
        let mag: u64 = if i == i64::MIN {
            9223372036854775808u64
        } else {
            (-i) as u64
        };
        push_dec(out, mag);
        proof {
            assert(old(out)@ + int_text(i as int) =~= old(out)@.push('-') + dec_text(
                (-(i as int)) as nat,
            ));
        }
    } else {
        push_dec(out, i as u64);
    }
}

// ---------------------------------------------------------------------------
// Value rendering
// ---------------------------------------------------------------------------
/// A value as it displays inside an argument list: strings bare, the absent
/// value as `NONE`, arrays as their elements each followed by a space.
pub open spec fn disp_text(d: Data) -> Seq<char>
    decreases d,
{
    match d {
        Data::Integer(i) => int_text(i as int),
        Data::Float(s) => s@,
        Data::HString(s) => s@,
        Data::Text(s) => s@,
        Data::Bool(b) => if b {
            "true"@
        } else {
            "false"@
        },
        Data::Char(c) => seq![c],
        Data::Array(v) => arr_text(v@),
        Data::Nil => "NONE"@,
    }
}

/// The elements of an array, each displayed and followed by a space.
pub open spec fn arr_text(s: Seq<Data>) -> Seq<char>
    decreases s,
{
    if s.len() == 0 {
        Seq::empty()
    } else {
        arr_text(s.drop_last()) + disp_text(s.last()) + " "@
    }
}

/// A value as a dumped program argument: like its display form followed by
/// one space, except that a quoted-string value is wrapped in quotes again
/// and an array stands as its element run.
pub open spec fn dump_arg_text(d: Data) -> Seq<char> {
    match d {
        Data::HString(s) => seq!['"'] + s@ + seq!['"'] + " "@,
        Data::Array(v) => arr_text(v@),
        _ => disp_text(d) + " "@,
    }
}

fn push_disp(out: &mut String, d: &Data)
    ensures
        final(out)@ == old(out)@ + disp_text(*d),
    decreases d,
{
    match d {
        Data::Integer(i) => {
            push_int(out, *i);
        },
        Data::Float(s) => {
            out.append(s.as_str());
        },
        Data::HString(s) => {
            out.append(s.as_str());
        },
        Data::Text(s) => {
            out.append(s.as_str());
        },
        Data::Bool(b) => {
            if *b {
                out.append("true");
            } else {
                out.append("false");
            }
        },
        Data::Char(c) => {
            push_char(out, *c);
            proof {
                assert(old(out)@ + seq![*c] =~= old(out)@.push(*c));
            }
        },
        Data::Array(v) => {
            let mut j: usize = 0;
            while j < v.len()
                invariant
                    *d == Data::Array(*v),
                    j <= v.len(),
                    out@ == old(out)@ + arr_text(v@.subrange(0, j as int)),
                decreases v.len() - j,
            {
                proof {
                    broadcast use vstd::std_specs::vec::axiom_vec_index_decreases;

                    assert(decreases_to!(*d => d->Array_0));
                    assert(decreases_to!(*v => v[j as int]));
                    assert(decreases_to!(*d => v[j as int]));
                }
                let ghost pre = out@;
                push_disp(out, &v[j]);
                out.append(" ");
                proof {
                    assert(v@.subrange(0, j as int + 1).drop_last() =~= v@.subrange(0, j as int));
                    assert(v@.subrange(0, j as int + 1).last() == v@[j as int]);
                    assert(out@ =~= old(out)@ + arr_text(v@.subrange(0, j as int + 1)));
                }
                j = j + 1;
            }
            proof {
                assert(v@.subrange(0, v@.len() as int) =~= v@);
            }
        },
        Data::Nil => {
            out.append("NONE");
        },
    }
}

fn push_dump_arg(out: &mut String, d: &Data)
    ensures
        final(out)@ == old(out)@ + dump_arg_text(*d),
{
    match d {
        Data::HString(s) => {
            push_char(out, '"');
            out.append(s.as_str());
            push_char(out, '"');
            out.append(" ");
            proof {
                assert(old(out)@ + dump_arg_text(*d) =~= ((old(out)@.push('"') + s@).push('"'))
                    + " "@);
            }
        },
        Data::Array(_) => {
            push_disp(out, d);
        },
        _ => {
            push_disp(out, d);
            out.append(" ");
            proof {
                assert(old(out)@ + dump_arg_text(*d) =~= (old(out)@ + disp_text(*d)) + " "@);
            }
        },
    }
}

// ---------------------------------------------------------------------------
// Line rendering
// ---------------------------------------------------------------------------
/// One dumped program line: the call's name, a space, each argument in its
/// dumped form, and a newline.
pub open spec fn call_line(c: InstructionCall) -> Seq<char> {
    c.name@ + " "@ + args_text(c.args@) + "\n"@
}

pub open spec fn args_text(s: Seq<Data>) -> Seq<char>
    decreases s,
{
    if s.len() == 0 {
        Seq::empty()
    } else {
        args_text(s.drop_last()) + dump_arg_text(s.last())
    }
}

/// One dumped label line: the name followed by a colon and a newline.
pub open spec fn label_line(name: Seq<char>) -> Seq<char> {
    name + ":"@ + "\n"@
}

fn push_call_line(out: &mut String, c: &InstructionCall)
    ensures
        final(out)@ == old(out)@ + call_line(*c),
{
    out.append(c.name.as_str());
    out.append(" ");
    let mut j: usize = 0;
    while j < c.args.len()
        invariant
            j <= c.args.len(),
            out@ == old(out)@ + c.name@ + " "@ + args_text(c.args@.subrange(0, j as int)),
        decreases c.args.len() - j,
    {
        push_dump_arg(out, &c.args[j]);
        proof {
            assert(c.args@.subrange(0, j as int + 1).drop_last() =~= c.args@.subrange(0, j as int));
            assert(c.args@.subrange(0, j as int + 1).last() == c.args@[j as int]);
            assert(out@ =~= old(out)@ + c.name@ + " "@ + args_text(
                c.args@.subrange(0, j as int + 1),
            ));
        }
        j = j + 1;
    }
    out.append("\n");
    proof {
        assert(c.args@.subrange(0, c.args@.len() as int) =~= c.args@);
        assert(out@ =~= old(out)@ + call_line(*c));
    }
}

// ---------------------------------------------------------------------------
// Whole-program rendering
// ---------------------------------------------------------------------------
/// The label lines of every entry recorded at exactly this offset, in table
/// order.
pub open spec fn labels_at(entries: Seq<(Seq<char>, usize)>, o: usize) -> Seq<char>
    decreases entries.len(),
{
    if entries.len() == 0 {
        Seq::empty()
    } else {
        let head: Seq<char> = if entries[0].1 == o {
            label_line(entries[0].0)
        } else {
            Seq::empty()
        };
        head + labels_at(entries.skip(1), o)
    }
}

/// The least recorded offset that is at least `cur`, if any.
pub open spec fn min_offset_ge(entries: Seq<(Seq<char>, usize)>, cur: usize) -> Option<usize>
    decreases entries.len(),
{
    if entries.len() == 0 {
        None
    } else {
        let rest = min_offset_ge(entries.skip(1), cur);
        if entries[0].1 >= cur {
            match rest {
                Some(m) => if entries[0].1 <= m {
                    Some(entries[0].1)
                } else {
                    Some(m)
                },
                None => Some(entries[0].1),
            }
        } else {
            rest
        }
    }
}

/// The interleaved body: before each instruction, the labels recorded at
/// its index; then the instruction's own line.
pub open spec fn body_text(
    prog: Seq<InstructionCall>,
    entries: Seq<(Seq<char>, usize)>,
    i: int,
) -> Seq<char>
    decreases prog.len() - i,
{
    if i < 0 || i >= prog.len() {
        Seq::empty()
    } else {
        labels_at(entries, i as usize) + call_line(prog[i]) + body_text(prog, entries, i + 1)
    }
}

/// The labels recorded at or past the program length, rendered after all
/// instructions in ascending offset order, in table order on a tie.
pub open spec fn trailing_text(entries: Seq<(Seq<char>, usize)>, cur: int) -> Seq<char>
    decreases usize::MAX + 1 - cur,
{
    if cur > usize::MAX || cur < 0 {
        Seq::empty()
    } else {
        match min_offset_ge(entries, cur as usize) {
            Some(m0) => {
                let m = if m0 <= cur {
                    cur
                } else {
                    m0 as int
                };
                labels_at(entries, m as usize) + trailing_text(entries, m + 1)
            },
            None => Seq::empty(),
        }
    }
}

proof fn lemma_min_offset_ge(s: Seq<(Seq<char>, usize)>, cur: usize)
    ensures
        min_offset_ge(s, cur) matches Some(m) ==> cur <= m,
    decreases s.len(),
{
    if s.len() > 0 {
        lemma_min_offset_ge(s.skip(1), cur);
    }
}

/// The deterministic textual dump of a program with its label table.
pub open spec fn dump_text(prog: Seq<InstructionCall>, entries: Seq<(Seq<char>, usize)>) -> Seq<
    char,
> {
    body_text(prog, entries, 0) + trailing_text(entries, prog.len() as int)
}

fn push_labels_at(out: &mut String, labels: &Labels, o: usize)
    ensures
        final(out)@ == old(out)@ + labels_at(labels.sv(), o),
{
    let mut j: usize = 0;
    let n = labels.len();
    proof {
        assert(labels.sv().skip(0) =~= labels.sv());
    }
    while j < n
        invariant
            n == labels.sv().len(),
            j <= n,
            out@ + labels_at(labels.sv().skip(j as int), o) == old(out)@ + labels_at(
                labels.sv(),
                o,
            ),
        decreases n - j,
    {
        let ghost pre = out@;
        if labels.offset_at(j) == o {
            out.append(labels.name_at(j).as_str());
            out.append(":");
            out.append("\n");
            proof {
                assert(out@ =~= pre + label_line(labels.sv()[j as int].0));
            }
        }
        proof {
            assert(labels.sv().skip(j as int)[0] == labels.sv()[j as int]);
            assert(labels.sv().skip(j as int).skip(1) =~= labels.sv().skip(j as int + 1));
            assert(labels_at(labels.sv().skip(j as int), o) == (if labels.sv()[j as int].1 == o {
                label_line(labels.sv()[j as int].0)
            } else {
                Seq::<char>::empty()
            }) + labels_at(labels.sv().skip(j as int + 1), o));
            assert(out@ + labels_at(labels.sv().skip(j as int + 1), o) =~= pre + labels_at(
                labels.sv().skip(j as int),
                o,
            ));
        }
        j = j + 1;
    }
    proof {
        assert(labels.sv().skip(n as int) =~= Seq::<(Seq<char>, usize)>::empty());
        assert(out@ =~= out@ + labels_at(labels.sv().skip(n as int), o));
    }
}

fn exec_min_offset_ge(labels: &Labels, cur: usize) -> (r: Option<usize>)
    ensures
        r == min_offset_ge(labels.sv(), cur),
{
    let mut best: Option<usize> = None;
    let n = labels.len();
    let mut j: usize = n;
    while j > 0
        invariant
            n == labels.sv().len(),
            j <= n,
            best == min_offset_ge(labels.sv().skip(j as int), cur),
        decreases j,
    {
        j = j - 1;
        let o = labels.offset_at(j);
        proof {
            assert(labels.sv().skip(j as int)[0] == labels.sv()[j as int]);
            assert(labels.sv().skip(j as int).skip(1) =~= labels.sv().skip(j as int + 1));
        }
        if o >= cur {
            best = match best {
                Some(m) => if o <= m {
                    Some(o)
                } else {
                    Some(m)
                },
                None => Some(o),
            };
        }
    }
    proof {
        assert(labels.sv().skip(0) =~= labels.sv());
    }
    best
}

impl Runtime {
    /// Renders the program as one line per instruction, label declarations
    /// interleaved immediately before the instruction at their recorded
    /// offset, and labels at or past the end after all instructions in
    /// ascending offset order.  The rendering is a function of the program
    /// and the label table alone, so repeated calls give identical text.
    pub fn dump(&self) -> (r: String)
        ensures
            r@ == dump_text(self.program@, self.engine.labels.sv()),
    {
        let mut out = String::new();
        let mut i: usize = 0;
        let n = self.program.len();
        while i < n
            invariant
                n == self.program@.len(),
                i <= n,
                out@ + body_text(self.program@, self.engine.labels.sv(), i as int) == body_text(
                    self.program@,
                    self.engine.labels.sv(),
                    0,
                ),
            decreases n - i,
        {
            let ghost pre = out@;
            push_labels_at(&mut out, &self.engine.labels, i);
            push_call_line(&mut out, &self.program[i]);
            proof {
                assert(out@ + body_text(self.program@, self.engine.labels.sv(), i as int + 1)
                    =~= pre + body_text(self.program@, self.engine.labels.sv(), i as int));
            }
            i = i + 1;
        }
        let mut cur: usize = n;
        let mut more = true;
        while more
            invariant
                out@ + (if more {
                    trailing_text(self.engine.labels.sv(), cur as int)
                } else {
                    Seq::<char>::empty()
                }) == body_text(self.program@, self.engine.labels.sv(), 0) + trailing_text(
                    self.engine.labels.sv(),
                    n as int,
                ),
            decreases usize::MAX + 1 - cur, (if more {
                1int
            } else {
                0int
            }),
        {
            match exec_min_offset_ge(&self.engine.labels, cur) {
                Some(m) => {
                    let ghost pre = out@;
                    proof {
                        lemma_min_offset_ge(self.engine.labels.sv(), cur);
                    }
                    push_labels_at(&mut out, &self.engine.labels, m);
                    proof {
                        assert(trailing_text(self.engine.labels.sv(), cur as int) == labels_at(
                            self.engine.labels.sv(),
                            m,
                        ) + trailing_text(self.engine.labels.sv(), m + 1));
                    }
                    if m == usize::MAX {
                        more = false;
                        proof {
                            assert(trailing_text(self.engine.labels.sv(), m + 1)
                                =~= Seq::<char>::empty());
                            assert(out@ =~= pre + trailing_text(self.engine.labels.sv(), cur as int));
                        }
                    } else {
                        let ghost cur0 = cur;
                        cur = m + 1;
                        proof {
                            assert(out@ + trailing_text(self.engine.labels.sv(), cur as int)
                                =~= pre + trailing_text(self.engine.labels.sv(), cur0 as int));
                        }
                    }
                },
                None => {
                    more = false;
                    proof {
                        assert(trailing_text(self.engine.labels.sv(), cur as int)
                            =~= Seq::<char>::empty());
                    }
                },
            }
        }
        proof {
            assert(out@ =~= out@ + Seq::<char>::empty());
        }
        out
    }
}

} // verus!
