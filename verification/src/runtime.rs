use vstd::prelude::*;

verus! {

/// A runtime value: the closed tagged union the engine computes with.
///
/// `Text` and `HString` both own a string; they are distinct tags because the
/// grammar assigns them different roles (bare-word argument vs quoted-string
/// argument).  A float literal is carried as its source text, digits and sign
/// exactly as written.
#[derive(Debug, PartialEq)]
pub enum Data {
    Integer(i64),
    Float(String),
    HString(String),
    Text(String),
    Bool(bool),
    Char(char),
    Array(Vec<Data>),
    Nil,
}

/// The mathematical shape of a `Data` value: strings become character
/// sequences, arrays become sequences of shapes.
pub enum DataView {
    Integer(int),
    Float(Seq<char>),
    HString(Seq<char>),
    Text(Seq<char>),
    Bool(bool),
    Char(char),
    Array(Seq<DataView>),
    Nil,
}

pub open spec fn data_view(d: Data) -> DataView
    decreases d,
{
    match d {
        Data::Integer(i) => DataView::Integer(i as int),
        Data::Float(s) => DataView::Float(s@),
        Data::HString(s) => DataView::HString(s@),
        Data::Text(s) => DataView::Text(s@),
        Data::Bool(b) => DataView::Bool(b),
        Data::Char(c) => DataView::Char(c),
        Data::Array(v) => DataView::Array(data_views(v@)),
        Data::Nil => DataView::Nil,
    }
}

pub open spec fn data_views(s: Seq<Data>) -> Seq<DataView>
    decreases s,
{
    if s.len() == 0 {
        Seq::empty()
    } else {
        data_views(s.drop_last()).push(data_view(s.last()))
    }
}

/// The shape sequence of a value sequence is taken element by element.
pub proof fn lemma_data_views(s: Seq<Data>)
    ensures
        data_views(s).len() == s.len(),
        forall|i: int| 0 <= i < s.len() ==> data_views(s)[i] == data_view(s[i]),
    decreases s,
{
    if s.len() > 0 {
        lemma_data_views(s.drop_last());
    }
}

impl View for Data {
    type V = DataView;

    open spec fn view(&self) -> DataView {
        data_view(*self)
    }
}

impl Clone for Data {
    /// A clone carries the same shape: tags, numbers, characters and the text
    /// of every string are kept, recursively through arrays.
    fn clone(&self) -> (res: Data)
        ensures
            res@ == self@,
        decreases self,
    {
        match self {
            Data::Integer(i) => Data::Integer(*i),
            Data::Float(s) => Data::Float(s.clone()),
            Data::HString(s) => Data::HString(s.clone()),
            Data::Text(s) => Data::Text(s.clone()),
            Data::Bool(b) => Data::Bool(*b),
            Data::Char(c) => Data::Char(*c),
            Data::Array(v) => {
                let mut out: Vec<Data> = Vec::new();
                let mut j: usize = 0;
                while j < v.len()
                    invariant
                        *self == Data::Array(*v),
                        j <= v.len(),
                        out@.len() == j,
                        forall|k: int| 0 <= k < j ==> out@[k]@ == v@[k]@,
                    decreases v.len() - j,
                {
                    proof {
                        broadcast use vstd::std_specs::vec::axiom_vec_index_decreases;

                        assert(*self == Data::Array(*v));
                        assert(decreases_to!(*self => self->Array_0));
                        assert(decreases_to!(*v => v[j as int]));
                        assert(decreases_to!(*self => v[j as int]));
                    }
                    out.push(v[j].clone());
                    j = j + 1;
                }
                let res = Data::Array(out);
                proof {
                    lemma_data_views(out@);
                    lemma_data_views(v@);
                    assert(data_views(out@) =~= data_views(v@));
                }
                res
            },
            Data::Nil => Data::Nil,
        }
    }
}

/// Clones an argument list; every element keeps its shape.
pub fn clone_args(v: &Vec<Data>) -> (r: Vec<Data>)
    ensures
        data_views(r@) == data_views(v@),
        r@.len() == v@.len(),
{
    let mut out: Vec<Data> = Vec::new();
    let mut j: usize = 0;
    while j < v.len()
        invariant
            j <= v.len(),
            out@.len() == j,
            forall|k: int| 0 <= k < j ==> out@[k]@ == v@[k]@,
        decreases v.len() - j,
    {
        out.push(v[j].clone());
        j = j + 1;
    }
    proof {
        lemma_data_views(out@);
        lemma_data_views(v@);
        assert(data_views(out@) =~= data_views(v@));
    }
    out
}

/// Compares two string slices by their characters.
pub fn str_eq(a: &str, b: &str) -> (r: bool)
    ensures
        r == (a@ == b@),
{
    let sa: String = a.to_owned();
    let sb: String = b.to_owned();
    sa.eq(&sb)
}

/// Relies on `String::push`: appends exactly one character at the end.
#[verifier::external_body]
pub(crate) fn push_char(s: &mut String, c: char)
    ensures
        final(s)@ == old(s)@.push(c),
{
    s.push(c);
}

/// Relies on `Arc::clone`: the returned handle is the same shared value as
/// the one it was cloned from.
#[verifier::external_body]
fn arc_dup<T: ?Sized>(a: &std::sync::Arc<T>) -> (r: std::sync::Arc<T>)
    ensures
        r == *a,
{
    std::sync::Arc::clone(a)
}

/// An interned, cheaply duplicable handle to an instruction's name.  Two
/// handles stand for the same name exactly when their texts are equal.
#[derive(Debug)]
pub struct InstructionName(std::sync::Arc<String>);

impl View for InstructionName {
    type V = Seq<char>;

    closed spec fn view(&self) -> Seq<char> {
        self.0@
    }
}

impl InstructionName {
    pub fn new(name: String) -> (r: InstructionName)
        ensures
            r@ == name@,
    {
        InstructionName(std::sync::Arc::new(name))
    }

    pub fn as_str(&self) -> (r: &str)
        ensures
            r@ == self@,
    {
        (*self.0).as_str()
    }
}

impl Clone for InstructionName {
    fn clone(&self) -> (res: InstructionName)
        ensures
            res == *self,
    {
        InstructionName(arc_dup(&self.0))
    }
}

/// A host-supplied instruction that computes a value from its arguments and
/// has no access to the engine.
pub trait HostFunction {
    fn call(&self, args: &Vec<Data>) -> Data;
}

/// A host-supplied instruction that may also read and steer the engine:
/// move the program counter and read or write variables.
pub trait HostInstruction {
    fn call(&self, args: &Vec<Data>, engine: &mut Engine) -> Data;
}

/// A shared handle to a host-supplied value function.
pub struct FunctionHandle {
    h: std::sync::Arc<dyn HostFunction>,
}

impl FunctionHandle {
    /// Relies only on moving the given `Arc`: wraps a host callback that the
    /// host already coerced to the trait object.
    #[verifier::external_body]
    pub fn new(h: std::sync::Arc<dyn HostFunction>) -> FunctionHandle {
        FunctionHandle { h }
    }

    /// Runs the host callback on the given arguments.  Nothing is promised
    /// of the result: it is whatever the host computes.
    pub fn invoke(&self, args: &Vec<Data>) -> Data {
        self.h.call(args)
    }
}

impl Clone for FunctionHandle {
    /// Relies on `Arc::clone`: the clone is the same shared callback.
    #[verifier::external_body]
    fn clone(&self) -> (res: FunctionHandle)
        ensures
            res == *self,
    {
        FunctionHandle { h: std::sync::Arc::clone(&self.h) }
    }
}

/// A shared handle to a host-supplied engine-aware instruction.
pub struct InstructionHandle {
    h: std::sync::Arc<dyn HostInstruction>,
}

impl InstructionHandle {
    /// Relies only on moving the given `Arc`: wraps a host callback that the
    /// host already coerced to the trait object.
    #[verifier::external_body]
    pub fn new(h: std::sync::Arc<dyn HostInstruction>) -> InstructionHandle {
        InstructionHandle { h }
    }

    /// Runs the host callback.  It may steer the engine through the handed
    /// `&mut Engine`; nothing is promised of the result.
    pub fn invoke(&self, args: &Vec<Data>, engine: &mut Engine) -> Data {
        self.h.call(args, engine)
    }
}

impl Clone for InstructionHandle {
    /// Relies on `Arc::clone`: the clone is the same shared callback.
    #[verifier::external_body]
    fn clone(&self) -> (res: InstructionHandle)
        ensures
            res == *self,
    {
        InstructionHandle { h: std::sync::Arc::clone(&self.h) }
    }
}

/// One entry of the language's vocabulary.  The compound kind is reserved
/// and unimplemented: executing it is excluded, never silently skipped.
pub enum Instruction {
    RustFunction(FunctionHandle),
    RustInstruction(InstructionHandle),
    HeartfeltInstruction(std::sync::Arc<Vec<Instruction>>),
    Exit,
}

impl Clone for Instruction {
    fn clone(&self) -> (res: Instruction)
        ensures
            res == *self,
    {
        match self {
            Instruction::RustFunction(f) => Instruction::RustFunction(f.clone()),
            Instruction::RustInstruction(f) => Instruction::RustInstruction(f.clone()),
            Instruction::HeartfeltInstruction(v) => Instruction::HeartfeltInstruction(arc_dup(v)),
            Instruction::Exit => Instruction::Exit,
        }
    }
}

/// A resolved, ready-to-execute unit: a name, the instruction cloned from
/// the table at resolution time, and the argument list.
pub struct InstructionCall {
    pub args: Vec<Data>,
    pub inst: Instruction,
    pub name: InstructionName,
}

impl InstructionCall {
    pub fn new_with_args(inst: Instruction, args: Vec<Data>, name: InstructionName) -> (r:
        InstructionCall)
        ensures
            r.inst == inst,
            r.args == args,
            r.name == name,
    {
        InstructionCall { inst, args, name }
    }

    pub fn new(inst: Instruction, name: InstructionName) -> (r: InstructionCall)
        ensures
            r.inst == inst,
            r.args@ == Seq::<Data>::empty(),
            r.name == name,
    {
        InstructionCall { inst, args: Vec::new(), name }
    }
}

impl Clone for InstructionCall {
    fn clone(&self) -> (res: InstructionCall)
        ensures
            res.name == self.name,
            res.inst == self.inst,
            data_views(res.args@) == data_views(self.args@),
    {
        InstructionCall {
            args: clone_args(&self.args),
            inst: self.inst.clone(),
            name: self.name.clone(),
        }
    }
}

/// An ordered instruction list; indices are the unit of control transfer.
pub type Program = Vec<InstructionCall>;

/// An association list folded into a map; the first entry of a key wins.
pub open spec fn assoc_view<V>(s: Seq<(Seq<char>, V)>) -> Map<Seq<char>, V>
    decreases s.len(),
{
    if s.len() == 0 {
        Map::empty()
    } else {
        assoc_view(s.skip(1)).insert(s[0].0, s[0].1)
    }
}

pub proof fn lemma_assoc_view_has<V>(s: Seq<(Seq<char>, V)>, k: Seq<char>)
    ensures
        assoc_view(s).contains_key(k) <==> exists|i: int| 0 <= i < s.len() && s[i].0 == k,
    decreases s.len(),
{
    if s.len() > 0 {
        lemma_assoc_view_has(s.skip(1), k);
        if s[0].0 == k {
            assert(s[0].0 == k && 0 < s.len());
        } else {
            if assoc_view(s).contains_key(k) {
                let i = choose|i: int| 0 <= i < s.skip(1).len() && s.skip(1)[i].0 == k;
                assert(s[i + 1].0 == k);
            }
            if exists|i: int| 0 <= i < s.len() && s[i].0 == k {
                let i = choose|i: int| 0 <= i < s.len() && s[i].0 == k;
                assert(s.skip(1)[i - 1].0 == k);
            }
        }
    }
}

pub proof fn lemma_assoc_view_get<V>(s: Seq<(Seq<char>, V)>, i: int)
    requires
        0 <= i < s.len(),
        forall|j: int| 0 <= j < i ==> s[j].0 != s[i].0,
    ensures
        assoc_view(s).contains_key(s[i].0),
        assoc_view(s)[s[i].0] == s[i].1,
    decreases s.len(),
{
    if i > 0 {
        assert forall|j: int| 0 <= j < i - 1 implies #[trigger] s.skip(1)[j].0 != s.skip(1)[i - 1].0 by {
            assert(s.skip(1)[j] == s[j + 1]);
        }
        lemma_assoc_view_get(s.skip(1), i - 1);
        assert(s.skip(1)[i - 1] == s[i]);
        assert(s[0].0 != s[i].0);
    }
}

pub proof fn lemma_assoc_view_update<V>(s: Seq<(Seq<char>, V)>, i: int, v: V)
    requires
        0 <= i < s.len(),
        forall|j: int| 0 <= j < i ==> s[j].0 != s[i].0,
    ensures
        assoc_view(s.update(i, (s[i].0, v))) == assoc_view(s).insert(s[i].0, v),
    decreases s.len(),
{
    let t = s.update(i, (s[i].0, v));
    assert(t.len() == s.len());
    if i == 0 {
        assert(t.skip(1) =~= s.skip(1));
        assert(assoc_view(t) == assoc_view(t.skip(1)).insert(t[0].0, t[0].1));
        assert(assoc_view(s) == assoc_view(s.skip(1)).insert(s[0].0, s[0].1));
        assert(assoc_view(t) =~= assoc_view(s).insert(s[0].0, v));
    } else {
        assert forall|j: int| 0 <= j < i - 1 implies #[trigger] s.skip(1)[j].0 != s.skip(1)[i - 1].0 by {
            assert(s.skip(1)[j] == s[j + 1]);
        }
        assert(s.skip(1)[i - 1] == s[i]);
        lemma_assoc_view_update(s.skip(1), i - 1, v);
        assert(t.skip(1) =~= s.skip(1).update(i - 1, (s[i].0, v)));
        assert(assoc_view(t) == assoc_view(t.skip(1)).insert(t[0].0, t[0].1));
        assert(assoc_view(s) == assoc_view(s.skip(1)).insert(s[0].0, s[0].1));
        assert(t[0] == s[0]);
        assert(s[0].0 != s[i].0);
        assert(assoc_view(t) =~= assoc_view(s).insert(s[i].0, v));
    }
}

pub proof fn lemma_assoc_view_push<V>(s: Seq<(Seq<char>, V)>, k: Seq<char>, v: V)
    requires
        forall|j: int| 0 <= j < s.len() ==> s[j].0 != k,
    ensures
        assoc_view(s.push((k, v))) == assoc_view(s).insert(k, v),
    decreases s.len(),
{
    let t = s.push((k, v));
    assert(t.len() == s.len() + 1);
    if s.len() == 0 {
        assert(t.skip(1) =~= Seq::<(Seq<char>, V)>::empty());
        assert(assoc_view(t) == assoc_view(t.skip(1)).insert(t[0].0, t[0].1));
        assert(assoc_view(t) =~= assoc_view(s).insert(k, v));
    } else {
        assert forall|j: int| 0 <= j < s.skip(1).len() implies #[trigger] s.skip(1)[j].0 != k by {
            assert(s.skip(1)[j] == s[j + 1]);
        }
        lemma_assoc_view_push(s.skip(1), k, v);
        assert(t.skip(1) =~= s.skip(1).push((k, v)));
        assert(assoc_view(t) == assoc_view(t.skip(1)).insert(t[0].0, t[0].1));
        assert(assoc_view(s) == assoc_view(s.skip(1)).insert(s[0].0, s[0].1));
        assert(t[0] == s[0]);
        assert(s[0].0 != k);
        assert(assoc_view(t) =~= assoc_view(s).insert(k, v));
    }
}

/// The mapping from label names to program indices.  Entries keep their
/// insertion order; a later declaration of the same name overwrites the
/// recorded offset in place.
pub struct Labels {
    entries: Vec<(String, usize)>,
}

impl Labels {
    /// The entries as (name, offset) pairs, in table order.
    pub closed spec fn sv(&self) -> Seq<(Seq<char>, usize)> {
        self.entries@.map_values(|p: (String, usize)| (p.0@, p.1))
    }

    pub open spec fn map_view(&self) -> Map<Seq<char>, usize> {
        assoc_view(self.sv())
    }

    pub fn new() -> (r: Labels)
        ensures
            r.sv() == Seq::<(Seq<char>, usize)>::empty(),
    {
        Labels { entries: Vec::new() }
    }

    fn find_index(&self, key: &str) -> (r: Option<usize>)
        ensures
            match r {
                Some(i) => i < self.sv().len() && self.sv()[i as int].0 == key@ && (forall|j: int|
                    0 <= j < i ==> self.sv()[j].0 != key@),
                None => forall|j: int| 0 <= j < self.sv().len() ==> self.sv()[j].0 != key@,
            },
    {
        let mut i: usize = 0;
        while i < self.entries.len()
            invariant
                i <= self.entries.len(),
                forall|j: int| 0 <= j < i ==> self.sv()[j].0 != key@,
            decreases self.entries.len() - i,
        {
            if str_eq(self.entries[i].0.as_str(), key) {
                return Some(i);
            }
            i = i + 1;
        }
        None
    }

    /// Records `label -> instruction_idx`, overwriting a prior entry of the
    /// same name in place.
    pub fn insert_label(&mut self, label: String, instruction_idx: usize)
        ensures
            final(self).map_view() == old(self).map_view().insert(label@, instruction_idx),
            final(self).sv().len() <= old(self).sv().len() + 1,
    {
        let ghost s = self.sv();
        match self.find_index(label.as_str()) {
            Some(i) => {
                self.entries.remove(i);
                self.entries.insert(i, (label, instruction_idx));
                proof {
                    assert(self.sv() =~= s.update(i as int, (s[i as int].0, instruction_idx)));
                    lemma_assoc_view_update(s, i as int, instruction_idx);
                }
            },
            None => {
                self.entries.push((label, instruction_idx));
                proof {
                    assert(self.sv() =~= s.push((label@, instruction_idx)));
                    lemma_assoc_view_push(s, label@, instruction_idx);
                }
            },
        }
    }

    /// Looks a label up; `None` exactly when the name is not recorded.
    pub fn get(&self, label: &str) -> (r: Option<usize>)
        ensures
            match r {
                Some(v) => self.map_view().contains_key(label@) && self.map_view()[label@] == v,
                None => !self.map_view().contains_key(label@),
            },
    {
        proof {
            lemma_assoc_view_has(self.sv(), label@);
        }
        match self.find_index(label) {
            Some(i) => {
                proof {
                    lemma_assoc_view_get(self.sv(), i as int);
                }
                Some(self.entries[i].1)
            },
            None => None,
        }
    }

    pub fn len(&self) -> (r: usize)
        ensures
            r == self.sv().len(),
    {
        self.entries.len()
    }

    /// The name of the entry at a table position.
    pub fn name_at(&self, i: usize) -> (r: &String)
        requires
            i < self.sv().len(),
        ensures
            r@ == self.sv()[i as int].0,
    {
        &self.entries[i].0
    }

    /// The recorded offset of the entry at a table position.
    pub fn offset_at(&self, i: usize) -> (r: usize)
        requires
            i < self.sv().len(),
        ensures
            r == self.sv()[i as int].1,
    {
        self.entries[i].1
    }

    /// Shifts every recorded offset forward by `n`.
    pub fn shift(&mut self, n: usize)
        requires
            forall|j: int| 0 <= j < old(self).sv().len() ==> old(self).sv()[j].1 + n
                <= usize::MAX,
        ensures
            final(self).sv().len() == old(self).sv().len(),
            forall|j: int| 0 <= j < old(self).sv().len() ==> final(self).sv()[j] == (
            old(self).sv()[j].0, (old(self).sv()[j].1 + n) as usize),
            forall|k: Seq<char>|
                final(self).map_view().contains_key(k) == old(self).map_view().contains_key(k),
            forall|k: Seq<char>|
                old(self).map_view().contains_key(k) ==> final(self).map_view()[k] == old(self).map_view()[k] + n,
    {
        let ghost s = self.sv();
        let mut out: Vec<(String, usize)> = Vec::new();
        let mut i: usize = 0;
        while i < self.entries.len()
            invariant
                self.sv() == s,
                forall|j: int| 0 <= j < s.len() ==> s[j].1 + n <= usize::MAX,
                i <= self.entries.len(),
                out@.len() == i,
                forall|j: int| 0 <= j < i ==> out@[j].0@ == s[j].0 && out@[j].1 == s[j].1 + n,
            decreases self.entries.len() - i,
        {
            proof {
                assert(s[i as int].1 + n <= usize::MAX);
            }
            let name = self.entries[i].0.clone();
            let off = self.entries[i].1 + n;
            out.push((name, off));
            i = i + 1;
        }
        self.entries = out;
        proof {
            lemma_assoc_view_shift(s, self.sv(), n);
        }
    }
}

proof fn lemma_assoc_view_shift(s: Seq<(Seq<char>, usize)>, t: Seq<(Seq<char>, usize)>, n: usize)
    requires
        t.len() == s.len(),
        forall|j: int| 0 <= j < s.len() ==> t[j].0 == s[j].0 && t[j].1 == s[j].1 + n,
    ensures
        forall|k: Seq<char>| assoc_view(t).contains_key(k) == assoc_view(s).contains_key(k),
        forall|k: Seq<char>|
            assoc_view(s).contains_key(k) ==> assoc_view(t)[k] == assoc_view(s)[k] + n,
    decreases s.len(),
{
    if s.len() > 0 {
        assert forall|j: int| 0 <= j < s.skip(1).len() implies #[trigger] t.skip(1)[j].0 == s.skip(
            1,
        )[j].0 && t.skip(1)[j].1 == s.skip(1)[j].1 + n by {
            assert(s.skip(1)[j] == s[j + 1]);
            assert(t.skip(1)[j] == t[j + 1]);
        }
        lemma_assoc_view_shift(s.skip(1), t.skip(1), n);
        assert(assoc_view(t) == assoc_view(t.skip(1)).insert(t[0].0, t[0].1));
        assert(assoc_view(s) == assoc_view(s.skip(1)).insert(s[0].0, s[0].1));
        assert(t[0].0 == s[0].0 && t[0].1 == s[0].1 + n);
        assert forall|k: Seq<char>|
            assoc_view(s).contains_key(k) implies #[trigger] assoc_view(t)[k] == assoc_view(
            s,
        )[k] + n by {
            if k != s[0].0 {
                assert(assoc_view(s.skip(1)).contains_key(k));
            }
        }
    }
}

/// The engine-owned store of script variables.
pub struct VarMap {
    entries: Vec<(String, Data)>,
}

impl VarMap {
    pub closed spec fn sv(&self) -> Seq<(Seq<char>, DataView)> {
        self.entries@.map_values(|p: (String, Data)| (p.0@, data_view(p.1)))
    }

    pub open spec fn map_view(&self) -> Map<Seq<char>, DataView> {
        assoc_view(self.sv())
    }

    pub fn new() -> (r: VarMap)
        ensures
            r.map_view() == Map::<Seq<char>, DataView>::empty(),
    {
        let r = VarMap { entries: Vec::new() };
        proof {
            assert(r.sv() =~= Seq::<(Seq<char>, DataView)>::empty());
        }
        r
    }

    fn find_index(&self, key: &str) -> (r: Option<usize>)
        ensures
            match r {
                Some(i) => i < self.sv().len() && self.sv()[i as int].0 == key@ && (forall|j: int|
                    0 <= j < i ==> self.sv()[j].0 != key@),
                None => forall|j: int| 0 <= j < self.sv().len() ==> self.sv()[j].0 != key@,
            },
    {
        let mut i: usize = 0;
        while i < self.entries.len()
            invariant
                i <= self.entries.len(),
                forall|j: int| 0 <= j < i ==> self.sv()[j].0 != key@,
            decreases self.entries.len() - i,
        {
            if str_eq(self.entries[i].0.as_str(), key) {
                return Some(i);
            }
            i = i + 1;
        }
        None
    }

    /// Insert or overwrite; returns the prior value if one existed.
    pub fn define(&mut self, key: String, value: Data) -> (r: Option<Data>)
        ensures
            final(self).map_view() == old(self).map_view().insert(key@, data_view(value)),
            match r {
                Some(prior) => old(self).map_view().contains_key(key@) && prior@ == old(self).map_view()[key@],
                None => !old(self).map_view().contains_key(key@),
            },
    {
        let ghost s = self.sv();
        proof {
            lemma_assoc_view_has(s, key@);
        }
        match self.find_index(key.as_str()) {
            Some(i) => {
                proof {
                    lemma_assoc_view_get(s, i as int);
                }
                let prior = self.entries.remove(i);
                self.entries.insert(i, (key, value));
                proof {
                    assert(self.sv() =~= s.update(i as int, (s[i as int].0, data_view(value))));
                    lemma_assoc_view_update(s, i as int, data_view(value));
                }
                Some(prior.1)
            },
            None => {
                self.entries.push((key, value));
                proof {
                    assert(self.sv() =~= s.push((key@, data_view(value))));
                    lemma_assoc_view_push(s, key@, data_view(value));
                }
                None
            },
        }
    }

    /// Mutate only an existing entry; returns whether the entry existed.
    pub fn assign(&mut self, key: &str, value: Data) -> (r: bool)
        ensures
            r == old(self).map_view().contains_key(key@),
            r ==> final(self).map_view() == old(self).map_view().insert(key@, data_view(value)),
            !r ==> *final(self) == *old(self),
    {
        let ghost s = self.sv();
        proof {
            lemma_assoc_view_has(s, key@);
        }
        match self.find_index(key) {
            Some(i) => {
                let kept = self.entries.remove(i);
                self.entries.insert(i, (kept.0, value));
                proof {
                    assert(self.sv() =~= s.update(i as int, (s[i as int].0, data_view(value))));
                    lemma_assoc_view_update(s, i as int, data_view(value));
                }
                true
            },
            None => false,
        }
    }

    /// A copy of the stored value, or `None` when the name is unbound.
    pub fn get(&self, key: &str) -> (r: Option<Data>)
        ensures
            match r {
                Some(d) => self.map_view().contains_key(key@) && d@ == self.map_view()[key@],
                None => !self.map_view().contains_key(key@),
            },
    {
        proof {
            lemma_assoc_view_has(self.sv(), key@);
        }
        match self.find_index(key) {
            Some(i) => {
                proof {
                    lemma_assoc_view_get(self.sv(), i as int);
                }
                Some(self.entries[i].1.clone())
            },
            None => None,
        }
    }

    /// A shared reference to the stored value, without copying.
    pub fn get_ref(&self, key: &str) -> (r: Option<&Data>)
        ensures
            match r {
                Some(d) => self.map_view().contains_key(key@) && d@ == self.map_view()[key@],
                None => !self.map_view().contains_key(key@),
            },
    {
        proof {
            lemma_assoc_view_has(self.sv(), key@);
        }
        match self.find_index(key) {
            Some(i) => {
                proof {
                    lemma_assoc_view_get(self.sv(), i as int);
                }
                Some(&self.entries[i].1)
            },
            None => None,
        }
    }

    pub fn contains(&self, key: &str) -> (r: bool)
        ensures
            r == self.map_view().contains_key(key@),
    {
        proof {
            lemma_assoc_view_has(self.sv(), key@);
        }
        match self.find_index(key) {
            Some(_) => true,
            None => false,
        }
    }
}

/// The table the parser resolves bare words against: name text to the
/// interned name handle and the instruction registered under it.
pub struct InstructionMap {
    entries: Vec<(InstructionName, Instruction)>,
}

impl InstructionMap {
    pub closed spec fn sv(&self) -> Seq<(Seq<char>, (InstructionName, Instruction))> {
        self.entries@.map_values(|p: (InstructionName, Instruction)| (p.0@, p))
    }

    pub open spec fn map_view(&self) -> Map<Seq<char>, (InstructionName, Instruction)> {
        assoc_view(self.sv())
    }

    pub fn new() -> (r: InstructionMap)
        ensures
            r.map_view() == Map::<Seq<char>, (InstructionName, Instruction)>::empty(),
    {
        let r = InstructionMap { entries: Vec::new() };
        proof {
            assert(r.sv() =~= Seq::<(Seq<char>, (InstructionName, Instruction))>::empty());
        }
        r
    }

    fn find_index(&self, key: &str) -> (r: Option<usize>)
        ensures
            match r {
                Some(i) => i < self.sv().len() && self.sv()[i as int].0 == key@ && (forall|j: int|
                    0 <= j < i ==> self.sv()[j].0 != key@),
                None => forall|j: int| 0 <= j < self.sv().len() ==> self.sv()[j].0 != key@,
            },
    {
        let mut i: usize = 0;
        while i < self.entries.len()
            invariant
                i <= self.entries.len(),
                forall|j: int| 0 <= j < i ==> self.sv()[j].0 != key@,
            decreases self.entries.len() - i,
        {
            if str_eq(self.entries[i].0.as_str(), key) {
                return Some(i);
            }
            i = i + 1;
        }
        None
    }

    /// Registers an instruction under a name, overwriting a prior entry of
    /// the same name.
    pub fn insert(&mut self, name: InstructionName, inst: Instruction)
        ensures
            final(self).map_view() == old(self).map_view().insert(name@, (name, inst)),
    {
        let ghost s = self.sv();
        match self.find_index(name.as_str()) {
            Some(i) => {
                let ghost k0 = s[i as int].0;
                self.entries.remove(i);
                self.entries.insert(i, (name, inst));
                proof {
                    assert(self.sv() =~= s.update(i as int, (k0, (name, inst))));
                    lemma_assoc_view_update(s, i as int, (name, inst));
                }
            },
            None => {
                self.entries.push((name, inst));
                proof {
                    assert(self.sv() =~= s.push((name@, (name, inst))));
                    lemma_assoc_view_push(s, name@, (name, inst));
                }
            },
        }
    }

    /// Resolves a bare word: the stored name handle and a clone of the
    /// registered instruction, or `None` when the word is not in the table.
    pub fn get_entry(&self, key: &str) -> (r: Option<(InstructionName, Instruction)>)
        ensures
            match r {
                Some(p) => self.map_view().contains_key(key@) && p == self.map_view()[key@],
                None => !self.map_view().contains_key(key@),
            },
    {
        proof {
            lemma_assoc_view_has(self.sv(), key@);
        }
        match self.find_index(key) {
            Some(i) => {
                proof {
                    lemma_assoc_view_get(self.sv(), i as int);
                }
                Some((self.entries[i].0.clone(), self.entries[i].1.clone()))
            },
            None => None,
        }
    }

    pub fn contains_key(&self, key: &str) -> (r: bool)
        ensures
            r == self.map_view().contains_key(key@),
    {
        proof {
            lemma_assoc_view_has(self.sv(), key@);
        }
        match self.find_index(key) {
            Some(_) => true,
            None => false,
        }
    }
}

/// The index a jump parks the counter at so that the loop's own increment
/// lands it exactly on the requested instruction.
pub open spec fn jump_dest(i: usize) -> usize {
    if i == 0 {
        usize::MAX
    } else {
        (i - 1) as usize
    }
}

/// The loop's post-dispatch increment, with defined wraparound.
pub open spec fn next_pc(p: usize) -> usize {
    if p == usize::MAX {
        0
    } else {
        (p + 1) as usize
    }
}

/// The state a host instruction may read and steer: the program counter,
/// the variable store and the label table.  The instruction list itself is
/// not reachable from here, so a running program cannot be edited from
/// inside a dispatch.
pub struct Engine {
    pub vars: VarMap,
    pub labels: Labels,
    pub pc: usize,
}

impl Engine {
    pub fn new() -> (r: Engine)
        ensures
            r.vars.map_view() == Map::<Seq<char>, DataView>::empty(),
            r.labels.sv() == Seq::<(Seq<char>, usize)>::empty(),
            r.pc == 0,
    {
        Engine { vars: VarMap::new(), labels: Labels::new(), pc: 0 }
    }

    /// Unconditional control transfer to an absolute instruction index.
    pub fn goto(&mut self, instruction_idx: usize)
        ensures
            final(self).pc == jump_dest(instruction_idx),
            final(self).vars == old(self).vars,
            final(self).labels == old(self).labels,
    {
        if instruction_idx == 0 {
            self.pc = usize::MAX;
        } else {
            self.pc = instruction_idx - 1;
        }
    }

    /// Control transfer to a label; an unknown label is a silent no-op and
    /// reports `false`.
    pub fn goto_label(&mut self, label: &str) -> (r: bool)
        ensures
            r == old(self).labels.map_view().contains_key(label@),
            r ==> final(self).pc == jump_dest(old(self).labels.map_view()[label@]),
            !r ==> final(self).pc == old(self).pc,
            final(self).vars == old(self).vars,
            final(self).labels == old(self).labels,
    {
        match self.labels.get(label) {
            Some(idx) => {
                self.goto(idx);
                true
            },
            None => false,
        }
    }
}

/// A program is runnable when it holds no compound instruction: that kind is
/// reserved and unimplemented, and executing one is excluded rather than
/// silently skipped.
pub open spec fn program_runnable(p: Seq<InstructionCall>) -> bool {
    forall|i: int| 0 <= i < p.len() ==> !(#[trigger] p[i].inst is HeartfeltInstruction)
}

/// Reports whether a program holds a compound instruction; such a program is
/// refused by `run`'s contract, so a host tests with this before running.
pub fn contains_compound(program: &Program) -> (r: bool)
    ensures
        r == !program_runnable(program@),
{
    let mut i: usize = 0;
    while i < program.len()
        invariant
            i <= program.len(),
            forall|j: int| 0 <= j < i ==> !(#[trigger] program@[j].inst is HeartfeltInstruction),
        decreases program.len() - i,
    {
        if matches!(&program[i].inst, Instruction::HeartfeltInstruction(_)) {
            return true;
        }
        i = i + 1;
    }
    false
}

/// The execution engine: one program, one label table, one variable store
/// and one program counter.
pub struct Runtime {
    pub program: Program,
    pub engine: Engine,
}

impl Runtime {
    pub fn new() -> (r: Runtime)
        ensures
            r.program@ == Seq::<InstructionCall>::empty(),
            r.engine.pc == 0,
            r.engine.vars.map_view() == Map::<Seq<char>, DataView>::empty(),
            r.engine.labels.sv() == Seq::<(Seq<char>, usize)>::empty(),
    {
        Runtime { program: Vec::new(), engine: Engine::new() }
    }

    /// One fetch-dispatch step.  `Some` is a terminal outcome: the counter
    /// fell off the end (absent value) or an exit instruction ran (an array
    /// of its arguments).  `None` means one instruction was dispatched and
    /// the counter took one post-dispatch increment.  A native value
    /// function cannot touch the engine, so around it the counter moves by
    /// exactly one and variables and labels are kept.
    pub fn step(&mut self) -> (r: Option<Data>)
        requires
            program_runnable(old(self).program@),
        ensures
            final(self).program == old(self).program,
            old(self).engine.pc >= old(self).program@.len() ==> (r matches Some(d) && d@
                == DataView::Nil && *final(self) == *old(self)),
            (old(self).engine.pc < old(self).program@.len() && old(self).program@[old(self).engine.pc as int].inst is Exit) ==> (r matches Some(d) && d@ == DataView::Array(
                data_views(old(self).program@[old(self).engine.pc as int].args@),
            ) && final(self).engine == old(self).engine),
            r is None ==> old(self).engine.pc < old(self).program@.len() && !(old(self).program@[old(self).engine.pc as int].inst is Exit),
            (old(self).engine.pc < old(self).program@.len() && old(self).program@[old(self).engine.pc as int].inst is RustFunction) ==> r is None && final(self).engine.vars
                == old(self).engine.vars && final(self).engine.labels == old(self).engine.labels
                && final(self).engine.pc == next_pc(old(self).engine.pc),
    {
        let pc = self.engine.pc;
        if pc >= self.program.len() {
            return Some(Data::Nil);
        }
        let call = &self.program[pc];
        match &call.inst {
            Instruction::RustFunction(f) => {
                let _ = f.invoke(&call.args);
            },
            Instruction::RustInstruction(f) => {
                let _ = f.invoke(&call.args, &mut self.engine);
            },
            Instruction::HeartfeltInstruction(_) => {
                proof {
                    assert(false);
                }
                return Some(Data::Nil);
            },
            Instruction::Exit => {
                return Some(Data::Array(clone_args(&call.args)));
            },
        }
        let p2 = self.engine.pc;
        self.engine.pc = if p2 == usize::MAX {
            0
        } else {
            p2 + 1
        };
        None
    }

    /// Runs the program from the current counter, for at most `budget`
    /// fetch-dispatch steps, until it falls off the end (absent value) or an
    /// exit instruction runs (an array of that call's arguments).  `None`
    /// means the budget ran out first.  The instruction list itself cannot
    /// change while running.
    pub fn run(&mut self, budget: usize) -> (r: Option<Data>)
        requires
            program_runnable(old(self).program@),
        ensures
            final(self).program == old(self).program,
            (budget > 0 && old(self).engine.pc >= old(self).program@.len()) ==> (r matches Some(d)
                && d@ == DataView::Nil && *final(self) == *old(self)),
            (budget > 0 && old(self).engine.pc < old(self).program@.len() && old(
                self,
            ).program@[old(self).engine.pc as int].inst is Exit) ==> (r matches Some(d) && d@
                == DataView::Array(
                data_views(old(self).program@[old(self).engine.pc as int].args@),
            ) && final(self).engine == old(self).engine),
            budget == 0 ==> r is None && *final(self) == *old(self),
    {
        let mut left: usize = budget;
        let ghost entry = *old(self);
        while left > 0
            invariant
                entry == *old(self),
                self.program == entry.program,
                program_runnable(self.program@),
                left <= budget,
                left < budget ==> entry.engine.pc < entry.program@.len() && !(
                entry.program@[entry.engine.pc as int].inst is Exit),
                left == budget ==> *self == entry,
            decreases left,
        {
            match self.step() {
                Some(d) => {
                    return Some(d);
                },
                None => {},
            }
            left = left - 1;
        }
        None
    }

    pub fn set_program(&mut self, program: Program)
        ensures
            final(self).program == program,
            final(self).engine == old(self).engine,
    {
        self.program = program;
    }

    /// Appends instructions at the end of the program.
    pub fn add_instructions(&mut self, mut instructions: Program)
        ensures
            final(self).program@ == old(self).program@ + instructions@,
            final(self).engine == old(self).engine,
    {
        self.program.append(&mut instructions);
    }

    /// Puts instructions in front of the program and shifts every recorded
    /// label offset forward by their number, so each label still names the
    /// same logical instruction.
    pub fn prepend_instructions(&mut self, mut instructions: Program)
        requires
            forall|j: int| 0 <= j < old(self).engine.labels.sv().len() ==> old(self).engine.labels.sv()[j].1 + instructions@.len() <= usize::MAX,
        ensures
            final(self).program@ == instructions@ + old(self).program@,
            final(self).engine.labels.sv().len() == old(self).engine.labels.sv().len(),
            forall|j: int| 0 <= j < old(self).engine.labels.sv().len() ==> final(self).engine.labels.sv()[j] == (old(self).engine.labels.sv()[j].0, (old(self).engine.labels.sv()[j].1 + instructions@.len()) as usize),
            forall|k: Seq<char>|
                final(self).engine.labels.map_view().contains_key(k) == old(self).engine.labels.map_view().contains_key(k),
            forall|k: Seq<char>|
                old(self).engine.labels.map_view().contains_key(k) ==> final(self).engine.labels.map_view()[k] == old(self).engine.labels.map_view()[k]
                    + instructions@.len(),
            final(self).engine.vars == old(self).engine.vars,
            final(self).engine.pc == old(self).engine.pc,
    {
        let n = instructions.len();
        self.engine.labels.shift(n);
        core::mem::swap(&mut self.program, &mut instructions);
        self.program.append(&mut instructions);
    }

    /// Empties the program and resets the counter.
    pub fn clear_program(&mut self)
        ensures
            final(self).program@ == Seq::<InstructionCall>::empty(),
            final(self).engine.pc == 0,
            final(self).engine.vars == old(self).engine.vars,
            final(self).engine.labels == old(self).engine.labels,
    {
        self.engine.pc = 0;
        self.program.clear();
    }

    pub fn clear(&mut self)
        ensures
            final(self).program@ == Seq::<InstructionCall>::empty(),
            final(self).engine.pc == 0,
            final(self).engine.vars == old(self).engine.vars,
            final(self).engine.labels == old(self).engine.labels,
    {
        self.clear_program();
    }

    /// Resets the counter; the program is kept.
    pub fn reset_program(&mut self)
        ensures
            final(self).program == old(self).program,
            final(self).engine.pc == 0,
            final(self).engine.vars == old(self).engine.vars,
            final(self).engine.labels == old(self).engine.labels,
    {
        self.engine.pc = 0;
    }

    pub fn reset(&mut self)
        ensures
            final(self).program == old(self).program,
            final(self).engine.pc == 0,
            final(self).engine.vars == old(self).engine.vars,
            final(self).engine.labels == old(self).engine.labels,
    {
        self.reset_program();
    }

    /// Removes and returns the whole program, leaving the engine's empty.
    pub fn take_program(&mut self) -> (r: Program)
        ensures
            r == old(self).program,
            final(self).program@ == Seq::<InstructionCall>::empty(),
            final(self).engine == old(self).engine,
    {
        let mut p: Program = Vec::new();
        core::mem::swap(&mut self.program, &mut p);
        p
    }

    /// Exchanges the engine's program with the caller's, in place.
    pub fn swap_program(&mut self, new_program: &mut Program)
        ensures
            final(self).program == *old(new_program),
            *final(new_program) == old(self).program,
            final(self).engine == old(self).engine,
    {
        core::mem::swap(&mut self.program, new_program);
    }

    /// Insert or overwrite a variable; returns the prior value if one
    /// existed.
    pub fn def_var(&mut self, key: String, value: Data) -> (r: Option<Data>)
        ensures
            final(self).engine.vars.map_view() == old(self).engine.vars.map_view().insert(
                key@,
                data_view(value),
            ),
            match r {
                Some(prior) => old(self).engine.vars.map_view().contains_key(key@) && prior@
                    == old(self).engine.vars.map_view()[key@],
                None => !old(self).engine.vars.map_view().contains_key(key@),
            },
            final(self).program == old(self).program,
            final(self).engine.labels == old(self).engine.labels,
            final(self).engine.pc == old(self).engine.pc,
    {
        self.engine.vars.define(key, value)
    }

    /// Mutate only an existing variable; reports whether it existed, and a
    /// missing name is a silent no-op.
    pub fn set_var(&mut self, key: &str, value: Data) -> (r: bool)
        ensures
            r == old(self).engine.vars.map_view().contains_key(key@),
            r ==> final(self).engine.vars.map_view() == old(self).engine.vars.map_view().insert(
                key@,
                data_view(value),
            ),
            !r ==> final(self).engine.vars == old(self).engine.vars,
            final(self).program == old(self).program,
            final(self).engine.labels == old(self).engine.labels,
            final(self).engine.pc == old(self).engine.pc,
    {
        self.engine.vars.assign(key, value)
    }

    /// A copy of the stored value, or `None` when the name is unbound.
    pub fn get_var(&self, key: &str) -> (r: Option<Data>)
        ensures
            match r {
                Some(d) => self.engine.vars.map_view().contains_key(key@) && d@
                    == self.engine.vars.map_view()[key@],
                None => !self.engine.vars.map_view().contains_key(key@),
            },
    {
        self.engine.vars.get(key)
    }

    /// A shared reference to the stored value, without copying.
    pub fn get_var_ref(&self, key: &str) -> (r: Option<&Data>)
        ensures
            match r {
                Some(d) => self.engine.vars.map_view().contains_key(key@) && d@
                    == self.engine.vars.map_view()[key@],
                None => !self.engine.vars.map_view().contains_key(key@),
            },
    {
        self.engine.vars.get_ref(key)
    }

    pub fn is_var_defined(&self, key: &str) -> (r: bool)
        ensures
            r == self.engine.vars.map_view().contains_key(key@),
    {
        self.engine.vars.contains(key)
    }

    /// Unconditional control transfer to an absolute instruction index.
    pub fn goto(&mut self, instruction_idx: usize)
        ensures
            final(self).engine.pc == jump_dest(instruction_idx),
            final(self).program == old(self).program,
            final(self).engine.vars == old(self).engine.vars,
            final(self).engine.labels == old(self).engine.labels,
    {
        self.engine.goto(instruction_idx);
    }

    /// Control transfer to a label; an unknown label is a silent no-op and
    /// reports `false`.
    pub fn goto_label(&mut self, label: &str) -> (r: bool)
        ensures
            r == old(self).engine.labels.map_view().contains_key(label@),
            r ==> final(self).engine.pc == jump_dest(
                old(self).engine.labels.map_view()[label@],
            ),
            !r ==> final(self).engine.pc == old(self).engine.pc,
            final(self).program == old(self).program,
            final(self).engine.vars == old(self).engine.vars,
            final(self).engine.labels == old(self).engine.labels,
    {
        self.engine.goto_label(label)
    }

    /// Records `label -> instruction_idx`, overwriting a prior entry.
    pub fn add_label(&mut self, label: String, instruction_idx: usize)
        ensures
            final(self).engine.labels.map_view() == old(self).engine.labels.map_view().insert(
                label@,
                instruction_idx,
            ),
            final(self).program == old(self).program,
            final(self).engine.vars == old(self).engine.vars,
            final(self).engine.pc == old(self).engine.pc,
    {
        self.engine.labels.insert_label(label, instruction_idx);
    }

    pub fn set_labels(&mut self, labels: Labels)
        ensures
            final(self).engine.labels == labels,
            final(self).program == old(self).program,
            final(self).engine.vars == old(self).engine.vars,
            final(self).engine.pc == old(self).engine.pc,
    {
        self.engine.labels = labels;
    }
}


} // verus!
