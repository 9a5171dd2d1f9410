use std::cell::RefCell;
use std::sync::Arc;

use heartfelt::create_runtime;
use heartfelt::runtime::{contains_compound, Data, Engine, FunctionHandle, HostFunction,
    HostInstruction, Instruction, InstructionCall, InstructionHandle, InstructionMap,
    InstructionName};

struct Recorder(RefCell<Vec<i64>>);

impl HostFunction for Recorder {
    fn call(&self, args: &Vec<Data>) -> Data {
        if let Some(Data::Integer(i)) = args.first() {
            self.0.borrow_mut().push(*i);
        }
        Data::Nil
    }
}

fn recording_runtime(code: &str) -> (heartfelt::runtime::Runtime, Arc<Recorder>) {
    let rec = Arc::new(Recorder(RefCell::new(Vec::new())));
    let mut map = InstructionMap::new();
    let h: Arc<dyn HostFunction> = rec.clone();
    map.insert(
        InstructionName::new("mark".to_string()),
        Instruction::RustFunction(FunctionHandle::new(h)),
    );
    let rt = create_runtime(code, map).expect("create");
    (rt, rec)
}

#[test]
fn goto_integer_jumps_to_absolute_index() {
    let (mut rt, rec) = recording_runtime("mark 1\ngoto 3\nmark 2\nmark 3\n");
    assert_eq!(rt.run(100), Some(Data::Nil));
    assert_eq!(*rec.0.borrow(), vec![1, 3]);
}

#[test]
fn goto_bare_label_lands_on_named_instruction() {
    let (mut rt, rec) = recording_runtime("mark 1\ngoto lbl\nmark 2\nlbl:\nmark 3\n");
    assert_eq!(rt.run(100), Some(Data::Nil));
    assert_eq!(*rec.0.borrow(), vec![1, 3]);
}

#[test]
fn goto_quoted_label_lands_on_named_instruction() {
    let (mut rt, rec) = recording_runtime("goto \"lbl\"\nmark 2\nlbl:\nmark 3\n");
    assert_eq!(rt.run(100), Some(Data::Nil));
    assert_eq!(*rec.0.borrow(), vec![3]);
}

#[test]
fn goto_unknown_label_is_a_no_op() {
    let (mut rt, rec) = recording_runtime("goto nowhere\nmark 2\n");
    assert_eq!(rt.run(100), Some(Data::Nil));
    assert_eq!(*rec.0.borrow(), vec![2]);
}

#[test]
fn goto_bool_or_missing_argument_is_a_no_op() {
    let (mut rt, rec) = recording_runtime("goto true\nmark 2\ngoto\nmark 3\n");
    assert_eq!(rt.run(100), Some(Data::Nil));
    assert_eq!(*rec.0.borrow(), vec![2, 3]);
}

#[test]
fn goto_to_exit_instruction_runs_it() {
    let (mut rt, rec) = recording_runtime("mark 1\ngoto 2\nexit 9\n");
    // Jump to index 2, the exit; the counter pre-compensation still nets
    // out to the requested index.
    assert_eq!(rt.run(100), Some(Data::Array(vec![Data::Integer(9)])));
    assert_eq!(*rec.0.borrow(), vec![1]);
}

#[test]
fn run_out_of_budget_returns_nothing() {
    let (mut rt, _rec) = recording_runtime("loop:\ngoto loop\n");
    assert_eq!(rt.run(1000), None);
}

#[test]
fn exit_returns_its_arguments_as_an_array() {
    let (mut rt, rec) = recording_runtime("mark 1\nexit 4 \"s\" none\nmark 2\n");
    assert_eq!(
        rt.run(100),
        Some(Data::Array(vec![
            Data::Integer(4),
            Data::HString("s".to_string()),
            Data::Nil
        ]))
    );
    assert_eq!(*rec.0.borrow(), vec![1]);
}

#[test]
fn empty_program_returns_absent_value() {
    let (mut rt, _rec) = recording_runtime("");
    assert_eq!(rt.run(100), Some(Data::Nil));
}

#[test]
fn define_then_get_returns_equal_value() {
    let (mut rt, _rec) = recording_runtime("");
    let v = Data::Array(vec![Data::Integer(7), Data::Text("t".to_string())]);
    assert_eq!(rt.def_var("x".to_string(), v.clone()), None);
    assert_eq!(rt.get_var("x"), Some(v));
}

#[test]
fn set_on_undefined_variable_is_refused() {
    let (mut rt, _rec) = recording_runtime("");
    assert!(!rt.set_var("y", Data::Integer(1)));
    assert_eq!(rt.get_var("y"), None);
    assert!(!rt.is_var_defined("y"));
}

#[test]
fn define_then_set_updates_the_value() {
    let (mut rt, _rec) = recording_runtime("");
    rt.def_var("k".to_string(), Data::Integer(1));
    assert!(rt.set_var("k", Data::Integer(2)));
    assert_eq!(rt.get_var("k"), Some(Data::Integer(2)));
    assert_eq!(
        rt.def_var("k".to_string(), Data::Integer(3)),
        Some(Data::Integer(2))
    );
    assert!(rt.is_var_defined("k"));
    assert_eq!(rt.get_var_ref("k"), Some(&Data::Integer(3)));
}

#[test]
fn prepend_shifts_labels_by_the_prepended_count() {
    let (mut rt, rec) = recording_runtime("mark 1\nlbl:\nmark 2\n");
    let (mut donor, donor_rec) = recording_runtime("mark 8\nmark 9\n");
    let extra = donor.take_program();
    rt.prepend_instructions(extra);
    // The label moved from index 1 to index 3; jumping there still lands on
    // the same logical instruction.
    assert!(rt.goto_label("lbl"));
    assert_eq!(rt.engine.pc, 2);
    rt.reset();
    assert_eq!(rt.run(100), Some(Data::Nil));
    assert_eq!(*rec.0.borrow(), vec![1, 2]);
    assert_eq!(*donor_rec.0.borrow(), vec![8, 9]);
}

#[test]
fn take_swap_clear_and_reset() {
    let (mut rt, _rec) = recording_runtime("mark 1\nmark 2\n");
    let mut other: Vec<InstructionCall> = Vec::new();
    rt.swap_program(&mut other);
    assert_eq!(other.len(), 2);
    rt.swap_program(&mut other);
    let taken = rt.take_program();
    assert_eq!(taken.len(), 2);
    rt.set_program(taken);
    rt.add_instructions(Vec::new());
    rt.clear();
    assert_eq!(rt.take_program().len(), 0);
    rt.reset();
    assert_eq!(rt.engine.pc, 0);
}

#[test]
fn compound_instructions_are_detected() {
    let (mut rt, _rec) = recording_runtime("mark 1\n");
    let mut prog = rt.take_program();
    assert!(!contains_compound(&prog));
    prog.push(InstructionCall::new_with_args(
        Instruction::HeartfeltInstruction(Arc::new(Vec::<Instruction>::new())),
        Vec::new(),
        InstructionName::new("nested".to_string()),
    ));
    assert!(contains_compound(&prog));
}

#[test]
fn dump_renders_labels_in_place_and_past_the_end() {
    let (rt, _rec) = recording_runtime("start:\nmark 1\nmark 2\nend:\n");
    let text = rt.dump();
    assert_eq!(text, "start:\nmark 1 \nmark 2 \nend:\n");
    // Byte-identical on repeated calls.
    assert_eq!(rt.dump(), text);
}

#[test]
fn dump_renders_every_value_shape() {
    let mut rt = {
        let (rt, _) = recording_runtime("");
        rt
    };
    rt.set_program(vec![InstructionCall::new_with_args(
        Instruction::Exit,
        vec![
            Data::Integer(-7),
            Data::HString("q".to_string()),
            Data::Text("w".to_string()),
            Data::Bool(true),
            Data::Char('z'),
            Data::Float("1.5".to_string()),
            Data::Nil,
            Data::Array(vec![Data::Integer(1), Data::Bool(false)]),
        ],
        InstructionName::new("show".to_string()),
    )]);
    assert_eq!(rt.dump(), "show -7 \"q\" w true z 1.5 NONE 1 false \n");
}

#[test]
fn add_label_overwrites_and_goto_uses_it() {
    let (mut rt, _rec) = recording_runtime("mark 1\nmark 2\n");
    rt.add_label("here".to_string(), 0);
    rt.add_label("here".to_string(), 1);
    assert!(rt.goto_label("here"));
    assert_eq!(rt.engine.pc, 0);
    rt.goto(5);
    assert_eq!(rt.engine.pc, 4);
}

#[test]
fn engine_aware_instruction_writes_variables() {
    struct Setter;
    impl HostInstruction for Setter {
        fn call(&self, args: &Vec<Data>, engine: &mut Engine) -> Data {
            if let Some(Data::Text(k)) = args.first() {
                engine.vars.define(k.clone(), Data::Integer(42));
            }
            Data::Nil
        }
    }
    let mut map = InstructionMap::new();
    let h: Arc<dyn HostInstruction> = Arc::new(Setter);
    map.insert(
        InstructionName::new("setv".to_string()),
        Instruction::RustInstruction(InstructionHandle::new(h)),
    );
    let mut rt = create_runtime("setv x\n", map).expect("create");
    assert_eq!(rt.run(10), Some(Data::Nil));
    assert_eq!(rt.get_var("x"), Some(Data::Integer(42)));
}

#[test]
fn step_dispatches_exactly_one_instruction() {
    let (mut rt, rec) = recording_runtime("mark 1\nmark 2\n");
    assert!(rt.step().is_none());
    assert_eq!(rt.engine.pc, 1);
    assert_eq!(*rec.0.borrow(), vec![1]);
    assert!(rt.step().is_none());
    assert_eq!(rt.step(), Some(Data::Nil));
}
