use gsignal::logger::{LogLevel, LogLevelParameter, Logger};
use gsignal::parameter::{
    add_parameter, add_parameter_model, Parameter, ParameterControl, ParameterModel,
    ParameterType, ParameterValue,
};
use gsignal::process::{ProcessSequence, ProcessTrait};
use vstd::prelude::Seq;

#[test]
fn parameter_holds_and_replaces_its_value() {
    let mut p = Parameter::new("gain".to_string(), 7, 2i32);
    assert_eq!(p.get_value(), 2);
    p.set_value(5);
    assert_eq!(p.get_value(), 5);
    assert_eq!(p.id, 7);
    assert_eq!(p.name, "gain");
}

#[test]
fn log_level_parameter_describes_itself() {
    let model = LogLevelParameter::new();
    assert_eq!(model.get_name(), "LogLevel");
    assert!(matches!(model.get_param_type(), ParameterType::ENUMERATION));
    assert_eq!(model.get_allowed_values().len(), 8);
    assert!(matches!(model.get_min_value(), LogLevel::Debug));
    assert!(matches!(model.get_max_value(), LogLevel::Emergency));
}

#[test]
fn registry_validates_against_the_named_model() {
    let mut control: ParameterControl<LogLevelParameter> = ParameterControl::get();
    add_parameter_model(&mut control, LogLevelParameter::new());
    let ok = add_parameter(
        &mut control,
        "LogLevel".to_string(),
        3,
        ParameterValue::Enumeration(LogLevel::Info.as_code()),
    );
    assert!(ok);
    assert_eq!(control.parameter_list.len(), 1);
    // an out-of-range enumeration code is refused and not stored
    let bad = add_parameter(&mut control, "LogLevel".to_string(), 4, ParameterValue::Enumeration(99));
    assert!(!bad);
    assert_eq!(control.parameter_list.len(), 1);
    // a value of the wrong kind is refused as well
    let wrong = add_parameter(&mut control, "LogLevel".to_string(), 4, ParameterValue::Flag(true));
    assert!(!wrong);
    // re-registering the same block replaces its value
    let again = add_parameter(
        &mut control,
        "LogLevel".to_string(),
        3,
        ParameterValue::Enumeration(LogLevel::Debug.as_code()),
    );
    assert!(again);
    assert_eq!(control.parameter_list.len(), 1);
}

#[test]
fn logger_registers_its_level() {
    let mut control: ParameterControl<LogLevelParameter> = ParameterControl::get();
    let logger = Logger::new(9, LogLevel::Warning, &mut control);
    assert!(matches!(logger.log_level.get_value(), LogLevel::Warning));
    assert_eq!(logger.log_level.id, 9);
    assert_eq!(control.parameter_model_table.len(), 1);
    assert_eq!(control.parameter_list.len(), 1);
    // a second logger re-registers the same model name: replaced, not added
    let _other = Logger::new(10, LogLevel::Info, &mut control);
    assert_eq!(control.parameter_model_table.len(), 1);
    assert_eq!(control.parameter_list.len(), 2);
}

#[test]
fn reregistering_a_model_replaces_it() {
    let mut control: ParameterControl<LogLevelParameter> = ParameterControl::get();
    add_parameter_model(&mut control, LogLevelParameter::new());
    let debug_code = LogLevel::Debug.as_code();
    assert!(add_parameter(
        &mut control,
        "LogLevel".to_string(),
        1,
        ParameterValue::Enumeration(debug_code),
    ));
    // a restricted model under the same name takes the earlier one's place
    let mut restricted = LogLevelParameter::new();
    restricted.allowed_levels = vec![LogLevel::Emergency];
    add_parameter_model(&mut control, restricted);
    assert_eq!(control.parameter_model_table.len(), 1);
    assert!(!add_parameter(
        &mut control,
        "LogLevel".to_string(),
        2,
        ParameterValue::Enumeration(debug_code),
    ));
    assert!(add_parameter(
        &mut control,
        "LogLevel".to_string(),
        2,
        ParameterValue::Enumeration(LogLevel::Emergency.as_code()),
    ));
}

/// A block that doubles every numeric input and counts its runs.
struct Doubler {
    runs: u64,
}

impl ProcessTrait for Doubler {
    fn process_spec(&self, _inputs: Seq<ParameterValue>) -> (Self, Seq<ParameterValue>) {
        panic!()
    }

    fn process(&mut self, inputs: Vec<ParameterValue>) -> Vec<ParameterValue> {
        self.runs += 1;
        inputs
            .into_iter()
            .map(|v| match v {
                ParameterValue::Number(n) => ParameterValue::Number(2 * n),
                other => other,
            })
            .collect()
    }

    fn get_name(&self) -> String {
        "doubler".to_string()
    }

    fn get_description(&self) -> String {
        "doubles numeric inputs".to_string()
    }
}

#[test]
fn process_sequence_chains_blocks_in_order() {
    let mut seq: ProcessSequence<Doubler> = ProcessSequence::new();
    seq.add_process(Doubler { runs: 0 }, Some(5));
    seq.add_process(Doubler { runs: 0 }, None); // takes the block count, 1
    assert_eq!(seq.processes.len(), 2);
    assert_eq!(seq.processes[1].0, 1);
    let out = seq.execute(vec![ParameterValue::Number(3), ParameterValue::Flag(false)]);
    assert_eq!(out.len(), 2);
    assert!(matches!(out[0], ParameterValue::Number(12)));
    assert!(matches!(out[1], ParameterValue::Flag(false)));
    assert_eq!(seq.processes[0].1.runs, 1);
    assert_eq!(seq.processes[1].1.runs, 1);
}
