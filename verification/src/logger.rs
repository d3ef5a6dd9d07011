//! Log levels, the parameter model that validates them, and a logger block
//! that registers itself with a parameter registry.

use vstd::prelude::*;
use vstd::string::StringExecFns;
use crate::parameter::{
    add_parameter, add_parameter_model, find_model, lemma_find_model_finds,
    lemma_find_model_found, Parameter, ParameterControl, ParameterModel, ParameterType,
    ParameterValue,
};

verus! {

/// The severities a logger distinguishes, from most to least urgent.
#[derive(Clone, Copy, PartialEq, Eq, Structural, Debug)]
pub enum LogLevel {
    Emergency,
    Alert,
    Critical,
    Error,
    Warning,
    Notice,
    Info,
    Debug,
}

/// The numeric code a level travels under inside a parameter value.
pub open spec fn spec_level_code(l: LogLevel) -> u64 {
    match l {
        LogLevel::Emergency => 0,
        LogLevel::Alert => 1,
        LogLevel::Critical => 2,
        LogLevel::Error => 3,
        LogLevel::Warning => 4,
        LogLevel::Notice => 5,
        LogLevel::Info => 6,
        LogLevel::Debug => 7,
    }
}

impl LogLevel {
    /// The numeric code a level travels under inside a parameter value.
    pub fn as_code(&self) -> (r: u64)
        ensures
            r == spec_level_code(*self),
    {
        match self {
            LogLevel::Emergency => 0,
            LogLevel::Alert => 1,
            LogLevel::Critical => 2,
            LogLevel::Error => 3,
            LogLevel::Warning => 4,
            LogLevel::Notice => 5,
            LogLevel::Info => 6,
            LogLevel::Debug => 7,
        }
    }
}

/// The parameter model for log levels: an enumeration parameter whose
/// allowed values are the eight severities.
pub struct LogLevelParameter {
    pub name: String,
    pub description: String,
    pub parameter_type: ParameterType,
    pub default_level: LogLevel,
    pub allowed_levels: Vec<LogLevel>,
    pub min_value: LogLevel,
    pub max_value: LogLevel,
}

impl LogLevelParameter {
    /// The model under its canonical name, allowing every severity, with
    /// `Error` as the default.
    pub fn new() -> (r: LogLevelParameter)
        ensures
            r.name@ == "LogLevel"@,
            r.parameter_type == ParameterType::ENUMERATION,
            r.default_level == LogLevel::Error,
            r.allowed_levels@ =~= seq![
                LogLevel::Emergency,
                LogLevel::Alert,
                LogLevel::Critical,
                LogLevel::Error,
                LogLevel::Warning,
                LogLevel::Notice,
                LogLevel::Info,
                LogLevel::Debug,
            ],
            r.min_value == LogLevel::Debug,
            r.max_value == LogLevel::Emergency,
    {
        let mut all: Vec<LogLevel> = Vec::new();
        all.push(LogLevel::Emergency);
        all.push(LogLevel::Alert);
        all.push(LogLevel::Critical);
        all.push(LogLevel::Error);
        all.push(LogLevel::Warning);
        all.push(LogLevel::Notice);
        all.push(LogLevel::Info);
        all.push(LogLevel::Debug);
        LogLevelParameter {
            name: String::from_str("LogLevel"),
            description: String::from_str("Set the level of log to apply"),
            parameter_type: ParameterType::ENUMERATION,
            default_level: LogLevel::Error,
            allowed_levels: all,
            min_value: LogLevel::Debug,
            max_value: LogLevel::Emergency,
        }
    }

    /// The least urgent level the model admits.
    pub fn get_min_value(&self) -> (r: LogLevel)
        ensures
            r == self.min_value,
    {
        self.min_value
    }

    /// The most urgent level the model admits.
    pub fn get_max_value(&self) -> (r: LogLevel)
        ensures
            r == self.max_value,
    {
        self.max_value
    }

    /// The levels the model accepts.
    pub fn get_allowed_values(&self) -> (r: &Vec<LogLevel>)
        ensures
            r == &self.allowed_levels,
    {
        &self.allowed_levels
    }
}

impl ParameterModel for LogLevelParameter {
    open spec fn spec_name(&self) -> Seq<char> {
        self.name@
    }

    open spec fn spec_valid(&self, value: ParameterValue) -> bool {
        match value {
            ParameterValue::Enumeration(code) => exists|i: int|
                0 <= i < self.allowed_levels@.len() && spec_level_code(
                    #[trigger] self.allowed_levels@[i],
                ) == code,
            _ => false,
        }
    }

    fn get_name(&self) -> (r: String) {
        self.name.clone()
    }

    fn get_description(&self) -> String {
        self.description.clone()
    }

    fn get_param_type(&self) -> ParameterType {
        self.parameter_type
    }

    fn validate_value(&self, value: &ParameterValue) -> (r: bool) {
        match value {
            ParameterValue::Enumeration(code) => {
                let mut i: usize = 0;
                let n = self.allowed_levels.len();
                while i < n
                    invariant
                        i <= n,
                        n == self.allowed_levels@.len(),
                        *value == ParameterValue::Enumeration(*code),
                        forall|j: int|
                            0 <= j < i ==> spec_level_code(#[trigger] self.allowed_levels@[j])
                                != *code,
                    decreases n - i,
                {
                    if self.allowed_levels[i].as_code() == *code {
                        proof {
                            assert(spec_level_code(self.allowed_levels@[i as int]) == *code);
                            assert(self.spec_valid(*value));
                        }
                        return true;
                    }
                    i = i + 1;
                }
                false
            },
            _ => false,
        }
    }
}

/// A processing block's logger, holding its log-level parameter.
pub struct Logger {
    pub log_level: Parameter<LogLevel>,
}

impl Logger {
    /// A logger for the given block: the log-level model is registered with
    /// the registry (replacing an earlier model of that name, so the table
    /// grows only on the first registration), the block's level — always an
    /// allowed one — is stored under its identifier, and the parameter is
    /// kept on the logger.
    pub fn new(
        block_id: u64,
        log_level: LogLevel,
        control: &mut ParameterControl<LogLevelParameter>,
    ) -> (r: Logger)
        ensures
            r.log_level.name@ == "LogLevel"@,
            r.log_level.id == block_id,
            r.log_level.value == log_level,
            ({
                let t0 = old(control).parameter_model_table@;
                let t1 = final(control).parameter_model_table@;
                &&& (if find_model(t0, "LogLevel"@, 0) >= 0 {
                    t1.len() == t0.len()
                } else {
                    t1.len() == t0.len() + 1
                })
                &&& find_model(t1, "LogLevel"@, 0) >= 0
            }),
    {
        let model = LogLevelParameter::new();
        let ghost mname = model.spec_name();
        add_parameter_model(control, model);
        let value = ParameterValue::Enumeration(log_level.as_code());
        proof {
            // the model just registered is found under its name, whether it
            // replaced an earlier entry or was appended
            assert(mname == "LogLevel"@);
            let t0 = old(control).parameter_model_table@;
            let t1 = control.parameter_model_table@;
            lemma_find_model_found(t0, "LogLevel"@, 0);
            let e = find_model(t0, "LogLevel"@, 0);
            if e >= 0 {
                assert(t1[e].0@ == "LogLevel"@);
            } else {
                assert(t1[t0.len() as int].0@ == "LogLevel"@);
            }
            lemma_find_model_finds(t1, "LogLevel"@, 0);
        }
        let ok = add_parameter(control, String::from_str("LogLevel"), block_id, value);
        let _ = ok;
        Logger { log_level: Parameter::new(String::from_str("LogLevel"), block_id, log_level) }
    }
}

} // verus!
