use betrayal::reclass::config_file::Field;
use betrayal::reclass::runner::{runner_step, RunnerAction, RunnerEvent, RunnerState};
use betrayal::reclass::scripting::static_address_lookup;
use betrayal::region::{MapPath, Region};
use betrayal::AddressInfo;
use betrayal::BetrayalError;

#[test]
fn test_runner_happy_path() {
    let (state, action) = runner_step(RunnerState::Watching, RunnerEvent::FileWritten);
    assert_eq!(state, RunnerState::Parsing);
    assert_eq!(action, RunnerAction::ParseConfig);
    let (state, action) = runner_step(state, RunnerEvent::ParseOk);
    assert_eq!(state, RunnerState::Evaluating);
    assert_eq!(action, RunnerAction::EvaluateConfig);
    let (state, action) = runner_step(state, RunnerEvent::EvalDone);
    assert_eq!(state, RunnerState::Watching);
    assert_eq!(action, RunnerAction::Wait);
}

#[test]
fn test_runner_diagnostics_return_to_watching() {
    let (state, action) = runner_step(RunnerState::Parsing, RunnerEvent::ParseFailed);
    assert_eq!(state, RunnerState::Watching);
    assert_eq!(action, RunnerAction::EmitDiagnostic);
    let (state, action) = runner_step(RunnerState::Evaluating, RunnerEvent::EvalFailed);
    assert_eq!(state, RunnerState::Watching);
    assert_eq!(action, RunnerAction::EmitDiagnostic);
}

#[test]
fn test_runner_watch_failure_terminates() {
    let (state, action) = runner_step(RunnerState::Watching, RunnerEvent::WatchFailed);
    assert_eq!(state, RunnerState::Terminated);
    assert_eq!(action, RunnerAction::Stop);
    // a terminated runner stays terminated
    let (state, action) = runner_step(state, RunnerEvent::FileWritten);
    assert_eq!(state, RunnerState::Terminated);
    assert_eq!(action, RunnerAction::Stop);
}

#[test]
fn test_error_messages() {
    assert_eq!(
        BetrayalError::PartialRead.message(),
        "Partial read occured - aborting"
    );
    assert_eq!(
        BetrayalError::BadPid.message(),
        "Unable to find a process with specified PID"
    );
    assert_eq!(
        BetrayalError::BadCommand("x".to_string()).message(),
        "Improper command: x"
    );
    assert_eq!(
        BetrayalError::BadWrite("denied".to_string()).message(),
        "memory write resulted in an error denied"
    );
    assert_eq!(
        BetrayalError::RequestTooBig(12).message(),
        "Requested impossibly large amount of bytes: 12"
    );
    assert_eq!(
        BetrayalError::ConfigFileError("eof".to_string()).message(),
        "problem with the config file :: eof"
    );
    assert_eq!(
        BetrayalError::ScriptingError("nope".to_string()).message(),
        "script has some error :: nope"
    );
}

#[test]
fn test_decimal_rendering() {
    assert_eq!(betrayal::numtext::u64_to_string(0), "0");
    assert_eq!(betrayal::numtext::u64_to_string(2137), "2137");
    assert_eq!(betrayal::numtext::u64_to_string(u64::MAX), "18446744073709551615");
    assert_eq!(betrayal::numtext::i64_to_string(-1), "-1");
    assert_eq!(betrayal::numtext::i64_to_string(i64::MIN), "-9223372036854775808");
}

#[test]
fn test_decimal_parsing() {
    assert_eq!(betrayal::numtext::parse_int("2137"), Some((false, 2137)));
    assert_eq!(betrayal::numtext::parse_int("-2137"), Some((true, 2137)));
    assert_eq!(betrayal::numtext::parse_int(""), None);
    assert_eq!(betrayal::numtext::parse_int("12x"), None);
    assert_eq!(betrayal::numtext::parse_int("-"), None);
    assert_eq!(betrayal::numtext::parse_int("99999999999999999999999"), None);
    assert_eq!(betrayal::numtext::parse_usize("18446744073709551615"), Some(usize::MAX));
}

#[test]
fn test_default_schema_shape() {
    let config = betrayal::reclass::config_file::Config::default();
    assert_eq!(config.entries.len(), 1);
    assert_eq!(config.entries[0].base_address, "2137 - 4 * SIZE_I32");
    assert_eq!(config.entries[0].struct_definition.fields.len(), 7);
    assert_eq!(config.entries[0].struct_definition.name, "SomeClass");
    assert_eq!(config.entries[0].struct_definition.fields[0].0, "field_0");
}

#[test]
fn test_field_sizes() {
    assert_eq!(Field::U8.size(), 1);
    assert_eq!(Field::I16.size(), 2);
    assert_eq!(Field::U16.size(), 2);
    assert_eq!(Field::I32.size(), 4);
    assert_eq!(Field::U32.size(), 4);
    assert_eq!(Field::I64.size(), 8);
    assert_eq!(Field::U64.size(), 8);
    assert_eq!(Field::Padding(2137).size(), 2137);
    assert_eq!(Field::Pointer32(Box::new(Field::U8)).size(), 4);
    assert_eq!(Field::Pointer64(Box::new(Field::U8)).size(), 8);
    assert_eq!(
        Field::Struct(betrayal::reclass::config_file::ReclassStruct {
            name: String::new(),
            fields: vec![],
        })
        .size(),
        0
    );
    assert_eq!(Field::SearchValues(vec![]).size(), 0);
}

#[test]
fn test_static_address_lookup_unique_match() {
    let entry = |base: usize, writable: bool, path: MapPath| {
        (
            AddressInfo { writable },
            Region {
                base,
                ceiling: base + 0x1000,
                readable: true,
                writable,
                executable: false,
                pathname: path,
            },
        )
    };
    let maps = vec![
        entry(0x1000, false, MapPath::MappedFile("/bin/foo".to_string())),
        entry(0x3000, true, MapPath::MappedFile("/bin/foo".to_string())),
        entry(0x5000, false, MapPath::Heap),
    ];
    // the writable row does not count: exactly one read-only match
    assert_eq!(static_address_lookup(&maps, "/bin/foo").unwrap(), 0x1000);
    assert!(matches!(
        static_address_lookup(&maps, "/bin/bar"),
        Err(BetrayalError::ScriptingError(_))
    ));
    let doubled = vec![
        entry(0x1000, false, MapPath::MappedFile("/bin/foo".to_string())),
        entry(0x3000, false, MapPath::MappedFile("/bin/foo".to_string())),
    ];
    assert!(matches!(
        static_address_lookup(&doubled, "/bin/foo"),
        Err(BetrayalError::ScriptingError(_))
    ));
}
