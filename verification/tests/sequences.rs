use copar::model::{
    ArrayInstanceVariant, Model, Operation, OperationParameter, OperationParameterVariant,
    OperationTableMember,
};
use copar::grammar::RecordCapturingState;
use copar::parser::{FileParsingError, LineParsingError};
use copar::unirecord::{
    IdentifierRecordArg, MemberType, RecordParsingError, UniRecord, UniRecordArg,
    UniRecordArgVariant,
};
use copar::number::NumberError;
use copar::Parser;

fn parse(log: &str) -> Result<Model, FileParsingError> {
    Parser::new(log.to_string()).try_parse_file().unwrap()
}

fn failure(log: &str) -> FileParsingError {
    match parse(log) {
        Ok(_) => panic!("the input was accepted"),
        Err(e) => e,
    }
}

fn references(model: &Model) -> Vec<(String, String)> {
    model
        .operation_ref_table()
        .iter()
        .map(|r| (r.operation_type.clone(), r.operation_variant_ref_name.clone()))
        .collect()
}

#[test]
fn identical_records_share_one_instance() {
    let log = "\
#< seq <#
#= Cmd52 write: bool(true) ln: u8(1) add: x32(0x01043) data: x8(0x80) =#
#= Cmd52 write: bool(true) ln: u8(1) add: x32(0x01043) data: x8(0x80) =#
#> seq >#
";
    let model = parse(log).unwrap();
    assert_eq!(model.sequence_name(), &Some("seq".to_string()));
    assert_eq!(model.defined_records().len(), 1);
    assert_eq!(model.defined_records()[0].name, "Cmd52");
    assert_eq!(model.operation_instances().len(), 1);
    assert_eq!(
        references(&model),
        vec![
            ("Cmd52".to_string(), "operation_0".to_string()),
            ("Cmd52".to_string(), "operation_0".to_string())
        ]
    );
}

#[test]
fn equal_values_written_differently_share_one_instance() {
    let log = "\
[1.0] #< seq <#
[1.1] #= Set reg: x16(0x00ff) gain: f32(1.50) on: bool(1) =#
noise
[7.5] #= Set reg: x16(ff) gain: f32(15e-1) on: bool(true) =#
#> seq >#
";
    let model = parse(log).unwrap();
    assert_eq!(model.operation_instances().len(), 1);
    assert_eq!(
        references(&model),
        vec![
            ("Set".to_string(), "operation_0".to_string()),
            ("Set".to_string(), "operation_0".to_string())
        ]
    );
}

#[test]
fn multiline_record_gets_one_space_after_a_closed_value() {
    let multiline = "\
#< seq <#
#= Cmd53 write: bool(true) inc: bool(true)
data: x8([0x80,0x05]) =#
#> seq >#
";
    let single = "\
#< seq <#
#= Cmd53 write: bool(true) inc: bool(true) data: x8([0x80,0x05]) =#
#> seq >#
";
    let a = parse(multiline).unwrap();
    let b = parse(single).unwrap();
    assert_eq!(a.operation_instances(), b.operation_instances());
    assert_eq!(a.instanciated_arrays(), b.instanciated_arrays());
    assert_eq!(a.defined_records(), b.defined_records());
    assert_eq!(
        a.operation_instances()[0],
        Operation {
            operation_type: "Cmd53".to_string(),
            parameters: vec![
                OperationParameterVariant::Bool(OperationParameter {
                    name: "write".to_string(),
                    value: true
                }),
                OperationParameterVariant::Bool(OperationParameter {
                    name: "inc".to_string(),
                    value: true
                }),
                OperationParameterVariant::ArrayOfX8(OperationParameter {
                    name: "data".to_string(),
                    value: "array_0".to_string()
                }),
            ]
        }
    );
}

#[test]
fn multiline_record_cut_inside_a_value_is_joined_without_a_space() {
    let log = "\
#< seq <#
#= Cmd53 data: x8([0x80,0x05,
0x20,0xfe]) =#
#> seq >#
";
    let model = parse(log).unwrap();
    assert_eq!(
        model.instanciated_arrays(),
        &vec![ArrayInstanceVariant::X8(vec![0x80, 0x05, 0x20, 0xfe])]
    );
}

#[test]
fn ranged_record_with_another_name_fails_at_that_line() {
    let log = "\
#< seq <#
#[ ReadEfuse [#
#- ReadEfuse offset: x16(0x5ea) -#
#- WriteEfuse size: u8(1) -#
#] ReadEfuse ]#
#> seq >#
";
    assert_eq!(
        failure(log),
        FileParsingError::LineError {
            line_nb: 4,
            line_error: LineParsingError::UnmatchedRangedRecordName(Box::new((
                "ReadEfuse".to_string(),
                "WriteEfuse".to_string()
            )))
        }    );
}

#[test]
fn ranged_record_closed_under_another_name_fails() {
    let log = "\
#< seq <#
#[ ReadEfuse [#
#- ReadEfuse offset: x16(0x5ea) -#
Other ]#
#> seq >#
";
    assert_eq!(
        failure(log),
        FileParsingError::LineError {
            line_nb: 4,
            line_error: LineParsingError::UnmatchedRangedRecordName(Box::new((
                "ReadEfuse".to_string(),
                "Other".to_string()
            )))
        }    );
}

#[test]
fn ranged_record_is_closed_with_or_without_an_opening_marker() {
    let with = "#< s <#\n#[ R [#\n#- R a: u8(1) -#\n#- R -#\n#] R ]#\n#> s >#\n";
    let without = "#< s <#\n#[ R [#\n#- R a: u8(1) -#\nR ]#\n#> s >#\n";
    let a = parse(with).unwrap();
    let b = parse(without).unwrap();
    assert_eq!(a.operation_instances(), b.operation_instances());
    assert_eq!(references(&a), vec![("R".to_string(), "operation_0".to_string())]);
    assert_eq!(a.defined_records()[0].members.len(), 1);
    assert_eq!(a.defined_records()[0].members[0].member_name, "a");
    assert_eq!(a.defined_records()[0].members[0].member_type, MemberType::U8);
}

#[test]
fn arrays_are_interned_in_the_order_first_used() {
    let log = "\
#< seq <#
#= A data: x8([0x01,0x02]) =#
#= A data: x8([0x03]) =#
#= B blob: x8([1,2]) =#
#> seq >#
";
    let model = parse(log).unwrap();
    assert_eq!(
        model.instanciated_arrays(),
        &vec![ArrayInstanceVariant::X8(vec![1, 2]), ArrayInstanceVariant::X8(vec![3])]
    );
    let names: Vec<String> = model
        .operation_instances()
        .iter()
        .map(|o| match &o.parameters[0] {
            OperationParameterVariant::ArrayOfX8(p) => p.value.clone(),
            other => panic!("{:?}", other),
        })
        .collect();
    assert_eq!(names, vec!["array_0", "array_1", "array_0"]);
}

#[test]
fn arrays_of_different_kinds_are_different_arrays() {
    let log = "#< s <#\n#= A a: x8([1]) b: u8([1]) c: i8([1]) d: x8([1]) =#\n#> s >#\n";
    let model = parse(log).unwrap();
    assert_eq!(
        model.instanciated_arrays(),
        &vec![
            ArrayInstanceVariant::X8(vec![1]),
            ArrayInstanceVariant::U8(vec![1]),
            ArrayInstanceVariant::I8(vec![1])
        ]
    );
}

#[test]
fn sequence_closed_under_another_name_fails_at_that_line() {
    let log = "\
#< seq <#
#= A n: u8(1) =#
#> other >#
#= A n: u8(oops) =#
";
    assert_eq!(
        failure(log),
        FileParsingError::LineError {
            line_nb: 3,
            line_error: LineParsingError::UnmatchedNameSequenceStop(Box::new((
                "other".to_string(),
                "seq".to_string()
            )))
        }    );
}

#[test]
fn lines_after_the_end_of_the_sequence_are_not_read() {
    let log = "#< seq <#\n#= A n: u8(1) =#\n#> seq >#\n#= A n: u8(oops) =#\n#= broken\n";
    let model = parse(log).unwrap();
    assert_eq!(references(&model), vec![("A".to_string(), "operation_0".to_string())]);
}

#[test]
fn the_first_record_of_a_name_fixes_the_structure() {
    let log = "\
#< seq <#
#= A n: u8(1) m: id(Mode::Fast) =#
#= A other: i16(-3) =#
#> seq >#
";
    let model = parse(log).unwrap();
    assert_eq!(model.defined_records().len(), 1);
    let members: Vec<(String, &MemberType)> = model.defined_records()[0]
        .members
        .iter()
        .map(|m| (m.member_name.clone(), &m.member_type))
        .collect();
    assert_eq!(
        members,
        vec![
            ("n".to_string(), &MemberType::U8),
            ("m".to_string(), &MemberType::Identifier("Mode".to_string()))
        ]
    );
    assert_eq!(model.operation_instances().len(), 2);
    assert_eq!(model.operation_ref_table().len(), 2);
}

#[test]
fn enumerations_gain_members_in_the_order_first_seen() {
    let log = "\
#< seq <#
#= A m: id(Mode::Fast) c: id(Colour::Red) =#
#= A m: id(Mode::Slow) c: id(Colour::Red) =#
#= A m: id(Mode::Fast) c: id(Colour::Blue) =#
#> seq >#
";
    let model = parse(log).unwrap();
    let enums: Vec<(String, Vec<String>)> =
        model.defined_enums().iter().map(|e| (e.name.clone(), e.members.clone())).collect();
    assert_eq!(
        enums,
        vec![
            ("Mode".to_string(), vec!["Fast".to_string(), "Slow".to_string()]),
            ("Colour".to_string(), vec!["Red".to_string(), "Blue".to_string()])
        ]
    );
}

#[test]
fn the_table_has_one_entry_per_record() {
    let log = "\
junk before
#= Early n: u8(1) =#
#< seq <#
#= A n: u8(1) =#
noise
#= B n: u8(1) =#

#= A n: u8(1) =#
#= A n: u8(2) =#
#> seq >#
";
    let model = parse(log).unwrap();
    assert_eq!(
        references(&model),
        vec![
            ("A".to_string(), "operation_0".to_string()),
            ("B".to_string(), "operation_1".to_string()),
            ("A".to_string(), "operation_0".to_string()),
            ("A".to_string(), "operation_2".to_string())
        ]
    );
    assert_eq!(
        model.operation_ref_table()[1],
        OperationTableMember {
            operation_type: "B".to_string(),
            operation_variant_ref_name: "operation_1".to_string()
        }
    );
}

#[test]
fn input_without_a_sequence_fails() {
    assert_eq!(failure(""), FileParsingError::NoSequenceStart);
    assert_eq!(failure("nothing\n#= A n: u8(1) =#\n"), FileParsingError::NoSequenceStart);
}

#[test]
fn input_that_ends_in_a_record_names_the_line_where_it_began() {
    let log = "#< seq <#\n#= A n: u8(1) =#\n\n#= B k: u8(1)\nl: u8(2)\n";
    assert_eq!(failure(log), FileParsingError::NoSequenceEnd { last_record_start_line: 4 });
    let ranged = "#< seq <#\nnoise\n#[ R [#\n#- R a: u8(1) -#\n";
    assert_eq!(failure(ranged), FileParsingError::NoSequenceEnd { last_record_start_line: 3 });
    let none = "#< seq <#\nnoise\n";
    assert_eq!(failure(none), FileParsingError::NoSequenceEnd { last_record_start_line: 0 });
}

#[test]
fn broken_markers_are_errors_with_their_line() {
    assert_eq!(
        failure("#< seq <#\n#= A n: u8(1) -#\n"),
        FileParsingError::LineError {
            line_nb: 2,
            line_error: LineParsingError::UnmatchingRecordDelimiters('=', '-')
        }    );
    assert_eq!(
        failure("noise\n#= A n: u8(1)\n#< seq <#\n"),
        FileParsingError::LineError {
            line_nb: 2,
            line_error: LineParsingError::MissingEndDelimiter('=')
        }    );
    assert_eq!(
        failure("#< seq <#\n#[ A\n"),
        FileParsingError::LineError {
            line_nb: 2,
            line_error: LineParsingError::MissingEndDelimiter('[')
        }    );
    assert_eq!(
        failure("#< seq <#\nA n: u8(1) =#\n"),
        FileParsingError::LineError {
            line_nb: 2,
            line_error: LineParsingError::MissingBeginDelimiter('=')
        }    );
    assert_eq!(
        failure("#< seq <#\n#= A n: u8(1) #= B n: u8(2) =#\n"),
        FileParsingError::LineError {
            line_nb: 2,
            line_error: LineParsingError::MultipleRecordDelimiters("#=".to_string())
        }    );
    assert_eq!(
        failure("#< seq <#\n#= A n: =#\n"),
        FileParsingError::LineError {
            line_nb: 2,
            line_error: LineParsingError::UncompleteRecordArg
        }    );
}

#[test]
fn a_bad_value_is_an_error_with_its_line() {
    assert_eq!(
        failure("#< seq <#\n\n[12.5] #= A n: u8(256) =#\n"),
        FileParsingError::LineError {
            line_nb: 3,
            line_error: LineParsingError::BadRecordArg(RecordParsingError::BadU8Format(
                NumberError::PosOverflow
            ))
        }    );
    assert_eq!(
        failure("#< seq <#\n#= A n: i16([1,2,x]) =#\n"),
        FileParsingError::LineError {
            line_nb: 2,
            line_error: LineParsingError::BadRecordArg(
                RecordParsingError::BadI16ArrayFieldSyntax(NumberError::InvalidDigit, 2)
            )
        }    );
}

#[test]
fn a_type_outside_the_language_is_no_result() {
    assert!(Parser::new("#< s <#\n#= A n: u7(1) =#\n#> s >#\n".to_string())
        .try_parse_file()
        .is_none());
    assert!(Parser::new("#< s <#\n#= A n: bool([1]) =#\n#> s >#\n".to_string())
        .try_parse_file()
        .is_none());
    assert!(UniRecordArgVariant::decode("n:", "u8").is_none());
    assert!(UniRecordArgVariant::decode("n:", "q(1)").is_none());
    assert!(UniRecordArgVariant::decode("n:", "id([A::B])").is_none());
}

#[test]
fn time_stamps_are_taken_off() {
    let log = "[   62.99] #< seq <#\n[x] #= A n: u8(1) =#\n[a] b] just noise\n[z] #> seq >#\n";
    let model = parse(log).unwrap();
    assert_eq!(references(&model), vec![("A".to_string(), "operation_0".to_string())]);
    assert_eq!(
        failure("#< seq <#\n[ y #= A n: u8(2) =#\n"),
        FileParsingError::LineError {
            line_nb: 2,
            line_error: LineParsingError::MultipleRecordDelimiters("#=".to_string())
        }
    );
}

#[test]
fn carriage_returns_before_line_feeds_are_taken_off() {
    let log = "#< seq <#\r\n#= A n: u8(1) =#\r\n#> seq >#\r\n";
    let model = parse(log).unwrap();
    assert_eq!(model.sequence_name(), &Some("seq".to_string()));
    assert_eq!(model.operation_ref_table().len(), 1);
}

#[test]
fn a_model_takes_records_directly() {
    let mut model = Model::default();
    let record = |value: u8| {
        UniRecord::new(
            "Cmd".to_string(),
            vec![
                UniRecordArgVariant::U8(UniRecordArg { name: "n".to_string(), value }),
                UniRecordArgVariant::ArrayOfI16(UniRecordArg {
                    name: "v".to_string(),
                    value: vec![-1, 2],
                }),
                UniRecordArgVariant::Identifier(IdentifierRecordArg {
                    name: "m".to_string(),
                    enum_type: "Mode".to_string(),
                    value: "Fast".to_string(),
                }),
            ],
        )
    };
    model.add_record(record(1));
    model.add_record(record(2));
    model.add_record(record(1));
    model.set_sequence_name("s".to_string());
    assert_eq!(model.instanciated_arrays(), &vec![ArrayInstanceVariant::I16(vec![-1, 2])]);
    assert_eq!(model.operation_instances().len(), 2);
    assert_eq!(
        references(&model),
        vec![
            ("Cmd".to_string(), "operation_0".to_string()),
            ("Cmd".to_string(), "operation_1".to_string()),
            ("Cmd".to_string(), "operation_0".to_string())
        ]
    );
    assert_eq!(model.defined_enums()[0].members, vec!["Fast".to_string()]);
}

#[test]
fn a_closing_marker_on_a_line_of_its_own_closes_the_buffer_as_it_stands() {
    let bare = "#< seq <#\n#= A\n=#\n#> seq >#\n";
    let model = parse(bare).unwrap();
    assert_eq!(references(&model), vec![("A".to_string(), "operation_0".to_string())]);
    assert!(model.defined_records()[0].members.is_empty());
    let after_value = "#< seq <#\n#= A x: u8(1)\n=#\n#> seq >#\n";
    assert_eq!(
        failure(after_value),
        FileParsingError::LineError {
            line_nb: 3,
            line_error: LineParsingError::UncompleteRecordArg
        }
    );
}

#[test]
fn a_record_broken_after_any_field_is_the_record_on_one_line() {
    let single = "#< s <#\n#= A a: u8(1) b: x8([1,2]) c: id(M::N) d: bool(true) =#\n#> s >#\n";
    let expected = parse(single).unwrap();
    for broken in [
        "#< s <#\n#= A a: u8(1)\nb: x8([1,2]) c: id(M::N) d: bool(true) =#\n#> s >#\n",
        "#< s <#\n#= A a: u8(1) b: x8([1,2])\nc: id(M::N) d: bool(true) =#\n#> s >#\n",
        "#< s <#\n#= A a: u8(1) b: x8([1,2]) c: id(M::N)\nd: bool(true) =#\n#> s >#\n",
        "#< s <#\n#= A a: u8(1)\nb: x8([1,2])\nc: id(M::N)\nd: bool(true) =#\n#> s >#\n",
    ]
    .iter()
    {
        let model = parse(broken).unwrap();
        assert_eq!(model.operation_instances(), expected.operation_instances(), "{:?}", broken);
        assert_eq!(model.instanciated_arrays(), expected.instanciated_arrays());
        assert_eq!(model.defined_records(), expected.defined_records());
        assert_eq!(model.defined_enums(), expected.defined_enums());
        assert_eq!(references(&model), references(&expected));
    }
}

#[test]
fn a_refused_line_leaves_the_parser_as_it_was() {
    let chars = |s: &str| -> Vec<char> { s.chars().collect() };
    let text = |v: &Vec<char>| -> String { v.iter().collect() };
    let mut parser = Parser::new(String::new());
    assert_eq!(parser.one_shot_state(&chars("#[ Read [#")), Some(Ok(false)));
    assert_eq!(parser.capturing_state(), RecordCapturingState::Ranged);
    assert_eq!(parser.ranged_capture_state(&chars("#- Read a: u8(1) -#")), Some(Ok(())));
    assert_eq!(text(parser.line_buffer()), "Read a: u8(1)");
    assert_eq!(
        parser.ranged_capture_state(&chars("#- Write b: u8(2) -#")),
        Some(Err(LineParsingError::UnmatchedRangedRecordName(Box::new((
            "Read".to_string(),
            "Write".to_string()
        )))))
    );
    assert_eq!(text(parser.line_buffer()), "Read a: u8(1)");
    assert_eq!(parser.capturing_state(), RecordCapturingState::Ranged);
    assert!(parser.model().operation_ref_table().is_empty());
    assert_eq!(parser.ranged_capture_state(&chars("#] Read ]#")), Some(Ok(())));
    assert_eq!(parser.capturing_state(), RecordCapturingState::OneShot);
    assert_eq!(parser.model().operation_ref_table().len(), 1);

    assert_eq!(parser.one_shot_state(&chars("#= B n: u8(1)")), Some(Ok(false)));
    assert_eq!(parser.capturing_state(), RecordCapturingState::Multiline);
    assert_eq!(parser.multiline_capture_state(&chars("m: u8(2)")), Some(Ok(())));
    assert_eq!(text(parser.line_buffer()), "B n: u8(1) m: u8(2)");
    assert_eq!(parser.multiline_capture_state(&chars("k: x8([1,")), Some(Ok(())));
    assert_eq!(parser.multiline_capture_state(&chars("2])")), Some(Ok(())));
    assert_eq!(text(parser.line_buffer()), "B n: u8(1) m: u8(2) k: x8([1,2])");
    assert_eq!(
        parser.multiline_capture_state(&chars("bad: u8(x) =#")),
        Some(Err(LineParsingError::BadRecordArg(RecordParsingError::BadU8Format(
            NumberError::InvalidDigit
        ))))
    );
    assert_eq!(text(parser.line_buffer()), "B n: u8(1) m: u8(2) k: x8([1,2])");
    assert_eq!(parser.capturing_state(), RecordCapturingState::Multiline);
    assert_eq!(parser.model().operation_ref_table().len(), 1);
    assert_eq!(
        parser.multiline_capture_state(&chars("=#")),
        Some(Err(LineParsingError::UncompleteRecordArg))
    );
    assert_eq!(text(parser.line_buffer()), "B n: u8(1) m: u8(2) k: x8([1,2])");
    assert_eq!(parser.multiline_capture_state(&chars("")), Some(Ok(())));
    assert_eq!(text(parser.line_buffer()), "B n: u8(1) m: u8(2) k: x8([1,2]) ");
    assert_eq!(parser.multiline_capture_state(&chars("j: u8(3) =#")), Some(Ok(())));
    assert_eq!(text(parser.line_buffer()), "B n: u8(1) m: u8(2) k: x8([1,2]) j: u8(3)");
    assert_eq!(parser.model().operation_ref_table().len(), 2);

    assert_eq!(
        parser.one_shot_state(&chars("#> other >#")),
        Some(Err(LineParsingError::UnmatchedNameSequenceStop(Box::new((
            "other".to_string(),
            "".to_string()
        )))))
    );
    assert_eq!(parser.one_shot_state(&chars("#>  >#")), Some(Ok(true)));
    assert_eq!(parser.one_shot_state(&chars("#= C n: u8(300) =#")).map(|r| r.is_err()), Some(true));
    assert_eq!(text(parser.line_buffer()), "B n: u8(1) m: u8(2) k: x8([1,2]) j: u8(3)");
    assert_eq!(parser.model().operation_ref_table().len(), 2);
}

#[test]
fn parsing_starts_from_the_first_line_whatever_was_fed_before() {
    let log = "#< seq <#\n#= A n: u8(1) =#\n#> seq >#\n";
    let chars: Vec<char> = "#= Early n: u8(9)".chars().collect();
    let mut used = Parser::new(log.to_string());
    assert_eq!(used.one_shot_state(&chars), Some(Ok(false)));
    let model = used.parse_file().unwrap();
    let fresh = parse(log).unwrap();
    assert_eq!(references(&model), references(&fresh));
    assert_eq!(model.defined_records(), fresh.defined_records());
    assert_eq!(model.operation_instances(), fresh.operation_instances());
}
