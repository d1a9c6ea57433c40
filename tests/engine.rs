use textfsm::template::{CompileErrorKind, RecordAction, Target, TemplateError, ValueOption};
use textfsm::grammar::LineOp;
use textfsm::value::{Cell, Item, Record};
use textfsm::{parse_template, run};

fn text(s: &str) -> Cell {
    Cell::Text(s.to_string())
}

fn row(cells: Vec<Cell>) -> Record {
    Record { values: cells }
}

fn records(template: &str, input: &str) -> Vec<Record> {
    let t = parse_template(template).expect("template compiles");
    run(&t, input).expect("run succeeds")
}

fn compile_kind(template: &str) -> (CompileErrorKind, usize, String) {
    match parse_template(template) {
        Err(TemplateError::TextFSMTemplateError { kind, line, detail }) => (kind, line, detail),
        Err(other) => panic!("unexpected error {:?}", other),
        Ok(_) => panic!("template was accepted"),
    }
}

const CHASSIS: &str = "Value Filldown Chassis (\\S+)\nValue Required Slot (\\d+)\n\nStart\n  ^Chassis: ${Chassis}\n  ^Slot: ${Slot} -> Record\n";

#[test]
fn chassis_slot_scenario() {
    let recs = records(CHASSIS, "Chassis: fpc0\nSlot: 1\nSlot: 2");
    assert_eq!(
        recs,
        vec![row(vec![text("fpc0"), text("1")]), row(vec![text("fpc0"), text("2")])]
    );
}

#[test]
fn runs_are_deterministic() {
    let t = parse_template(CHASSIS).unwrap();
    let input = "Chassis: a\nSlot: 7\nChassis: b\nSlot: 8\n";
    let first = run(&t, input).unwrap();
    let second = run(&t, input).unwrap();
    assert_eq!(first, second);
    assert_eq!(first.len(), 2);
    assert_eq!(first[1], row(vec![text("b"), text("8")]));
}

#[test]
fn filldown_survives_clear() {
    let tpl = "Value Filldown Host (\\w+)\nValue Port (\\d+)\n\nStart\n  ^host ${Host}\n  ^port ${Port}\n  ^reset -> Clear\n  ^emit -> Record\n";
    let recs = records(tpl, "host r1\nport 5\nreset\nemit\nport 6\nemit\n");
    // the remembered host is still pending at the end, so the flush emits it
    assert_eq!(
        recs,
        vec![
            row(vec![text("r1"), text("")]),
            row(vec![text("r1"), text("6")]),
            row(vec![text("r1"), text("")]),
        ]
    );
}

#[test]
fn clear_all_forgets_filldown() {
    let tpl = "Value Filldown Host (\\w+)\nValue Port (\\d+)\n\nStart\n  ^host ${Host}\n  ^port ${Port} -> Record\n  ^wipe -> ClearAll\n";
    let recs = records(tpl, "host r1\nport 1\nwipe\nport 2\n");
    assert_eq!(
        recs,
        vec![row(vec![text("r1"), text("1")]), row(vec![text(""), text("2")])]
    );
}

#[test]
fn required_empty_suppresses_record_but_clears() {
    let tpl = "Value Required Name (\\w+)\nValue Speed (\\d+)\n\nStart\n  ^speed ${Speed}\n  ^name ${Name}\n  ^end -> Record\n";
    let recs = records(tpl, "speed 10\nend\nname eth0\nend\n");
    assert_eq!(recs, vec![row(vec![text("eth0"), text("")])]);
}

#[test]
fn list_keeps_match_order() {
    let tpl = "Value List Member (\\w+)\n\nStart\n  ^member ${Member}\n";
    let recs = records(tpl, "member c\nmember a\nmember b\n");
    assert_eq!(
        recs,
        vec![row(vec![Cell::Items(vec![
            Item::Scalar("c".to_string()),
            Item::Scalar("a".to_string()),
            Item::Scalar("b".to_string()),
        ])])]
    );
}

#[test]
fn list_with_named_subgroups_appends_mappings() {
    let tpl = "Value List Pair ((?P<k>\\w+)=(?P<v>\\w+))\n\nStart\n  ^set ${Pair}\n";
    let recs = records(tpl, "set a=1\nset b=2\n");
    assert_eq!(
        recs,
        vec![row(vec![Cell::Items(vec![
            Item::Group(vec![("k".to_string(), "a".to_string()), ("v".to_string(), "1".to_string())]),
            Item::Group(vec![("k".to_string(), "b".to_string()), ("v".to_string(), "2".to_string())]),
        ])])]
    );
}

#[test]
fn fillup_fills_earlier_records() {
    let tpl = "Value Fillup Owner (\\w+)\nValue Name (\\w+)\n\nStart\n  ^name ${Name} -> Record\n  ^owner ${Owner}\n\nEOF\n";
    let recs = records(tpl, "name a\nname b\nowner x\nname c\n");
    assert_eq!(
        recs,
        vec![
            row(vec![text("x"), text("a")]),
            row(vec![text("x"), text("b")]),
            row(vec![text("x"), text("c")]),
        ]
    );
}

#[test]
fn fillup_stops_at_a_filled_record() {
    let tpl = "Value Fillup Owner (\\w+)\nValue Name (\\w+)\n\nStart\n  ^name ${Name} -> Record\n  ^owner ${Owner}\n  ^drop -> ClearAll\n\nEOF\n";
    let recs = records(tpl, "owner p\nname a\ndrop\nname b\nowner q\nname c\n");
    assert_eq!(
        recs,
        vec![
            row(vec![text("p"), text("a")]),
            row(vec![text("q"), text("b")]),
            row(vec![text("q"), text("c")]),
        ]
    );
}

#[test]
fn error_action_reports_message_and_line() {
    let tpl = "Value A (\\w+)\n\nStart\n  ^ok ${A}\n  ^bad -> Error broken input\n";
    let t = parse_template(tpl).unwrap();
    assert_eq!(
        run(&t, "ok x\nbad\nok y\n"),
        Err(TemplateError::TextFsmError { message: "broken input".to_string(), line: 2 })
    );
}

#[test]
fn end_stops_without_flush() {
    let tpl = "Value A (\\w+)\n\nStart\n  ^a ${A}\n  ^stop -> End\n";
    let recs = records(tpl, "a one\nstop\na two\n");
    assert_eq!(recs, Vec::<Record>::new());
}

#[test]
fn eof_target_flushes_and_stops() {
    let tpl = "Value A (\\w+)\n\nStart\n  ^a ${A}\n  ^stop -> EOF\n";
    let recs = records(tpl, "a one\nstop\na two\n");
    assert_eq!(recs, vec![row(vec![text("one")])]);
}

#[test]
fn implicit_flush_at_end_of_input() {
    let tpl = "Value A (\\w+)\nValue B (\\w+)\n\nStart\n  ^a ${A}\n";
    let recs = records(tpl, "a one\r\n");
    assert_eq!(recs, vec![row(vec![text("one"), text("")])]);
}

#[test]
fn declared_eof_state_suppresses_flush() {
    let tpl = "Value A (\\w+)\n\nStart\n  ^a ${A}\n\nEOF\n";
    assert_eq!(records(tpl, "a one\n"), Vec::<Record>::new());
}

#[test]
fn continue_tries_following_rules_on_same_line() {
    let tpl = "Value A (\\w+)\nValue B (\\d+)\n\nStart\n  ^${A} -> Continue\n  \\s${B}$$ -> Record\n";
    let recs = records(tpl, "alpha 12\n");
    assert_eq!(recs, vec![row(vec![text("alpha"), text("12")])]);
}

#[test]
fn state_transitions_select_rules() {
    let tpl = "Value Model (\\S+)\nValue Slot (\\d+)\n\n# entry\nStart\n  ^begin -> Detail\n\nDetail\n  ^slot ${Slot}\n  ^model ${Model} -> Record Start\n";
    let recs = records(tpl, "slot 1\nbegin\nslot 2\nmodel m1\nslot 3\n");
    assert_eq!(recs, vec![row(vec![text("m1"), text("2")])]);
}

#[test]
fn record_and_state_in_one_action() {
    let tpl = "Value V (\\d+)\n\nStart\n  ^v ${V} -> Next.Record Other\n\nOther\n  ^v ${V} -> Continue.Clear\n  ^v -> Start\n";
    let recs = records(tpl, "v 1\nv 2\nv 3\n");
    assert_eq!(recs, vec![row(vec![text("1")]), row(vec![text("3")])]);
}

#[test]
fn missing_start_is_rejected() {
    let (kind, _, _) = compile_kind("Value A (\\w+)\n\nBegin\n  ^a ${A}\n");
    assert_eq!(kind, CompileErrorKind::MissingStart);
    let (kind, _, _) = compile_kind("Value A (\\w+)\n");
    assert_eq!(kind, CompileErrorKind::MissingStart);
}

#[test]
fn rule_before_any_state_is_rejected() {
    let (kind, line, _) = compile_kind("Value A (\\w+)\n\n  ^a ${A}\nStart\n");
    assert_eq!((kind, line), (CompileErrorKind::MissingStart, 3));
}

#[test]
fn undeclared_state_is_named_in_error() {
    let (kind, line, detail) = compile_kind("Value A (\\w+)\n\nStart\n  ^a ${A} -> Nowhere\n");
    assert_eq!(kind, CompileErrorKind::UnknownState);
    assert_eq!(line, 4);
    assert_eq!(detail, "Nowhere");
}

#[test]
fn duplicate_state_is_rejected() {
    let (kind, line, detail) = compile_kind("Value A (\\w+)\n\nStart\n  ^a ${A}\nStart\n");
    assert_eq!((kind, line, detail.as_str()), (CompileErrorKind::DuplicateState, 5, "Start"));
}

#[test]
fn duplicate_value_is_rejected() {
    let (kind, line, detail) = compile_kind("Value A (\\w+)\nValue A (\\d+)\n\nStart\n");
    assert_eq!((kind, line, detail.as_str()), (CompileErrorKind::DuplicateValue, 2, "A"));
}

#[test]
fn unknown_option_is_named_in_error() {
    let (kind, line, detail) = compile_kind("Value Filldown,Sticky A (\\w+)\n\nStart\n");
    assert_eq!((kind, line, detail.as_str()), (CompileErrorKind::UnknownOption, 1, "Sticky"));
    let (kind, line, detail) = compile_kind("Value Sorted,Key Name (\\S+)\n\nStart\n");
    assert_eq!((kind, line, detail.as_str()), (CompileErrorKind::UnknownOption, 1, "Sorted"));
}

#[test]
fn invalid_value_pattern_is_rejected() {
    let (kind, line, detail) = compile_kind("Value Slot (\\d+\n\nStart\n");
    assert_eq!((kind, line), (CompileErrorKind::InvalidPattern, 1));
    assert!(detail.starts_with("Slot: "));
    assert!(detail.len() > "Slot: ".len());
}

#[test]
fn malformed_value_line_is_rejected() {
    let (kind, line, _) = compile_kind("Valu A (\\w+)\n\nStart\n");
    assert_eq!((kind, line), (CompileErrorKind::ValueLine, 1));
    let (kind, _, _) = compile_kind("Value A\n\nStart\n");
    assert_eq!(kind, CompileErrorKind::ValueLine);
}

#[test]
fn unknown_placeholder_is_rejected() {
    let (kind, line, detail) = compile_kind("Value A (\\w+)\n\nStart\n  ^${B}\n");
    assert_eq!((kind, line, detail.as_str()), (CompileErrorKind::UnknownPlaceholder, 4, "B"));
}

#[test]
fn malformed_action_is_rejected() {
    let (kind, line, detail) = compile_kind("Value A (\\w+)\n\nStart\n  ^a -> Record Two Words\n");
    assert_eq!((kind, line, detail.as_str()), (CompileErrorKind::MalformedAction, 4, "^a -> Record Two Words"));
    let (kind, _, _) = compile_kind("Value A (\\w+)\n\nStart\n  ^a -> Next.Bogus\n");
    assert_eq!(kind, CompileErrorKind::MalformedAction);
}

#[test]
fn error_rule_stays_and_names_no_state() {
    let t = parse_template("Value A (\\w+)\n\nStart\n  ^bad -> Error Unexpected\n").unwrap();
    let r = &t.states[0].rules[0];
    assert_eq!(r.line_op, textfsm::template::LineAction::Error("Unexpected".to_string()));
    assert_eq!(r.record_op, RecordAction::NoRecord);
    assert_eq!(r.new_state, "");
    assert_eq!(r.target, Target::Stay);
}

#[test]
fn rule_compiled_directly_drops_indentation() {
    let line: Vec<char> = "  ^Slot: ${Slot} -> Record".chars().collect();
    let vals = vec![("Slot".chars().collect::<Vec<char>>(), "(\\d+)".chars().collect::<Vec<char>>())];
    let states = vec!["Start".chars().collect::<Vec<char>>()];
    let r = textfsm::template::TemplateRule::from_template_line(&line, &vals, &states, 7).unwrap();
    assert_eq!(r.regex, "^Slot: (?P<Slot>(\\d+))");
    assert_eq!(r.record_op, RecordAction::Record);
    assert_eq!(r.target, Target::Stay);
}

#[test]
fn first_bad_rule_in_text_order_is_reported() {
    let tpl = "Value A (\\w+)\n\nStart\n  ^a -> Other\n  ^b -> Missing\n\nOther\n  ^${Z}\n";
    let (kind, line, detail) = compile_kind(tpl);
    assert_eq!((kind, line, detail.as_str()), (CompileErrorKind::UnknownState, 5, "Missing"));
}

#[test]
fn undeclared_state_example_names_missing() {
    let (kind, line, detail) = compile_kind("Value Slot (\\d+)\n\nStart\n  ^Slot: ${Slot} -> Record Missing\n");
    assert_eq!((kind, line, detail.as_str()), (CompileErrorKind::UnknownState, 4, "Missing"));
}

#[test]
fn first_state_not_start_names_start() {
    let (kind, line, detail) = compile_kind("Value A (\\w+)\n\nBegin\n  ^a ${A}\nStart\n");
    assert_eq!((kind, line, detail.as_str()), (CompileErrorKind::MissingStart, 0, "Start"));
}

#[test]
fn continue_with_new_state_is_rejected() {
    let (kind, line, detail) = compile_kind("Value A (\\w+)\n\nStart\n  ^a -> Continue Start\n");
    assert_eq!((kind, line, detail.as_str()), (CompileErrorKind::ContinueWithState, 4, "Start"));
}

#[test]
fn invalid_rule_pattern_is_rejected() {
    let (kind, line, _) = compile_kind("Value A (\\w+)\n\nStart\n  ^(${A}\n");
    assert_eq!((kind, line), (CompileErrorKind::InvalidPattern, 4));
}

#[test]
fn compiled_template_has_expected_shape() {
    let tpl = "# header comment\nValue Required,Key Id (\\d+)\nValue List Tags (\\w+)\n\nStart\n  # a comment\n  ^id ${Id} -> Record Tail\n\nTail\n  ^x -> End\n";
    let t = parse_template(tpl).unwrap();
    assert_eq!(t.values.len(), 2);
    assert_eq!(t.values[0].name, "Id");
    assert_eq!(t.values[0].options, vec![ValueOption::Required, ValueOption::Key]);
    assert_eq!(t.values[0].regex, "(\\d+)");
    assert_eq!(t.names, vec!["Id".to_string(), "Tags".to_string()]);
    assert_eq!(t.states.len(), 2);
    assert_eq!(t.states[0].name, "Start");
    assert_eq!(t.states[0].rules.len(), 1);
    let r = &t.states[0].rules[0];
    assert_eq!(r.regex, "^id (?P<Id>(\\d+))");
    assert_eq!(r.record_op, RecordAction::Record);
    assert_eq!(r.new_state, "Tail");
    assert_eq!(r.target, Target::State(1));
    assert_eq!(r.pattern.as_str(), "^id (?P<Id>(\\d+))");
    assert_eq!(t.states[1].rules[0].target, Target::End);
    assert!(!t.has_eof);
}

#[test]
fn option_and_action_tokens() {
    assert_eq!(ValueOption::from_str("Filldown"), Some(ValueOption::Filldown));
    assert_eq!(ValueOption::from_str("Fillup"), Some(ValueOption::Fillup));
    assert_eq!(ValueOption::from_str("List"), Some(ValueOption::List));
    assert_eq!(ValueOption::from_str("list"), None);
    assert_eq!(RecordAction::from_str("ClearAll"), Some(RecordAction::ClearAll));
    assert_eq!(RecordAction::from_str("NoRecord"), Some(RecordAction::NoRecord));
    assert_eq!(RecordAction::from_str("Clearall"), None);
    assert_eq!(LineOp::from_str("Continue"), Some(LineOp::Continue));
    assert_eq!(LineOp::from_str("Error"), Some(LineOp::Error));
    assert_eq!(LineOp::from_str(""), None);
}

#[test]
fn routing_engine_example() {
    let tpl = "# Chassis value will be null for single chassis routers.\nValue Filldown Chassis (.cc.?-re.)\nValue Required Slot (\\d+)\nValue State (\\w+)\nValue Temp (\\d+)\nValue CPUTemp (\\d+)\nValue DRAM (\\d+)\nValue Model (\\S+)\n\n# Allway starts in 'Start' state.\nStart\n  ^${Chassis}\n  # Record current values and change state.\n  # No record will be output on first pass as 'Slot' is 'Required' but empty.\n  ^Routing Engine status: -> Record RESlot\n\n# A state transition was not strictly necessary but helpful for the example.\nRESlot\n  ^\\s+Slot\\s+${Slot}\n  ^\\s+Current state\\s+${State}\n  ^\\s+Temperature\\s+${Temp} degrees\n  ^\\s+CPU temperature\\s+${CPUTemp} degrees\n  ^\\s+DRAM\\s+${DRAM} MB\n  # Transition back to Start state.\n  ^\\s+Model\\s+${Model} -> Start\n\n# An implicit EOF state outputs the last record.\n";
    let input = "lcc0-re0:\nRouting Engine status:\n  Slot 0:\n    Current state                  Master\n    Temperature                 39 degrees C / 102 degrees F\n    CPU temperature             55 degrees C / 131 degrees F\n    DRAM                      2048 MB\n    Model                          RE-4.0\nRouting Engine status:\n  Slot 1:\n    Current state                  Backup\n    Temperature                 30 degrees C / 86 degrees F\n    CPU temperature             30 degrees C / 86 degrees F\n    DRAM                      2048 MB\n    Model                          RE-4.0\n";
    let recs = records(tpl, input);
    assert_eq!(recs.len(), 2);
    assert_eq!(
        recs[0],
        row(vec![text("lcc0-re0"), text("0"), text("Master"), text("39"), text("55"), text("2048"), text("RE-4.0")])
    );
    assert_eq!(
        recs[1],
        row(vec![text("lcc0-re0"), text("1"), text("Backup"), text("30"), text("30"), text("2048"), text("RE-4.0")])
    );
}
