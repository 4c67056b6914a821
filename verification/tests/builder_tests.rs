use turing_machines::{State, TMDesc, TMDescError, Transition};

#[test]
fn lines_to_skip() {
    assert_eq!(TMDesc::parse_line(""), None);
    assert_eq!(TMDesc::parse_line("#"), None);
    assert_eq!(TMDesc::parse_line("# a\tcomment"), None);
}

#[test]
fn lines_to_fields() {
    assert_eq!(TMDesc::parse_line("q0"), Some(vec!["q0"]));
    assert_eq!(TMDesc::parse_line("\ta\tb"), Some(vec!["", "a", "b"]));
    assert_eq!(TMDesc::parse_line("q0\t-\tq1,a,R"), Some(vec!["q0", "-", "q1,a,R"]));
    assert_eq!(TMDesc::parse_line(" #x"), Some(vec![" #x"]));
    assert_eq!(TMDesc::parse_line("a\t"), Some(vec!["a", ""]));
}

#[test]
fn new_description_is_empty() {
    let desc = TMDesc::new();
    assert!(desc.input_symbols.is_empty());
    assert!(desc.states.is_empty());
    assert!(!desc.is_runnable());
    let desc = TMDesc::default();
    assert!(desc.input_symbols.is_empty());
    assert!(desc.states.is_empty());
}

#[test]
fn alphabet_is_set_from_single_characters() {
    let mut desc = TMDesc::new();
    assert_eq!(desc.add_alphabet(&["x", "ぜ", "B"]), Ok(()));
    assert_eq!(desc.input_symbols, vec!['x', 'ぜ', 'B']);
    assert_eq!(desc.blank_symbol(), 'B');
    assert_eq!(desc.find_symbol('ぜ'), Some(1));
    assert_eq!(desc.find_symbol('y'), None);
}

#[test]
fn alphabet_of_long_or_empty_words_is_refused() {
    let mut desc = TMDesc::new();
    assert_eq!(desc.add_alphabet(&["a", "bc"]), Err(TMDescError::MalformedDescription));
    assert_eq!(desc.add_alphabet(&["a", ""]), Err(TMDescError::MalformedDescription));
    assert!(desc.input_symbols.is_empty());
}

#[test]
fn alphabet_with_a_repeated_symbol_is_refused() {
    let mut desc = TMDesc::new();
    assert_eq!(desc.add_alphabet(&["a", "b", "a"]), Err(TMDescError::MalformedDescription));
    assert!(desc.input_symbols.is_empty());
    assert_eq!(
        TMDesc::from_string("\ta\tb\ta\nSTOPP\n").unwrap_err(),
        TMDescError::MalformedDescription
    );
}

#[test]
fn alphabet_after_a_state_is_refused() {
    let mut desc = TMDesc::new();
    assert_eq!(desc.add_alphabet(&["a"]), Ok(()));
    assert_eq!(desc.add_state(State::new("q0".to_string(), &["-"]).unwrap()), Ok(()));
    assert_eq!(desc.add_alphabet(&["b"]), Err(TMDescError::MalformedDescription));
    assert_eq!(desc.input_symbols, vec!['a']);
}

#[test]
fn state_with_a_taken_name_is_refused() {
    let mut desc = TMDesc::new();
    assert_eq!(desc.handle_line(&["", "a", "b"]), Ok(()));
    assert_eq!(desc.handle_line(&["q0", "-", "-"]), Ok(()));
    assert_eq!(desc.handle_line(&["q1", "-", "-"]), Ok(()));
    assert_eq!(desc.handle_line(&["q0", "q1,a,R", "-"]), Err(TMDescError::MalformedDescription));
    assert_eq!(desc.states.len(), 2);
    assert_eq!(
        desc.add_state(State::new("q1".to_string(), &["-", "-"]).unwrap()),
        Err(TMDescError::MalformedDescription)
    );
}

#[test]
fn state_with_too_many_fields_is_refused() {
    let mut desc = TMDesc::new();
    assert_eq!(desc.handle_line(&["", "a", "b"]), Ok(()));
    assert_eq!(
        desc.handle_line(&["q0", "-", "-", "-"]),
        Err(TMDescError::MalformedDescription)
    );
    assert_eq!(desc.handle_line(&["q0", "-"]), Err(TMDescError::MalformedDescription));
}

#[test]
fn state_with_a_bad_cell_is_refused() {
    let mut desc = TMDesc::new();
    assert_eq!(desc.handle_line(&["", "a", "b"]), Ok(()));
    assert_eq!(desc.handle_line(&["q0", "-", "q0,a"]), Err(TMDescError::MalformedDescription));
    assert_eq!(desc.handle_line(&["q0", "-", "q0,a,X"]), Err(TMDescError::MalformedDescription));
    assert_eq!(desc.handle_line(&["q0", "", "-"]), Err(TMDescError::MalformedDescription));
    assert!(desc.states.is_empty());
    assert_eq!(
        State::new("q".to_string(), &["-", "x"]).unwrap_err(),
        TMDescError::MalformedDescription
    );
}

#[test]
fn record_without_fields_is_refused() {
    let mut desc = TMDesc::new();
    assert_eq!(desc.handle_line(&[]), Err(TMDescError::MalformedDescription));
    assert_eq!(desc.handle_line(&["", "a"]), Ok(()));
    assert_eq!(desc.handle_line(&[]), Err(TMDescError::MalformedDescription));
}

#[test]
fn name_only_state_gets_a_row_of_absent_transitions() {
    let mut desc = TMDesc::new();
    assert_eq!(desc.handle_line(&["", "a", "b", "c"]), Ok(()));
    assert_eq!(desc.handle_line(&["halt"]), Ok(()));
    assert_eq!(desc.states[0].name, "halt");
    assert_eq!(desc.states[0].transitions.len(), 3);
    assert!(desc.states[0].transitions.iter().all(|t| t.is_none()));
}

#[test]
fn state_cells_are_read_in_order() {
    let state = State::new("q".to_string(), &["-", "p,1,R", "-", "q,0,N"]).unwrap();
    assert_eq!(state.name, "q");
    assert_eq!(state.transitions.len(), 4);
    assert!(state.transitions[0].is_none());
    assert_eq!(state.transitions[1].as_ref().unwrap().state, "p");
    assert_eq!(state.transitions[1].as_ref().unwrap().symbol, '1');
    assert!(state.transitions[2].is_none());
    assert_eq!(state.transitions[3].as_ref().unwrap().state, "q");
}

#[test]
fn state_lookup_by_name() {
    let mut desc = TMDesc::new();
    desc.handle_line(&["", "a"]).unwrap();
    desc.handle_line(&["q0", "q1,a,R"]).unwrap();
    desc.handle_line(&["q1", "-"]).unwrap();
    assert_eq!(desc.find_state(&"q0".to_string()), Some(0));
    assert_eq!(desc.find_state(&"q1".to_string()), Some(1));
    assert_eq!(desc.find_state(&"q2".to_string()), None);
    let unresolved = Transition::from_str("q1,a,R").unwrap();
    assert_eq!(desc.resolve_state_index(&unresolved), Ok(1));
    let unknown = Transition::from_str("q9,a,R").unwrap();
    assert_eq!(
        desc.resolve_state_index(&unknown),
        Err(TMDescError::UnknownStateReference("q9".to_string()))
    );
    let mut cached = Transition::from_str("q1,a,R").unwrap();
    cached.state_index = Some(0);
    assert_eq!(desc.resolve_state_index(&cached), Ok(0));
}

#[test]
fn records_build_a_frozen_description() {
    let lines = vec![vec!["", "ぜ", "B"], vec!["q0", "q1,B,N", "q0,ぜ,R"], vec![
        "q1",
        "STOPP,B,N",
        "STOPP,ぜ,L",
    ], vec!["STOPP", "q1,B,N", "q0,ぜ,R"]];
    let desc = TMDesc::from_lines(&lines).unwrap();
    assert!(desc.is_runnable());
    assert_eq!(desc.input_symbols, vec!['ぜ', 'B']);
    assert_eq!(desc.states.len(), 3);
    assert_eq!(desc.states[1].transitions[1].as_ref().unwrap().state_index, Some(2));
    assert!(desc.states[2].is_final());
    assert!(!desc.states[0].is_final());
}

#[test]
fn records_stop_at_the_first_error() {
    let lines = vec![vec!["", "a"], vec!["q0", "nowhere,a,R"], vec!["q0", "-"]];
    assert_eq!(TMDesc::from_lines(&lines).unwrap_err(), TMDescError::MalformedDescription);
    let lines = vec![vec!["", "a"], vec!["q0", "nowhere,a,R"]];
    assert_eq!(
        TMDesc::from_lines(&lines).unwrap_err(),
        TMDescError::UnknownStateReference("nowhere".to_string())
    );
}

#[test]
fn text_with_comments_blank_lines_and_carriage_returns() {
    let text = "# a machine\r\n\r\n\ta\tb\r\n# states\r\nq0\tq0,b,R\tSTOPP,b,N\r\n\r\nSTOPP\r\n";
    let desc = TMDesc::from_string(text).unwrap();
    assert_eq!(desc.input_symbols, vec!['a', 'b']);
    assert_eq!(desc.states.len(), 2);
    assert_eq!(desc.states[0].name, "q0");
    assert_eq!(desc.states[1].name, "STOPP");
    assert_eq!(desc.states[1].transitions.len(), 2);
}

#[test]
fn text_without_a_final_line_feed() {
    let desc = TMDesc::from_string("\ta\nq0\tq0,a,N").unwrap();
    assert_eq!(desc.states.len(), 1);
    assert_eq!(desc.states[0].transitions[0].as_ref().unwrap().state_index, Some(0));
}

#[test]
fn empty_text_gives_an_empty_description() {
    let desc = TMDesc::from_string("").unwrap();
    assert!(desc.input_symbols.is_empty());
    assert!(desc.states.is_empty());
    assert!(!desc.is_runnable());
}

#[test]
fn descriptions_that_cannot_run() {
    let mut desc = TMDesc::new();
    desc.handle_line(&["", "a"]).unwrap();
    assert!(!desc.is_runnable());
    desc.handle_line(&["q0", "q0,a,R"]).unwrap();
    assert!(!desc.is_resolved());
    assert!(!desc.is_runnable());
    desc.resolve_all_state_indices().unwrap();
    assert!(desc.is_runnable());
    desc.states[0].transitions[0].as_mut().unwrap().state_index = Some(3);
    assert!(!desc.is_resolved());
    desc.states[0].transitions[0].as_mut().unwrap().state_index = Some(0);
    assert!(desc.is_runnable());
    desc.states[0].transitions.push(None);
    assert!(!desc.has_uniform_rows());
    desc.states[0].transitions.pop();
    desc.input_symbols = vec!['a', 'a'];
    desc.states[0].transitions.push(None);
    assert!(!desc.has_distinct_symbols());
    assert!(!desc.is_runnable());
    desc.input_symbols = vec!['a', 'b'];
    assert!(desc.is_runnable());
    let copy = desc.states[0].clone();
    desc.states.push(copy);
    assert!(!desc.has_distinct_names());
    assert!(!desc.is_runnable());
}
