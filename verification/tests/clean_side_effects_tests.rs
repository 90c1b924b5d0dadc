use qwik_optimizer_oxc::clean_side_effects::{TopStatement, Treeshaker};

#[test]
fn test_marker_records_call_spans() {
    // `foo(); bar(); const x = 1;`
    let program = vec![
        TopStatement::Call { start: 0 },
        TopStatement::Call { start: 7 },
        TopStatement::Other,
    ];
    let mut ts = Treeshaker::new();
    ts.mark_module(&program);
    let mut after = program.clone();
    ts.clean_module(&mut after);
    assert_eq!(after, program);
    assert!(!ts.did_drop());
}

#[test]
fn test_cleaner_preserves_non_call_stmts() {
    // `const x = 1; let y = foo();`
    let mut program = vec![TopStatement::Other, TopStatement::Other];
    let len_before = program.len();
    let mut ts = Treeshaker::new();
    ts.mark_module(&program);
    ts.clean_module(&mut program);
    assert_eq!(program.len(), len_before);
    assert!(!ts.did_drop());
}

#[test]
fn test_treeshaker_end_to_end_drops_synthesised() {
    // before: `userCall();`  after: `userCall(); transformCall();`
    let pre_program = vec![TopStatement::Call { start: 0 }];
    let mut ts = Treeshaker::new();
    ts.mark_module(&pre_program);
    let mut post_program = vec![TopStatement::Call { start: 0 }, TopStatement::Call { start: 12 }];
    ts.clean_module(&mut post_program);
    assert!(ts.did_drop());
    assert_eq!(post_program.len(), 1);
}

#[test]
fn new_expressions_are_marked_and_cleaned_like_calls() {
    let mut ts = Treeshaker::new();
    ts.mark_module(&[TopStatement::New { start: 3 }]);
    let mut body = vec![
        TopStatement::New { start: 3 },
        TopStatement::New { start: 9 },
        TopStatement::Other,
        TopStatement::Call { start: 3 },
    ];
    ts.clean_module(&mut body);
    assert_eq!(
        body,
        vec![TopStatement::New { start: 3 }, TopStatement::Other, TopStatement::Call { start: 3 }]
    );
    assert!(ts.did_drop());
}
