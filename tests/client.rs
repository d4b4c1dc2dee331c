use prompt_dialog::client::{
    after_append, after_submit, append_prompt_event, send_start, submit_event, SendError,
    SendStep,
};

#[test]
fn append_event_carries_text() {
    let e = append_prompt_event("hello @x");
    assert_eq!(e.event_type, "tui.prompt.append");
    assert_eq!(e.property, "text");
    assert_eq!(e.value, "hello @x");
    match send_start("abc") {
        SendStep::Post(e) => assert_eq!(e.value, "abc"),
        other => panic!("unexpected {:?}", other),
    }
}

#[test]
fn submit_event_is_prompt_submit() {
    let e = submit_event();
    assert_eq!(e.event_type, "tui.command.execute");
    assert_eq!(e.property, "command");
    assert_eq!(e.value, "prompt.submit");
}

#[test]
fn failed_append_stops_before_submit() {
    match after_append(Err("down".to_string())) {
        SendStep::Done(Err(SendError::Append(m))) => assert_eq!(m, "down"),
        other => panic!("unexpected {:?}", other),
    }
    match after_append(Ok(())) {
        SendStep::Post(e) => assert_eq!(e.value, "prompt.submit"),
        other => panic!("unexpected {:?}", other),
    }
}

#[test]
fn failed_submit_is_partial_failure() {
    assert!(matches!(after_submit(Ok(())), Ok(())));
    match after_submit(Err("late".to_string())) {
        Err(SendError::Submit(m)) => assert_eq!(m, "late"),
        other => panic!("unexpected {:?}", other),
    }
}
