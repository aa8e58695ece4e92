use reactor_core::{
    advance, want, Fault, IoOutcome, IoRequest, OpState, Operation, Resubmit, Step, READ_CHUNK,
};

fn goes_on(op: Operation) -> Step {
    Step { next: Some(op), rearm: None, release: None, text: None, fault: None }
}

fn ends(descriptor: i32, fault: Option<Fault>) -> Step {
    Step { next: None, rearm: None, release: Some(descriptor), text: None, fault }
}

#[test]
fn read_chunk_is_thirty_two_bytes() {
    assert_eq!(READ_CHUNK, 32);
}

#[test]
fn a_listener_wants_to_accept() {
    assert_eq!(want(&Operation::listening(3)), IoRequest::Accept { listener: 3 });
}

#[test]
fn a_reader_wants_one_bounded_read() {
    assert_eq!(want(&Operation::reading(4)), IoRequest::Read { descriptor: 4, limit: 32 });
}

#[test]
fn a_writer_wants_nothing() {
    let op = Operation { descriptor: 5, state: OpState::Writing };
    assert_eq!(want(&op), IoRequest::Nothing);
}

#[test]
fn accept_starts_reading_and_rearms_the_listener() {
    let step = advance(Operation::listening(3), IoOutcome::Accepted(10));
    assert_eq!(
        step,
        Step {
            next: Some(Operation { descriptor: 10, state: OpState::Reading }),
            rearm: Some(Operation { descriptor: 3, state: OpState::Listening }),
            release: None,
            text: None,
            fault: None,
        }
    );
}

#[test]
fn accept_that_found_nothing_rearms_the_listener() {
    let op = Operation::listening(3);
    assert_eq!(advance(op, IoOutcome::WouldBlock), goes_on(op));
}

#[test]
fn accept_that_failed_rearms_the_listener_and_reports() {
    let op = Operation::listening(3);
    assert_eq!(
        advance(op, IoOutcome::Failed(24)),
        Step { next: Some(op), rearm: None, release: None, text: None, fault: Some(Fault::Accept(24)) }
    );
}

#[test]
fn a_listener_keeps_listening_after_an_answer_it_did_not_ask_for() {
    let op = Operation::listening(3);
    let expected =
        Step { next: Some(op), rearm: None, release: None, text: None, fault: Some(Fault::Unexpected) };
    assert_eq!(advance(op, IoOutcome::Received(vec![1, 2, 3])), expected);
    assert_eq!(advance(op, IoOutcome::Nothing), expected);
}

#[test]
fn hello_is_received_as_text() {
    let op = Operation::reading(10);
    let step = advance(op, IoOutcome::Received(b"hello".to_vec()));
    assert_eq!(step.text, Some(String::from("hello")));
    assert_eq!(step.next, Some(op));
    assert_eq!(step.rearm, None);
    assert_eq!(step.release, None);
    assert_eq!(step.fault, None);
}

#[test]
fn text_of_several_bytes_a_character_is_decoded() {
    let op = Operation::reading(10);
    let step = advance(op, IoOutcome::Received(vec![0x67, 0x72, 0xc3, 0xbc, 0xc3, 0x9f, 0x20, 0xe2, 0x82, 0xac]));
    assert_eq!(step.text, Some(String::from("gr\u{fc}\u{df} \u{20ac}")));
    assert_eq!(step.next, Some(op));
    assert_eq!(step.fault, None);
}

#[test]
fn a_first_chunk_is_handed_out_and_the_reader_registered_again() {
    let op = Operation::reading(10);
    let payload: Vec<u8> = (0..64u8).map(|i| b'a' + i % 26).collect();
    let first = advance(op, IoOutcome::Received(payload[..32].to_vec()));
    assert_eq!(first.text, Some(String::from("abcdefghijklmnopqrstuvwxyzabcdef")));
    assert_eq!(first.next, Some(op));
    assert_eq!(first.release, None);
    let second = advance(op, IoOutcome::Received(payload[32..].to_vec()));
    assert_eq!(second.text, Some(String::from("ghijklmnopqrstuvwxyzabcdefghijkl")));
    assert_eq!(second.next, Some(op));
}

#[test]
fn more_bytes_than_a_read_can_return_are_no_answer() {
    let op = Operation::reading(10);
    let expected =
        Step { next: Some(op), rearm: None, release: None, text: None, fault: Some(Fault::Unexpected) };
    assert_eq!(advance(op, IoOutcome::Received(vec![b'a'; 33])), expected);
    assert_eq!(advance(op, IoOutcome::Received(vec![b'a'; 64])), expected);
    let full = advance(op, IoOutcome::Received(vec![b'a'; 32]));
    assert_eq!(full.text, Some("a".repeat(32)));
    assert_eq!(full.fault, None);
}

#[test]
fn a_step_answers_by_pushing_the_rearmed_and_returning_the_next() {
    let step = advance(Operation::listening(3), IoOutcome::Accepted(10));
    let mut resubmit = Resubmit::new();
    assert_eq!(step.answer(&mut resubmit), Some(Operation::reading(10)));
    assert_eq!(resubmit.into_ops(), vec![Operation::listening(3)]);

    let step = advance(Operation::reading(10), IoOutcome::WouldBlock);
    let mut resubmit = Resubmit::new();
    resubmit.push(Operation::reading(4));
    assert_eq!(step.answer(&mut resubmit), Some(Operation::reading(10)));
    assert_eq!(resubmit.into_ops(), vec![Operation::reading(4)]);

    let step = advance(Operation::reading(10), IoOutcome::Received(vec![]));
    let mut resubmit = Resubmit::new();
    assert_eq!(step.answer(&mut resubmit), None);
    assert_eq!(resubmit.into_ops(), vec![]);
}

#[test]
fn an_empty_read_ends_the_connection() {
    assert_eq!(advance(Operation::reading(10), IoOutcome::Received(vec![])), ends(10, None));
}

#[test]
fn bytes_that_are_no_text_end_the_connection_with_a_fault() {
    let op = Operation::reading(10);
    assert_eq!(advance(op, IoOutcome::Received(vec![0xff, 0xfe])), ends(10, Some(Fault::Decode)));
    assert_eq!(advance(op, IoOutcome::Received(vec![b'o', b'k', 0xc3])), ends(10, Some(Fault::Decode)));
    assert_eq!(advance(op, IoOutcome::Received(vec![0xed, 0xa0, 0x80])), ends(10, Some(Fault::Decode)));
    assert_eq!(advance(op, IoOutcome::Received(vec![0xc0, 0x80])), ends(10, Some(Fault::Decode)));
}

#[test]
fn a_read_that_found_nothing_registers_the_reader_again() {
    let op = Operation::reading(10);
    assert_eq!(advance(op, IoOutcome::WouldBlock), goes_on(op));
}

#[test]
fn a_read_that_failed_ends_the_connection_with_a_fault() {
    assert_eq!(
        advance(Operation::reading(10), IoOutcome::Failed(104)),
        ends(10, Some(Fault::Read(104)))
    );
}

#[test]
fn a_reader_keeps_reading_after_an_answer_it_did_not_ask_for() {
    let op = Operation::reading(10);
    let expected =
        Step { next: Some(op), rearm: None, release: None, text: None, fault: Some(Fault::Unexpected) };
    assert_eq!(advance(op, IoOutcome::Accepted(12)), expected);
    assert_eq!(advance(op, IoOutcome::Nothing), expected);
}

#[test]
fn a_writer_ends_whatever_the_answer() {
    let op = Operation { descriptor: 6, state: OpState::Writing };
    assert_eq!(advance(op, IoOutcome::Nothing), ends(6, None));
    assert_eq!(advance(op, IoOutcome::Accepted(1)), ends(6, None));
    assert_eq!(advance(op, IoOutcome::Received(b"x".to_vec())), ends(6, None));
    assert_eq!(advance(op, IoOutcome::WouldBlock), ends(6, None));
    assert_eq!(advance(op, IoOutcome::Failed(5)), ends(6, None));
}

#[test]
fn operations_are_built_with_their_state() {
    assert_eq!(Operation::listening(3), Operation { descriptor: 3, state: OpState::Listening });
    assert_eq!(Operation::reading(-1), Operation { descriptor: -1, state: OpState::Reading });
}
