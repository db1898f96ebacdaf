use mm_engine::ipc::{
    bot_react, bot_wait, BotWait, check_entry, check_response, drop_sync, engine_react, poll, Backoff, BotAction,
    EngineStatus, Layout, MsgAction, MsgEvent, ProtocolId, ResponseError,
};

const LAYOUT: Layout = Layout { size: 512, align: 8 };

#[test]
fn status_codes() {
    assert_eq!(EngineStatus::Ready.code(), 0);
    assert_eq!(EngineStatus::Busy.code(), 1);
    assert_eq!(EngineStatus::Finished.code(), 2);
    assert!(EngineStatus::from_code(0) == Some(EngineStatus::Ready));
    assert!(EngineStatus::from_code(1) == Some(EngineStatus::Busy));
    assert!(EngineStatus::from_code(2) == Some(EngineStatus::Finished));
    assert!(EngineStatus::from_code(3) == None);
    assert!(EngineStatus::from_code(255) == None);
    assert_eq!(drop_sync(), 2);
}

#[test]
fn discriminants_are_twice_the_index_and_one_more() {
    assert_eq!(ProtocolId::Handshake.msg_discriminant(), 0);
    assert_eq!(ProtocolId::Handshake.response_discriminant(), 1);
    assert_eq!(ProtocolId::Reset.msg_discriminant(), 2);
    assert_eq!(ProtocolId::Reset.response_discriminant(), 3);
    assert_eq!(ProtocolId::Tick.msg_discriminant(), 4);
    assert_eq!(ProtocolId::Tick.response_discriminant(), 5);
    assert_eq!(ProtocolId::Tick.index(), 2);
}

#[test]
fn message_discriminants_map_back() {
    assert!(ProtocolId::from_msg_discriminant(0) == Some(ProtocolId::Handshake));
    assert!(ProtocolId::from_msg_discriminant(2) == Some(ProtocolId::Reset));
    assert!(ProtocolId::from_msg_discriminant(4) == Some(ProtocolId::Tick));
    for d in [1u8, 3, 5, 6, 7, 255] {
        assert!(ProtocolId::from_msg_discriminant(d) == None);
    }
}

#[test]
fn entry_needs_busy() {
    assert!(check_entry(1) == Ok(()));
    assert!(check_entry(0) == Err(ResponseError::Malformed));
    assert!(check_entry(2) == Err(ResponseError::Malformed));
    assert!(check_entry(77) == Err(ResponseError::Malformed));
}

#[test]
fn response_checks_come_in_order() {
    assert!(check_response(ProtocolId::Tick, LAYOUT, 512, 4096, 5) == Ok(()));
    assert!(
        check_response(ProtocolId::Tick, LAYOUT, 511, 4097, 4)
            == Err(ResponseError::SizeMismatch { expected: 512, actual: 511 })
    );
    assert!(
        check_response(ProtocolId::Tick, LAYOUT, 512, 4097, 4)
            == Err(ResponseError::AlignmentError { address: 4097, alignment: 8 })
    );
    assert!(check_response(ProtocolId::Tick, LAYOUT, 512, 4096, 4) == Err(ResponseError::Malformed));
    assert!(check_response(ProtocolId::Tick, LAYOUT, 512, 4096, 3) == Err(ResponseError::Malformed));
    assert!(check_response(ProtocolId::Reset, LAYOUT, 512, 4096, 3) == Ok(()));
}

#[test]
fn engine_sends_only_from_busy() {
    assert!(
        engine_react(ProtocolId::Reset, LAYOUT, MsgEvent::Enter { sync: 1 })
            == MsgAction::Send { discriminant: 2, sync: 0, wait_for: 1 }
    );
    assert!(
        engine_react(ProtocolId::Reset, LAYOUT, MsgEvent::Enter { sync: 0 })
            == MsgAction::Fail { error: ResponseError::Malformed }
    );
    assert!(
        engine_react(ProtocolId::Reset, LAYOUT, MsgEvent::Enter { sync: 2 })
            == MsgAction::Fail { error: ResponseError::Malformed }
    );
}

#[test]
fn engine_restores_busy_on_timeout() {
    assert!(
        engine_react(ProtocolId::Tick, LAYOUT, MsgEvent::Expired)
            == MsgAction::Restore { sync: 1, error: ResponseError::Timeout }
    );
}

#[test]
fn engine_decodes_only_the_right_response() {
    let answered = |discriminant| MsgEvent::Answered { len: 512, address: 8192, discriminant };
    assert!(engine_react(ProtocolId::Handshake, LAYOUT, answered(1)) == MsgAction::Decode);
    assert!(
        engine_react(ProtocolId::Handshake, LAYOUT, answered(5))
            == MsgAction::Fail { error: ResponseError::Malformed }
    );
    assert!(
        engine_react(
            ProtocolId::Handshake,
            LAYOUT,
            MsgEvent::Answered { len: 100, address: 8192, discriminant: 1 }
        ) == MsgAction::Fail { error: ResponseError::SizeMismatch { expected: 512, actual: 100 } }
    );
    assert!(
        engine_react(
            ProtocolId::Handshake,
            LAYOUT,
            MsgEvent::Answered { len: 512, address: 8193, discriminant: 1 }
        ) == MsgAction::Fail {
            error: ResponseError::AlignmentError { address: 8193, alignment: 8 }
        }
    );
}

#[test]
fn bot_answers_messages_and_refuses_the_rest() {
    assert!(
        bot_react(0)
            == BotAction::Answer { protocol: ProtocolId::Handshake, discriminant: 1, sync: 1 }
    );
    assert!(bot_react(2) == BotAction::Answer { protocol: ProtocolId::Reset, discriminant: 3, sync: 1 });
    assert!(bot_react(4) == BotAction::Answer { protocol: ProtocolId::Tick, discriminant: 5, sync: 1 });
    assert!(bot_react(1) == BotAction::Refuse);
    assert!(bot_react(5) == BotAction::Refuse);
    assert!(bot_react(200) == BotAction::Refuse);
}

#[test]
fn poll_schedule() {
    assert!(poll(1, 1, 0) == None);
    assert!(poll(1, 1, 5000) == None);
    assert!(poll(0, 1, 0) == Some(Backoff::Spin));
    assert!(poll(0, 1, 99) == Some(Backoff::Spin));
    assert!(poll(0, 1, 100) == Some(Backoff::Yield));
    assert!(poll(0, 1, 999) == Some(Backoff::Yield));
    assert!(poll(0, 1, 1000) == Some(Backoff::Sleep { micros: 100 }));
    assert!(poll(0, 1, 12345) == Some(Backoff::Sleep { micros: 1234 }));
    assert!(poll(2, 0, 7) == Some(Backoff::Spin));
}

#[test]
fn bot_waits_for_ready_and_leaves_on_finished() {
    assert!(bot_wait(0, 0) == BotWait::Handle);
    assert!(bot_wait(0, 5000) == BotWait::Handle);
    assert!(bot_wait(2, 0) == BotWait::Exit);
    assert!(bot_wait(1, 3) == BotWait::Wait { backoff: Backoff::Spin });
    assert!(bot_wait(1, 500) == BotWait::Wait { backoff: Backoff::Yield });
    assert!(bot_wait(9, 2000) == BotWait::Wait { backoff: Backoff::Sleep { micros: 200 } });
}
