use tuber_lib::number::IntError;
use tuber_lib::protocol::{
    decode_body, expect_reply, finish_line, parse_deleted_batch, parse_job_header, parse_number_reply,
    parse_ok_header, parse_using_reply, Command, ReplyError,
};

#[test]
fn commands_encode_as_lines() {
    let cases: Vec<(Command, &str)> = vec![
        (Command::Stats, "stats\r\n"),
        (Command::ListTubes, "list-tubes\r\n"),
        (Command::StatsTube("emails".to_string()), "stats-tube emails\r\n"),
        (Command::Use("emails".to_string()), "use emails\r\n"),
        (Command::Put { priority: 0, delay: 5, ttr: 120, bytes: 11 }, "put 0 5 120 11\r\n"),
        (Command::ReserveWithTimeout(5), "reserve-with-timeout 5\r\n"),
        (Command::Delete(42), "delete 42\r\n"),
        (Command::Kick(10), "kick 10\r\n"),
        (Command::Peek(7), "peek 7\r\n"),
        (Command::PeekReady, "peek-ready\r\n"),
        (Command::PeekBuried, "peek-buried\r\n"),
        (Command::PeekDelayed, "peek-delayed\r\n"),
        (Command::StatsJob(9), "stats-job 9\r\n"),
        (Command::StatsGroup("g".to_string()), "stats-group g\r\n"),
        (Command::FlushTube("t".to_string()), "flush-tube t\r\n"),
        (Command::DeleteBatch(vec![1, 22, 333]), "delete-batch 1 22 333\r\n"),
        (Command::DeleteBatch(vec![]), "delete-batch \r\n"),
        (Command::Bury(3, 1024), "bury 3 1024\r\n"),
        (Command::PauseTube("t".to_string(), 60), "pause-tube t 60\r\n"),
        (Command::Delete(u64::MAX), "delete 18446744073709551615\r\n"),
    ];
    for (cmd, line) in cases {
        assert_eq!(cmd.encode(), line);
    }
}

#[test]
fn finish_line_trims_or_reports_closed() {
    assert_eq!(finish_line("USING emails\r\n").unwrap(), "USING emails");
    assert_eq!(finish_line("  \r\n").unwrap(), "");
    assert!(matches!(finish_line(""), Err(ReplyError::Closed)));
}

#[test]
fn expect_reply_matches_whole_line() {
    assert!(expect_reply("DELETED", "DELETED").is_ok());
    match expect_reply("NOT_FOUND", "DELETED") {
        Err(ReplyError::Unexpected(l)) => assert_eq!(l, "NOT_FOUND"),
        other => panic!("unexpected {:?}", other),
    }
}

#[test]
fn number_replies() {
    assert_eq!(parse_number_reply("KICKED 5", "KICKED").unwrap(), 5);
    assert_eq!(parse_number_reply("INSERTED 42", "INSERTED").unwrap(), 42);
    assert!(matches!(parse_number_reply("KICKED x", "KICKED"), Err(ReplyError::BadNumber(IntError::InvalidDigit))));
    assert!(matches!(parse_number_reply("KICKED ", "KICKED"), Err(ReplyError::BadNumber(IntError::Empty))));
    match parse_number_reply("KICKED", "KICKED") {
        Err(ReplyError::Unexpected(l)) => assert_eq!(l, "KICKED"),
        other => panic!("unexpected {:?}", other),
    }
    match parse_number_reply("NOT_FOUND", "FLUSHED") {
        Err(ReplyError::Unexpected(l)) => assert_eq!(l, "NOT_FOUND"),
        other => panic!("unexpected {:?}", other),
    }
}

#[test]
fn using_reply() {
    assert_eq!(parse_using_reply("USING emails").unwrap(), "emails");
    assert!(matches!(parse_using_reply("BAD_FORMAT"), Err(ReplyError::Unexpected(_))));
}

#[test]
fn job_headers() {
    assert_eq!(parse_job_header("RESERVED 5 10", "RESERVED").unwrap(), (5, 10));
    assert_eq!(parse_job_header("FOUND  7   0 extra", "FOUND").unwrap(), (7, 0));
    match parse_job_header("FOUND 5", "FOUND") {
        Err(ReplyError::Malformed(m)) => assert_eq!(m, "unexpected response: FOUND 5"),
        other => panic!("unexpected {:?}", other),
    }
    assert!(matches!(parse_job_header("FOUND x 1", "FOUND"), Err(ReplyError::BadNumber(IntError::InvalidDigit))));
    assert!(matches!(parse_job_header("FOUND 1 -1", "FOUND"), Err(ReplyError::BadNumber(IntError::InvalidDigit))));
    match parse_job_header("TIMED_OUT", "RESERVED") {
        Err(ReplyError::Unexpected(l)) => assert_eq!(l, "TIMED_OUT"),
        other => panic!("unexpected {:?}", other),
    }
}

#[test]
fn ok_headers() {
    assert_eq!(parse_ok_header("OK 42").unwrap(), 42);
    assert_eq!(parse_ok_header("OK   42  ").unwrap(), 42);
    assert!(matches!(parse_ok_header("OK x"), Err(ReplyError::BadNumber(IntError::InvalidDigit))));
    assert!(matches!(parse_ok_header("OK "), Err(ReplyError::BadNumber(IntError::Empty))));
    assert!(matches!(parse_ok_header("NOT_FOUND"), Err(ReplyError::Unexpected(_))));
}

#[test]
fn deleted_batch_replies() {
    assert_eq!(parse_deleted_batch("DELETED_BATCH 3 1").unwrap(), (3, 1));
    assert!(matches!(parse_deleted_batch("DELETED_BATCH 3"), Err(ReplyError::Unexpected(_))));
    assert!(matches!(parse_deleted_batch("DELETED_BATCH 3 1 2"), Err(ReplyError::Unexpected(_))));
    assert!(matches!(parse_deleted_batch("DELETED_BATCH 3 x"), Err(ReplyError::BadNumber(IntError::InvalidDigit))));
    assert!(matches!(parse_deleted_batch("BAD_FORMAT"), Err(ReplyError::Unexpected(_))));
}

#[test]
fn bodies_are_decoded() {
    assert_eq!(decode_body(b"hello\r\n".to_vec(), 5).unwrap(), "hello");
    assert_eq!(decode_body("wörld".as_bytes().to_vec(), 6).unwrap(), "wörld");
    assert!(matches!(decode_body(vec![0xff, 0xfe], 2), Err(ReplyError::BadBody(_))));
    assert!(matches!(decode_body("ö".as_bytes().to_vec(), 1), Err(ReplyError::BadBody(_))));
}
