use servyi_ioprovider::command::{CommandRequest, CommandResult};
use servyi_ioprovider::filesystem::{FsRequest, FsResult};
use servyi_ioprovider::llm::{classify_prompt, last_user_message, reply_for, LlmMessage, LlmRequest, LlmRole, PromptKind};
use servyi_ioprovider::provider::{FuzzProvider, FUZZ_DATA_LEN};
use servyi_ioprovider::text::contains;
use servyi_ioprovider::{fuzz_stream_from_bytes, fuzz_stream_from_seed};
use servyi_ioprovider::{
    ConstantMock, FnMock, Fuzz, FuzzData, IOProvider, MockCommand, MockFileSystem, MockLlm, NeverMock,
    ProviderError, SequenceMock,
};

fn z3_request(stdin: &str) -> CommandRequest {
    CommandRequest {
        program: "z3".into(),
        args: vec!["-in".into()],
        stdin: Some(stdin.into()),
        working_dir: None,
    }
}

#[test]
fn command_doc_example_returns_configured_stdout() {
    let mut mock = MockCommand::new();
    mock.on_program("z3", CommandResult::success("unsat\n"));
    let req = CommandRequest { program: "z3".into(), args: vec![], stdin: None, working_dir: None };
    let result = mock.invoke(req).unwrap();
    assert_eq!(result.stdout, "unsat\n");
}

#[test]
fn command_responses_come_back_in_queue_order() {
    let mut mock = MockCommand::new();
    mock.on_program("z3", CommandResult::success("sat\n"));
    mock.on_program("cvc5", CommandResult::failure("boom", 2));
    mock.on_program("z3", CommandResult::success("unsat\n"));
    assert_eq!(mock.invoke(z3_request("a")).unwrap(), CommandResult::success("sat\n"));
    assert_eq!(mock.invoke(z3_request("b")).unwrap(), CommandResult::success("unsat\n"));
    assert_eq!(
        mock.invoke(z3_request("c")),
        Err(ProviderError::NoResponse { program: "z3".into() })
    );
    let cvc5 = CommandRequest { program: "cvc5".into(), args: vec![], stdin: None, working_dir: Some("/tmp".into()) };
    assert_eq!(mock.invoke(cvc5).unwrap(), CommandResult::failure("boom", 2));
}

#[test]
fn command_records_every_request_even_refused_ones() {
    let mut mock = MockCommand::default();
    assert!(mock.invoke(z3_request("first")).is_err());
    mock.on_program("z3", CommandResult::success("ok"));
    assert!(mock.invoke(z3_request("second")).is_ok());
    let requests = mock.requests();
    assert_eq!(requests.len(), 2);
    assert_eq!(requests[0].stdin.as_deref(), Some("first"));
    assert_eq!(requests[1].stdin.as_deref(), Some("second"));
    assert_eq!(requests[1].args, vec!["-in".to_string()]);
}

#[test]
fn command_result_constructors() {
    let ok = CommandResult::success("out");
    assert_eq!((ok.stdout.as_str(), ok.stderr.as_str(), ok.exit_code), ("out", "", 0));
    let bad = CommandResult::failure("err", -1);
    assert_eq!((bad.stdout.as_str(), bad.stderr.as_str(), bad.exit_code), ("", "err", -1));
}

#[test]
fn unconfigured_program_error_message() {
    let mut mock = MockCommand::new();
    let err = mock.invoke(z3_request("x")).unwrap_err();
    assert_eq!(err.message(), "MockCommand: no response configured for 'z3'");
}

#[test]
fn filesystem_doc_example_reads_inserted_file() {
    let mut fs = MockFileSystem::new();
    fs.insert("/test/file.txt", "hello world");
    let result = fs.invoke(FsRequest::Read { path: "/test/file.txt".into() }).unwrap();
    assert_eq!(result, FsResult::Content("hello world".into()));
}

#[test]
fn filesystem_read_after_write_and_remove() {
    let mut fs = MockFileSystem::default();
    assert_eq!(
        fs.invoke(FsRequest::Write { path: "/a/b.txt".into(), content: "one".into() }),
        Ok(FsResult::Written)
    );
    assert_eq!(fs.invoke(FsRequest::Exists { path: "/a/b.txt".into() }), Ok(FsResult::Exists(true)));
    fs.invoke(FsRequest::Write { path: "/a/b.txt".into(), content: "two".into() }).unwrap();
    assert_eq!(fs.get("/a/b.txt"), Some("two".to_string()));
    assert_eq!(fs.invoke(FsRequest::Remove { path: "/a/b.txt".into() }), Ok(FsResult::Removed));
    assert_eq!(fs.invoke(FsRequest::Exists { path: "/a/b.txt".into() }), Ok(FsResult::Exists(false)));
    assert_eq!(
        fs.invoke(FsRequest::Read { path: "/a/b.txt".into() }),
        Err(ProviderError::FileNotFound { path: "/a/b.txt".into() })
    );
    assert_eq!(fs.get("/a/b.txt"), None);
    assert_eq!(fs.invoke(FsRequest::Remove { path: "/missing".into() }), Ok(FsResult::Removed));
}

#[test]
fn filesystem_missing_file_message() {
    let mut fs = MockFileSystem::new();
    let err = fs.invoke(FsRequest::Read { path: "/nope.txt".into() }).unwrap_err();
    assert_eq!(err.message(), "file not found: /nope.txt");
}

#[test]
fn filesystem_list_dir_matches_whole_components() {
    let mut fs = MockFileSystem::new();
    fs.insert("/test/a.txt", "a");
    fs.insert("/testing/b.txt", "b");
    fs.insert("/test/sub/c.txt", "c");
    fs.insert("/other/d.txt", "d");
    match fs.invoke(FsRequest::ListDir { path: "/test".into() }).unwrap() {
        FsResult::Entries(mut entries) => {
            entries.sort();
            assert_eq!(entries, vec!["/test/a.txt".to_string(), "/test/sub/c.txt".to_string()]);
        }
        other => panic!("unexpected {other:?}"),
    }
    assert_eq!(
        fs.invoke(FsRequest::ListDir { path: "/nothing".into() }),
        Ok(FsResult::Entries(vec![]))
    );
}

#[test]
fn llm_doc_example_answers_in_order() {
    let mut llm = MockLlm::new(vec!["Hello!".into(), "Goodbye!".into()]);
    let req = LlmRequest { model: "test".into(), messages: vec![LlmMessage::user("hi")] };
    assert_eq!(llm.remaining(), 2);
    assert_eq!(llm.invoke(req.clone()).unwrap(), "Hello!");
    assert_eq!(llm.invoke(req).unwrap(), "Goodbye!");
    assert_eq!(llm.remaining(), 0);
    let other = LlmRequest { model: "m".into(), messages: vec![LlmMessage::system("s")] };
    assert_eq!(llm.invoke(other), Err(ProviderError::LlmExhausted));
    let requests = llm.requests();
    assert_eq!(requests.len(), 3);
    assert_eq!(requests[2].model, "m");
    assert_eq!(requests[2].messages[0].role, LlmRole::System);
    assert_eq!(ProviderError::LlmExhausted.message(), "MockLlm exhausted");
}

#[test]
fn llm_message_constructors_and_role_names() {
    let s = LlmMessage::system("a");
    let u = LlmMessage::user("b");
    let a = LlmMessage::assistant("c");
    assert_eq!((s.role, s.content.as_str()), (LlmRole::System, "a"));
    assert_eq!((u.role, u.content.as_str()), (LlmRole::User, "b"));
    assert_eq!((a.role, a.content.as_str()), (LlmRole::Assistant, "c"));
    assert_eq!(LlmRole::System.to_string(), "system");
    assert_eq!(LlmRole::User.to_string(), "user");
    assert_eq!(LlmRole::Assistant.to_string(), "assistant");
}

#[test]
fn fuzz_prefers_queued_responses() {
    let mut llm = MockLlm::new(vec!["queued".into()]);
    let data = vec![0u8; 16];
    let mut u = FuzzData::from_bytes(data.clone());
    let req = LlmRequest { model: "m".into(), messages: vec![LlmMessage::user("please verify")] };
    assert_eq!(llm.fuzz(&req, &mut u), "queued");
    assert_eq!(llm.remaining(), 0);
    let reply = llm.fuzz(&req, &mut u);
    assert!(reply == "REASONABLE" || reply == "The verification has issues with formula precision.");
}

#[test]
fn fuzz_splitter_prompt_gives_piece_markers() {
    let mut llm = MockLlm::new(vec![]);
    let data = vec![7u8; 64];
    let mut u = FuzzData::from_bytes(data.clone());
    let req = LlmRequest {
        model: "m".into(),
        messages: vec![
            LlmMessage::user("Split the program into pieces"),
            LlmMessage::assistant("sure, verify first"),
        ],
    };
    assert_eq!(
        llm.fuzz(&req, &mut u),
        "// Start point: test.rs:1\n// Handover point: test.rs:5\nreturn;\n"
    );
}

#[test]
fn fuzz_generic_reply_is_at_most_two_hundred_chars() {
    let mut llm = MockLlm::new(vec![]);
    let data: Vec<u8> = (0..4096u32).map(|i| b'a' + (i % 26) as u8).collect();
    let mut u = FuzzData::from_bytes(data.clone());
    let req = LlmRequest { model: "m".into(), messages: vec![LlmMessage::user("hello there")] };
    let reply = llm.fuzz(&req, &mut u);
    assert!(reply.chars().count() <= 200);
}

#[test]
fn prompt_classification_by_keywords() {
    assert_eq!(classify_prompt("is this reasonable?"), PromptKind::Judge);
    assert_eq!(classify_prompt("please verify"), PromptKind::Judge);
    assert_eq!(classify_prompt("write an smt formula"), PromptKind::Formalizer);
    assert_eq!(classify_prompt("the formula"), PromptKind::Formalizer);
    assert_eq!(classify_prompt("split it"), PromptKind::Splitter);
    assert_eq!(classify_prompt("one piece"), PromptKind::Splitter);
    assert_eq!(classify_prompt("hello"), PromptKind::Generic);
    assert_eq!(classify_prompt(""), PromptKind::Generic);
}

#[test]
fn last_user_message_skips_other_roles() {
    let msgs = vec![
        LlmMessage::system("sys"),
        LlmMessage::user("first"),
        LlmMessage::user("second"),
        LlmMessage::assistant("answer"),
    ];
    assert_eq!(last_user_message(&msgs), "second");
    assert_eq!(last_user_message(&vec![LlmMessage::system("only")]), "");
}

#[test]
fn replies_for_each_kind() {
    assert_eq!(reply_for(PromptKind::Judge, true, 0, ""), "REASONABLE");
    assert_eq!(
        reply_for(PromptKind::Judge, false, 0, ""),
        "The verification has issues with formula precision."
    );
    assert_eq!(
        reply_for(PromptKind::Formalizer, false, 2, ""),
        "```\n(set-logic ALL)\n(check-sat)\n\n```"
    );
    assert_eq!(
        reply_for(PromptKind::Formalizer, false, 0, ""),
        "```\n(set-logic ALL)\n(declare-const x Int)\n(assert (> x 0))\n(check-sat)\n\n```"
    );
    let long: String = "é".repeat(250);
    assert_eq!(reply_for(PromptKind::Generic, false, 0, &long), long);
    assert_eq!(reply_for(PromptKind::Generic, false, 0, "short"), "short");
}

#[test]
fn substring_search() {
    assert!(contains("hello world", "o w"));
    assert!(contains("abc", ""));
    assert!(!contains("abc", "abcd"));
    assert!(!contains("abc", "ac"));
    assert!(contains("ünïcödé", "cöd"));
}

#[test]
fn seeded_data_follows_the_formula() {
    let a: FuzzProvider<MockLlm, LlmRequest, String> = FuzzProvider::with_seed(MockLlm::new(vec![]), 42);
    let b: FuzzProvider<MockLlm, LlmRequest, String> = FuzzProvider::with_seed(MockLlm::new(vec![]), 42);
    let expected: Vec<u8> = (0..FUZZ_DATA_LEN as u64)
        .map(|i| ((42u64.wrapping_mul(6364136223846793005).wrapping_add(i)) >> 33) as u8)
        .collect();
    assert_eq!(a.data_bytes(), expected);
    assert_eq!(a.data_bytes(), b.data_bytes());
    assert_eq!(a.data_bytes()[0], 0xB7);
}

#[test]
fn clock_seeded_data_counts_up_from_the_low_byte() {
    let p: FuzzProvider<MockLlm, LlmRequest, String> =
        FuzzProvider::with_clock_seed(MockLlm::new(vec![]), 0x1_00FE);
    let data = p.data_bytes();
    assert_eq!(data.len(), 1024);
    assert_eq!(&data[..4], &[0xFE, 0xFF, 0x00, 0x01]);
    let q: FuzzProvider<MockLlm, LlmRequest, String> = FuzzProvider::new(MockLlm::new(vec![]));
    let d = q.data_bytes();
    assert!(d.windows(2).all(|w| w[1] == w[0].wrapping_add(1)));
}

#[test]
fn fuzz_provider_replays_the_same_data() {
    let mut provider = FuzzProvider::with_seed(MockLlm::new(vec![]), 7);
    let req = LlmRequest { model: "m".into(), messages: vec![LlmMessage::user("write a formula")] };
    let first = provider.invoke(req.clone()).unwrap();
    let second = provider.invoke(req).unwrap();
    assert_eq!(first, second);
    assert!(first.starts_with("```\n(set-logic ALL)"));
}

#[test]
fn sequence_mock_doc_example() {
    let mut mock = SequenceMock::<String, String>::new(vec!["ok".into(), "done".into()]);
    assert_eq!(mock.remaining(), 2);
    assert_eq!(mock.invoke("req1".into()).unwrap(), "ok");
    assert_eq!(mock.invoke("req2".into()).unwrap(), "done");
    assert_eq!(mock.remaining(), 0);
    assert_eq!(mock.inputs(), vec!["req1".to_string(), "req2".to_string()]);
}

#[test]
fn fn_mock_doc_example() {
    let mut mock = FnMock::new(|req: String| req.to_uppercase());
    assert_eq!(mock.invoke("hello".into()).unwrap(), "HELLO");
    assert_eq!(mock.invoke("x".into()).unwrap(), "X");
    assert_eq!(mock.inputs(), vec!["hello".to_string(), "x".to_string()]);
}

#[test]
fn never_mock_always_refuses() {
    let mut mock = NeverMock::<u32, String>::new("unreachable path");
    let err = mock.invoke(1).unwrap_err();
    assert_eq!(err, ProviderError::NeverInvoked { message: "unreachable path".into() });
    assert_eq!(err.message(), "NeverMock invoked: unreachable path");
    assert!(mock.invoke(2).is_err());
}

#[test]
fn constant_mock_always_answers_the_same() {
    let mut mock = ConstantMock::<u32, String>::new("same".into());
    assert_eq!(mock.invoke(1).unwrap(), "same");
    assert_eq!(mock.invoke(2).unwrap(), "same");
    assert_eq!(mock.inputs(), vec![1, 2]);
}

#[test]
fn filesystem_spellings_of_one_path_share_a_file() {
    let mut fs = MockFileSystem::new();
    fs.insert("/data/./notes/", "first");
    assert_eq!(fs.get("/data/notes"), Some("first".to_string()));
    fs.invoke(FsRequest::Write { path: "/data//notes".into(), content: "second".into() }).unwrap();
    assert_eq!(
        fs.invoke(FsRequest::Read { path: "/data/notes".into() }),
        Ok(FsResult::Content("second".into()))
    );
    assert_eq!(
        fs.invoke(FsRequest::ListDir { path: "/data".into() }),
        Ok(FsResult::Entries(vec!["/data/./notes/".into()]))
    );
    assert_eq!(fs.invoke(FsRequest::Remove { path: "/data/notes/".into() }), Ok(FsResult::Removed));
    assert_eq!(fs.invoke(FsRequest::Exists { path: "/data/./notes".into() }), Ok(FsResult::Exists(false)));
}

#[test]
fn fuzz_reads_keywords_case_insensitively() {
    let mut llm = MockLlm::new(vec![]);
    let data = vec![1u8; 64];
    let mut u = FuzzData::from_bytes(data.clone());
    let req = LlmRequest { model: "m".into(), messages: vec![LlmMessage::user("Please VERIFY this")] };
    let reply = llm.fuzz(&req, &mut u);
    assert!(reply == "REASONABLE" || reply == "The verification has issues with formula precision.");
    let req = LlmRequest { model: "m".into(), messages: vec![LlmMessage::user("Give me SMT")] };
    let reply = llm.fuzz(&req, &mut u);
    assert!(reply.starts_with("```\n(set-logic ALL)\n") && reply.ends_with("\n```"));
}

#[test]
fn fuzz_data_draws_follow_the_bytes() {
    let mut data = FuzzData::from_bytes(vec![3, 4, 7]);
    assert_eq!(data.pos(), 0);
    assert!(data.gen_bool());
    assert!(!data.gen_bool());
    assert_eq!(data.pos(), 2);
    assert_eq!(data.gen_index(3), 1);
    assert_eq!(data.pos(), 3);
    assert!(!data.gen_bool());
    assert_eq!(data.gen_index(3), 0);
    assert_eq!(data.pos(), 3);
}

#[test]
fn fuzz_data_strings_are_clipped() {
    let mut data = FuzzData::from_bytes(vec![b'a'; 1002]);
    let text = data.gen_string(200);
    assert_eq!(text, "a".repeat(200));
    assert!(data.pos() > 200);
    let mut empty = FuzzData::from_bytes(vec![]);
    assert_eq!(empty.gen_string(5), "");
}

#[test]
fn fuzz_streams_from_seed_and_bytes() {
    let mut a = fuzz_stream_from_seed(42);
    let mut b = fuzz_stream_from_bytes(&[0xB7]);
    assert_eq!(a.gen_bool(), b.gen_bool());
    assert_eq!(a.pos(), 1);
    assert_eq!(b.pos(), 1);
}

#[test]
fn fuzzed_command_prefers_queued_responses_then_draws() {
    let mut cmd = MockCommand::new();
    cmd.on_program("z3", CommandResult::failure("queued", 3));
    let mut data = FuzzData::from_bytes(vec![4, 5]);
    assert_eq!(cmd.fuzz(&z3_request("a"), &mut data), CommandResult::failure("queued", 3));
    assert_eq!(data.pos(), 0);
    assert_eq!(cmd.fuzz(&z3_request("b"), &mut data), CommandResult::success("unsat\n"));
    assert_eq!(cmd.fuzz(&z3_request("c"), &mut data), CommandResult::success("unknown\n"));
    assert_eq!(cmd.fuzz(&z3_request("d"), &mut data), CommandResult::success("sat\n"));
    assert!(cmd.requests().is_empty());
    let other = CommandRequest { program: "cvc5".into(), args: vec![], stdin: None, working_dir: None };
    let mut empty = FuzzData::from_bytes(vec![]);
    assert_eq!(cmd.fuzz(&other, &mut empty), CommandResult::success(""));
}

#[test]
fn fuzzed_filesystem_reads_what_is_stored() {
    let mut fs = MockFileSystem::new();
    fs.insert("/a/x.txt", "stored");
    let mut data = FuzzData::from_bytes(vec![1, 2, 3]);
    assert_eq!(fs.fuzz(&FsRequest::Read { path: "/a/x.txt".into() }, &mut data), FsResult::Content("stored".into()));
    assert_eq!(fs.fuzz(&FsRequest::Exists { path: "/a/x.txt".into() }, &mut data), FsResult::Exists(true));
    assert_eq!(data.pos(), 0);
    assert_eq!(fs.fuzz(&FsRequest::Exists { path: "/nope".into() }, &mut data), FsResult::Exists(true));
    assert_eq!(fs.fuzz(&FsRequest::Exists { path: "/nope".into() }, &mut data), FsResult::Exists(false));
    assert_eq!(
        fs.fuzz(&FsRequest::Write { path: "/b".into(), content: "c".into() }, &mut data),
        FsResult::Written
    );
    assert_eq!(fs.get("/b"), None);
    assert_eq!(fs.fuzz(&FsRequest::Remove { path: "/a/x.txt".into() }, &mut data), FsResult::Removed);
    assert_eq!(fs.get("/a/x.txt"), Some("stored".to_string()));
    assert_eq!(
        fs.fuzz(&FsRequest::ListDir { path: "/a".into() }, &mut data),
        FsResult::Entries(vec!["/a/x.txt".into()])
    );
}

#[test]
fn fuzz_data_indexes_read_as_many_bytes_as_needed() {
    let mut data = FuzzData::from_bytes(vec![5, 9]);
    assert_eq!(data.gen_index(256), 5);
    assert_eq!(data.pos(), 1);
    let mut wide = FuzzData::from_bytes(vec![1, 45, 7]);
    assert_eq!(wide.gen_index(300), 1);
    assert_eq!(wide.pos(), 2);
    assert_eq!(wide.gen_index(1), 0);
    assert_eq!(wide.pos(), 2);
    let mut short = FuzzData::from_bytes(vec![2]);
    assert_eq!(short.gen_index(1000), 2);
    assert_eq!(short.pos(), 1);
}
