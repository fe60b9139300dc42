use servyi_ioprovider::command::CommandRequest;
use servyi_ioprovider::filesystem::{FsRequest, FsResult};
use servyi_ioprovider::llm::{LlmMessage, LlmRequest};
use servyi_ioprovider::{
    fuzz_stream_from_seed, Fuzz, FuzzData, FuzzProvider, IOProvider, MockCommand, MockFileSystem,
    MockLlm,
};

#[test]
fn test_fuzz_llm_judge_prompt() {
    let mut llm = MockLlm::new(vec![]);
    let data = vec![0u8; 1024];
    let mut u = FuzzData::from_bytes(data.clone());

    let req = LlmRequest {
        model: "test".into(),
        messages: vec![LlmMessage::user("Determine if the verification is REASONABLE")],
    };

    let resp = llm.fuzz(&req, &mut u);
    assert!(
        resp == "REASONABLE" || resp.contains("verification"),
        "judge prompt should produce REASONABLE or verification feedback"
    );
}

#[test]
fn test_fuzz_llm_smt_prompt() {
    let mut llm = MockLlm::new(vec![]);
    let data = vec![5u8; 1024];
    let mut u = FuzzData::from_bytes(data.clone());

    let req = LlmRequest {
        model: "test".into(),
        messages: vec![LlmMessage::user("Produce SMT-LIB2 formulas in smt2 blocks")],
    };

    let resp = llm.fuzz(&req, &mut u);
    assert!(
        resp.contains("(check-sat)") || resp.contains("set-logic"),
        "formalizer prompt should produce SMT-like output"
    );
}

#[test]
fn test_fuzz_solver_outcomes() {
    let mut cmd = MockCommand::new();

    let req = CommandRequest {
        program: "z3".into(),
        args: vec![],
        stdin: Some("(check-sat)".into()),
        working_dir: None,
    };

    let mut outcomes = std::collections::HashSet::new();
    for seed in 0..50 {
        let data = (0..1024).map(|i| ((seed * 257 + i) & 0xFF) as u8).collect::<Vec<_>>();
        let mut u = FuzzData::from_bytes(data);
        let result = cmd.fuzz(&req, &mut u);
        assert_eq!(result.exit_code, 0, "z3 should succeed");
        let out = result.stdout.trim();
        assert!(
            out == "unsat" || out == "sat" || out == "unknown",
            "z3 should return sat/unsat/unknown, got: {out}"
        );
        let _new = outcomes.insert(out.to_string());
    }
    assert!(outcomes.len() >= 2, "should produce multiple outcomes");
}

#[test]
fn test_fuzz_filesystem_read() {
    let mut fs = MockFileSystem::new();
    let data = vec![42u8; 1024];
    let mut u = FuzzData::from_bytes(data.clone());

    let req = FsRequest::Read {
        path: "/test/file.rs".into(),
    };

    let result = fs.fuzz(&req, &mut u);
    assert!(matches!(result, FsResult::Content(_)));
}

#[test]
fn test_fuzz_filesystem_write() {
    let mut fs = MockFileSystem::new();
    let data = vec![0u8; 1024];
    let mut u = FuzzData::from_bytes(data.clone());

    let req = FsRequest::Write {
        path: "/test/out.txt".into(),
        content: "hello".into(),
    };

    assert_eq!(fs.fuzz(&req, &mut u), FsResult::Written);
}

#[test]
fn test_fuzz_provider_drop_in() {
    let mut provider = FuzzProvider::with_seed(MockLlm::new(vec![]), 42);

    let req = LlmRequest {
        model: "test".into(),
        messages: vec![LlmMessage::user("Is this REASONABLE?")],
    };

    let response = provider.invoke(req).unwrap();
    assert!(!response.is_empty());
}

#[test]
fn test_stream_cursor_advances() {
    let mut stream = fuzz_stream_from_seed(99);
    let mut llm = MockLlm::new(vec![]);
    let mut cmd = MockCommand::new();

    let req = LlmRequest {
        model: "test".into(),
        messages: vec![LlmMessage::user("Produce SMT-LIB2 formulas in smt2 blocks")],
    };
    let _response = llm.fuzz(&req, &mut stream);
    let pos_after_llm = stream.pos();
    assert!(pos_after_llm > 0, "cursor must advance after a fuzzed answer");

    let creq = CommandRequest {
        program: "z3".into(),
        args: vec![],
        stdin: Some("(check-sat)".into()),
        working_dir: None,
    };
    let _result = cmd.fuzz(&creq, &mut stream);
    assert!(
        stream.pos() > pos_after_llm,
        "second fuzzer must draw from the same stream"
    );
}
