use aleph_alpha_client::error::translate_http_error;
use aleph_alpha_client::how::{bearer, select_api_token};
use aleph_alpha_client::image_preprocessing::center_crop;
use aleph_alpha_client::{
    chat_output, completion_logprobs_to_canonical, completion_output, tokenizer_outcome,
    Authentication, ChatResponse, DeserializedCompletion, Error, Granularity, How, Logprob,
    Logprobs, Message, PromptGranularity, ResponseChoice, ResponseCompletion, Stopping,
    TaskTokenization, TokenizationOutput, ResponseTokenization, Usage,
};
use std::time::Duration;

fn lp(token: &str, logprob: f64) -> Logprob {
    Logprob { token: token.as_bytes().to_vec(), logprob_bits: logprob.to_bits() }
}

fn value(l: &Logprob) -> (String, f64) {
    (String::from_utf8(l.token.clone()).unwrap(), f64::from_bits(l.logprob_bits))
}

/// The machine-readable code of an error body, where the body carries one.
fn api_code(body: &str) -> Option<String> {
    let v: serde_json::Value = serde_json::from_str(body).ok()?;
    v.get("code")?.as_str().map(|c| c.to_string())
}

#[test]
fn detect_rate_limiting() {
    let answer = r#"Too many requests"#;
    let error = translate_http_error(429, answer.to_string(), api_code(answer)).unwrap_err();
    assert!(matches!(error, Error::TooManyRequests));
}

#[test]
fn queue_full_code_means_busy() {
    let answer = r#"{"error":"This specific model is very busy at this moment.","code":"QUEUE_FULL"}"#;
    let error = translate_http_error(503, answer.to_string(), api_code(answer)).unwrap_err();
    assert!(matches!(error, Error::Busy));
}

#[test]
fn unreadable_error_body_means_unavailable() {
    // A raw line break inside a JSON string makes the body unreadable: no code is found.
    let answer = "{\"error\":\"busy\n now\", \"code\":\"QUEUE_FULL\"}";
    assert_eq!(api_code(answer), None);
    let error = translate_http_error(503, answer.to_string(), api_code(answer)).unwrap_err();
    assert!(matches!(error, Error::Unavailable));
}

#[test]
fn be_nice() {
    let how = How { be_nice: true, ..How::default() };
    assert_eq!(how.query(), vec![("nice", "true")]);
}

#[test]
fn unavailable_without_code_or_with_another() {
    assert!(matches!(translate_http_error(503, "bad gateway".to_string(), None), Err(Error::Unavailable)));
    assert!(matches!(translate_http_error(503, "{}".to_string(), Some("RESTART".to_string())), Err(Error::Unavailable)));
}

#[test]
fn unknown_model_is_model_not_found() {
    assert!(matches!(translate_http_error(404, "{}".to_string(), Some("UNKNOWN_MODEL".to_string())), Err(Error::ModelNotFound)));
}

#[test]
fn other_not_found_keeps_status_and_body() {
    match translate_http_error(404, "nginx: not found".to_string(), None) {
        Err(Error::Http { status, body }) => {
            assert_eq!(status, 404);
            assert_eq!(body, "nginx: not found");
        }
        _ => panic!("expected a generic http error"),
    }
}

#[test]
fn unrecognised_status_keeps_status_and_body() {
    assert!(matches!(translate_http_error(500, "oops".to_string(), Some("QUEUE_FULL".to_string())), Err(Error::Http { status: 500, .. })));
}

#[test]
fn success_statuses_are_ok() {
    assert!(translate_http_error(200, String::new(), None).is_ok());
    assert!(translate_http_error(299, String::new(), Some("QUEUE_FULL".to_string())).is_ok());
    assert!(translate_http_error(300, String::new(), None).is_err());
}

#[test]
fn top_logprobs_are_sorted_and_cut_to_the_requested_count() {
    // The service lists the sampled token even when it is not among the top two.
    let entries = vec![lp(" a", -2.0), lp(" b", -0.5), lp(" sampled", -3.0), lp(" c", -1.0)];
    let out = completion_logprobs_to_canonical(vec![entries], vec![b" sampled".to_vec()], 2);
    assert_eq!(out.len(), 1);
    assert_eq!(value(&out[0].sampled), (" sampled".to_string(), -3.0));
    let top: Vec<(String, f64)> = out[0].top.iter().map(value).collect();
    assert_eq!(top, vec![(" b".to_string(), -0.5), (" c".to_string(), -1.0)]);
}

#[test]
fn sampled_token_among_top_stays_in_the_list() {
    let entries = vec![lp("x", -1.0), lp("y", -0.1)];
    let out = completion_logprobs_to_canonical(vec![entries], vec![b"y".to_vec()], 2);
    let top: Vec<(String, f64)> = out[0].top.iter().map(value).collect();
    assert_eq!(top, vec![("y".to_string(), -0.1), ("x".to_string(), -1.0)]);
    assert_eq!(value(&out[0].sampled), ("y".to_string(), -0.1));
}

#[test]
fn sampled_token_without_entry_has_nan() {
    let out = completion_logprobs_to_canonical(vec![vec![lp("x", -1.0)]], vec![b"z".to_vec()], 0);
    assert!(f64::from_bits(out[0].sampled.logprob_bits).is_nan());
    assert!(out[0].top.is_empty());
}

#[test]
fn equal_logprobs_keep_their_order() {
    let entries = vec![lp("p", -1.0), lp("q", -1.0), lp("r", 0.0), lp("s", -1.0)];
    let out = completion_logprobs_to_canonical(vec![entries], vec![b"r".to_vec()], 4);
    let order: Vec<String> = out[0].top.iter().map(|l| value(l).0).collect();
    assert_eq!(order, vec!["r", "p", "q", "s"]);
}

#[test]
fn zero_sorts_above_negative_zero_and_negatives() {
    let entries = vec![lp("neg", -0.0), lp("pos", 0.0), lp("low", -100.0)];
    let out = completion_logprobs_to_canonical(vec![entries], vec![b"pos".to_vec()], 3);
    let order: Vec<String> = out[0].top.iter().map(|l| value(l).0).collect();
    assert_eq!(order, vec!["pos", "neg", "low"]);
}

#[test]
fn positions_pair_up_to_the_shorter_list() {
    let out = completion_logprobs_to_canonical(
        vec![vec![lp("a", -1.0)], vec![lp("b", -2.0)]],
        vec![b"a".to_vec()],
        1,
    );
    assert_eq!(out.len(), 1);
}

#[test]
fn chat_output_takes_the_choice_and_usage() {
    let response = ChatResponse {
        choices: vec![ResponseChoice {
            message: Message::assistant("Keep the doctor away"),
            finish_reason: "stop".to_string(),
            logprobs: None,
        }],
        usage: Usage { prompt_tokens: 19, completion_tokens: 5 },
    };
    let out = chat_output(response);
    assert_eq!(out.message.role, "assistant");
    assert_eq!(out.message.content, "Keep the doctor away");
    assert_eq!(out.finish_reason, "stop");
    assert!(out.logprobs.is_empty());
    assert_eq!(out.usage, Usage { prompt_tokens: 19, completion_tokens: 5 });
}

fn response_completion(raw: Option<&str>) -> ResponseCompletion {
    ResponseCompletion {
        model_version: "2022-04".to_string(),
        completions: vec![DeserializedCompletion {
            completion: " keeps".to_string(),
            finish_reason: "maximum_tokens".to_string(),
            raw_completion: raw.map(|r| r.to_string()),
            log_probs: vec![vec![lp(" keeps", -0.2), lp(" may", -2.0)]],
            completion_tokens: vec![b" keeps".to_vec()],
        }],
        num_tokens_prompt_total: 4,
        num_tokens_generated: 1,
    }
}

#[test]
fn completion_output_reports_text_logprobs_and_usage() {
    let out = completion_output(response_completion(None), false, Logprobs::Top(1));
    assert_eq!(out.completion, " keeps");
    assert_eq!(out.finish_reason, "maximum_tokens");
    assert_eq!(out.logprobs.len(), 1);
    assert_eq!(out.logprobs[0].top.len(), 1);
    assert_eq!(value(&out.logprobs[0].top[0]), (" keeps".to_string(), -0.2));
    assert_eq!(out.usage, Usage { prompt_tokens: 4, completion_tokens: 1 });
}

#[test]
fn completion_output_with_special_tokens_reports_raw_text() {
    let out = completion_output(response_completion(Some(" keeps<|endoftext|>")), true, Logprobs::Sampled);
    assert_eq!(out.completion, " keeps<|endoftext|>");
    assert!(out.logprobs[0].top.is_empty());
}

#[test]
fn logprobs_settings_map_to_request_parameters() {
    assert!(!Logprobs::No.logprobs());
    assert!(Logprobs::Sampled.logprobs());
    assert_eq!(Logprobs::Top(3).top_logprobs(), Some(3));
    assert_eq!(Logprobs::Sampled.top_logprobs(), None);
    assert_eq!(Logprobs::No.to_logprobs_num(), None);
    assert_eq!(Logprobs::Sampled.to_logprobs_num(), Some(0));
    assert_eq!(Logprobs::Top(5).to_logprobs_num(), Some(5));
    assert!(Logprobs::Top(0).to_tokens());
    assert!(!Logprobs::No.to_tokens());
}

#[test]
fn messages_carry_their_role() {
    assert_eq!(Message::user("a").role, "user");
    assert_eq!(Message::system("b").role, "system");
    let m = Message::new("tool", "c");
    assert_eq!((m.role.as_str(), m.content.as_str()), ("tool", "c"));
}

/// Reads a tokenizer description as the client does.
fn tokenizer_from_bytes(bytes: &[u8]) -> Result<tokenizers::Tokenizer, Error> {
    tokenizer_outcome(tokenizers::Tokenizer::from_bytes(bytes).map_err(|e| e.to_string()))
}

#[test]
fn invalid_tokenizer_description_is_reported() {
    assert!(matches!(tokenizer_from_bytes(b"not a tokenizer"), Err(Error::InvalidTokenizer { .. })));
}

#[test]
fn default_how_waits_a_little_longer_than_the_service() {
    let how = How::default();
    assert!(!how.be_nice);
    assert_eq!(how.client_timeout, Duration::from_secs(305));
    assert!(how.api_token.is_none());
    assert!(how.query().is_empty());
}

#[test]
fn request_token_takes_priority() {
    assert_eq!(select_api_token(Some("req".to_string()), Some("client".to_string())), Some("req".to_string()));
    assert_eq!(select_api_token(None, Some("client".to_string())), Some("client".to_string()));
    assert_eq!(select_api_token(None, None), None);
    assert_eq!(bearer("dummy-token"), "Bearer dummy-token");
}

#[test]
fn stored_token_only_for_api_tokens() {
    assert_eq!(Authentication::ApiToken("t").stored_token(), Some("t"));
    assert_eq!(Authentication::Credentials { user: "u", password: "p" }.stored_token(), None);
}

#[test]
fn center_crop_takes_the_middle_square() {
    assert_eq!(center_crop(640, 480), (80, 0, 480));
    assert_eq!(center_crop(100, 301), (0, 100, 100));
    assert_eq!(center_crop(7, 7), (0, 0, 7));
}

#[test]
fn settings_builders() {
    assert_eq!(Stopping::from_maximum_tokens(10).maximum_tokens, Some(10));
    let stops = ["User:"];
    let s = Stopping::from_stop_sequences(&stops);
    assert_eq!(s.maximum_tokens, None);
    assert_eq!(s.stop_sequences, &["User:"]);
    let g = Granularity::default().with_prompt_granularity(PromptGranularity::Sentence);
    assert_eq!(g.prompt_granularity(), PromptGranularity::Sentence);
    assert!(Granularity::default().prompt_granularity().is_auto());
    let t: TaskTokenization = "Hello".into();
    assert!(t.tokens && t.token_ids);
    let out = TokenizationOutput::from(ResponseTokenization { tokens: None, token_ids: Some(vec![1, 2]) });
    assert_eq!(out.token_ids, Some(vec![1, 2]));
}

#[test]
fn tokenizer_outcome_keeps_the_cause() {
    match tokenizer_outcome(Err("bad json".to_string())) {
        Err(Error::InvalidTokenizer { deserialization_error }) => {
            assert_eq!(deserialization_error, "bad json")
        }
        _ => panic!("expected an invalid tokenizer"),
    }
}

#[test]
fn valid_tokenizer_description_is_read() {
    let description = br#"{"version":"1.0","truncation":null,"padding":null,"added_tokens":[],"normalizer":null,"pre_tokenizer":null,"post_processor":null,"decoder":null,"model":{"type":"WordLevel","vocab":{"hello":0,"[UNK]":1},"unk_token":"[UNK]"}}"#;
    let tokenizer = tokenizer_from_bytes(description).unwrap();
    assert_eq!(tokenizer.token_to_id("hello"), Some(0));
}

#[test]
fn token_as_str_reads_utf8() {
    assert_eq!(lp(" keeps", -0.1).token_as_str().unwrap(), " keeps");
    let broken = Logprob { token: vec![0xe2, 0x82], logprob_bits: 0 };
    assert!(broken.token_as_str().is_err());
}
