use aleph_alpha_client::stream::{payloads_of_body, stream_outputs, Decoded};
use aleph_alpha_client::{
    stream_item, ChatEvent, ChatStream, CompletionEvent, CompletionStream, DeserializedChatChunk,
    DeserializedCompletionEvent, Error, LogprobContent, Logprobs, StreamChatResponse,
    StreamDriver, StreamMessage, StreamTask, Usage,
};
use serde_json::Value;

fn text(v: &Value, key: &str) -> Option<String> {
    v.get(key).and_then(|x| x.as_str()).map(|s| s.to_string())
}

/// Builds the chat record of a payload, as the service's JSON describes it.
fn chat_record(payload: &str) -> Result<StreamChatResponse, String> {
    let v: Value = serde_json::from_str(payload).map_err(|e| e.to_string())?;
    let usage = match v.get("usage") {
        Some(u) if !u.is_null() => Some(Usage {
            prompt_tokens: u["prompt_tokens"].as_u64().ok_or("prompt_tokens")? as u32,
            completion_tokens: u["completion_tokens"].as_u64().ok_or("completion_tokens")? as u32,
        }),
        _ => None,
    };
    let mut choices = Vec::new();
    for c in v["choices"].as_array().ok_or("choices")? {
        match c.get("delta").and_then(|d| text(d, "content").map(|content| (d, content))) {
            Some((d, content)) => choices.push(DeserializedChatChunk::Delta {
                delta: StreamMessage { role: text(d, "role"), content },
                logprobs: None,
            }),
            None => choices.push(DeserializedChatChunk::Finished {
                finish_reason: text(c, "finish_reason").ok_or("finish_reason")?,
            }),
        }
    }
    Ok(StreamChatResponse { choices, usage })
}

/// Builds the completion record of a payload, as the service's JSON describes it.
fn completion_record(payload: &str) -> Result<DeserializedCompletionEvent, String> {
    let v: Value = serde_json::from_str(payload).map_err(|e| e.to_string())?;
    match v["type"].as_str() {
        Some("stream_chunk") => Ok(DeserializedCompletionEvent::StreamChunk {
            completion: text(&v, "completion").ok_or("completion")?,
            raw_completion: text(&v, "raw_completion"),
            log_probs: vec![],
            completion_tokens: vec![],
        }),
        Some("stream_summary") => Ok(DeserializedCompletionEvent::StreamSummary {
            finish_reason: text(&v, "finish_reason").ok_or("finish_reason")?,
        }),
        Some("completion_summary") => Ok(DeserializedCompletionEvent::CompletionSummary {
            num_tokens_prompt_total: v["num_tokens_prompt_total"].as_u64().ok_or("total")? as u32,
            num_tokens_generated: v["num_tokens_generated"].as_u64().ok_or("generated")? as u32,
        }),
        _ => Err("unknown variant".to_string()),
    }
}

/// Runs the pipeline over the chunks, decoding each payload with `decode`.
fn run<T: StreamTask>(
    task: &T,
    chunks: &[&[u8]],
    decode: fn(&str) -> Result<T::ResponseBody, String>,
) -> Vec<Result<T::Output, Error>> {
    let mut driver = StreamDriver::new();
    let mut items = Vec::new();
    for chunk in chunks {
        for payload in driver.on_chunk(chunk) {
            let result = decode(&payload);
            if let Some(item) = stream_item(task, Decoded { payload, result }) {
                items.push(item);
            }
        }
        if driver.is_done() {
            break;
        }
    }
    items
}

fn completion_task() -> CompletionStream {
    CompletionStream { special_tokens: false, logprobs: Logprobs::No }
}

#[test]
fn stream_chunk_event_is_parsed() {
    let bytes = "data: {\"type\":\"stream_chunk\",\"index\":0,\"completion\":\" The New York Times, May 15\"}\n\ndata: [DONE]";
    let mut events = run(&completion_task(), &[bytes.as_bytes()], completion_record);

    assert_eq!(events.len(), 1);
    assert!(
        matches!(events.remove(0).unwrap(), CompletionEvent::Delta { completion, .. } if completion == " The New York Times, May 15")
    );
}

#[test]
fn completion_summary_event_is_parsed() {
    let bytes = "data: {\"type\":\"stream_summary\",\"index\":0,\"model_version\":\"2022-04\",\"finish_reason\":\"maximum_tokens\"}\n\ndata: {\"type\":\"completion_summary\",\"num_tokens_prompt_total\":1,\"num_tokens_generated\":7}\n\n";
    let mut events = run(&completion_task(), &[bytes.as_bytes()], completion_record);

    assert_eq!(events.len(), 2);
    assert!(
        matches!(events.remove(0).unwrap(), CompletionEvent::Finished { reason } if reason == "maximum_tokens")
    );
    assert!(
        matches!(events.remove(0).unwrap(), CompletionEvent::Summary { usage } if usage.prompt_tokens == 1 && usage.completion_tokens == 7)
    );
}

#[test]
fn chat_usage_event_is_parsed() {
    let bytes = "data: {\"id\": \"67c5b5f2-6672-4b0b-82b1-cc844127b214\",\"choices\": [],\"created\": 1739539146,\"model\": \"pharia-1-llm-7b-control\",\"system_fingerprint\": \".unknown.\",\"object\": \"chat.completion.chunk\",\"usage\": {\"prompt_tokens\": 20,\"completion_tokens\": 10,\"total_tokens\": 30}}\n\n";
    let mut events = run(&ChatStream, &[bytes.as_bytes()], chat_record);

    assert_eq!(events.len(), 1);
    assert!(
        matches!(events.remove(0).unwrap(), ChatEvent::Summary { usage } if usage.prompt_tokens == 20 && usage.completion_tokens == 10)
    );
}

#[test]
fn chat_stream_chunk_with_role_is_parsed() {
    let bytes = "data: {\"id\":\"831e41b4-2382-4b08-990e-0a3859967f43\",\"choices\":[{\"finish_reason\":null,\"index\":0,\"delta\":{\"role\":\"assistant\",\"content\":\"\"},\"logprobs\":null}],\"created\":1729782822,\"model\":\"pharia-1-llm-7b-control\",\"system_fingerprint\":null,\"object\":\"chat.completion.chunk\",\"usage\":null}\n\n";
    let mut events = run(&ChatStream, &[bytes.as_bytes()], chat_record);

    assert_eq!(events.len(), 1);
    assert!(
        matches!(events.remove(0).unwrap(), ChatEvent::MessageStart { role } if role == "assistant")
    );
}

#[test]
fn chat_stream_chunk_without_role_is_parsed() {
    let bytes = "data: {\"id\":\"a3ceca7f-32b2-4a6c-89e7-bc8eb5327f76\",\"choices\":[{\"finish_reason\":null,\"index\":0,\"delta\":{\"content\":\"Hello! How can I help you today? If you have any questions or need assistance, feel free to ask.\"},\"logprobs\":null}],\"created\":1729784197,\"model\":\"pharia-1-llm-7b-control\",\"system_fingerprint\":null,\"object\":\"chat.completion.chunk\",\"usage\":null}\n\n";
    let mut events = run(&ChatStream, &[bytes.as_bytes()], chat_record);

    assert_eq!(events.len(), 1);
    assert!(
        matches!(events.remove(0).unwrap(), ChatEvent::MessageDelta { content, logprobs } if content == "Hello! How can I help you today? If you have any questions or need assistance, feel free to ask." && logprobs.is_empty())
    );
}

#[test]
fn chat_stream_chunk_without_content_but_with_finish_reason_is_parsed() {
    let bytes = "data: {\"id\":\"a3ceca7f-32b2-4a6c-89e7-bc8eb5327f76\",\"choices\":[{\"finish_reason\":\"stop\",\"index\":0,\"delta\":{},\"logprobs\":null}],\"created\":1729784197,\"model\":\"pharia-1-llm-7b-control\",\"system_fingerprint\":null,\"object\":\"chat.completion.chunk\",\"usage\":null}\n\n";
    let mut events = run(&ChatStream, &[bytes.as_bytes()], chat_record);

    assert_eq!(events.len(), 1);
    assert!(
        matches!(events.remove(0).unwrap(), ChatEvent::MessageEnd { stop_reason } if stop_reason == "stop")
    );
}

#[test]
fn chat_fragments_map_to_start_delta_end() {
    let start = chat_record("{\"choices\":[{\"delta\":{\"role\":\"assistant\",\"content\":\"\"}}]}").unwrap();
    assert!(matches!(ChatStream.body_to_output(start), Some(ChatEvent::MessageStart { role }) if role == "assistant"));
    let delta = chat_record("{\"choices\":[{\"delta\":{\"content\":\"Hi\"}}]}").unwrap();
    assert!(matches!(ChatStream.body_to_output(delta), Some(ChatEvent::MessageDelta { content, .. }) if content == "Hi"));
    let end = chat_record("{\"choices\":[{\"finish_reason\":\"stop\"}]}").unwrap();
    assert!(matches!(ChatStream.body_to_output(end), Some(ChatEvent::MessageEnd { stop_reason }) if stop_reason == "stop"));
}

#[test]
fn chat_record_without_choice_or_usage_gives_nothing() {
    let empty = StreamChatResponse { choices: vec![], usage: None };
    assert!(ChatStream.body_to_output(empty).is_none());
}

#[test]
fn chat_delta_carries_its_logprobs() {
    let record = StreamChatResponse {
        choices: vec![DeserializedChatChunk::Delta {
            delta: StreamMessage { role: None, content: "x".to_string() },
            logprobs: Some(LogprobContent {
                content: vec![aleph_alpha_client::Distribution {
                    sampled: aleph_alpha_client::Logprob { token: b"x".to_vec(), logprob_bits: 7 },
                    top: vec![],
                }],
            }),
        }],
        usage: None,
    };
    match ChatStream.body_to_output(record) {
        Some(ChatEvent::MessageDelta { logprobs, .. }) => {
            assert_eq!(logprobs.len(), 1);
            assert_eq!(logprobs[0].sampled.logprob_bits, 7);
        }
        _ => panic!("expected a delta"),
    }
}

#[test]
fn end_marker_ends_the_stream_cleanly() {
    let mut driver = StreamDriver::new();
    let payloads = driver.on_chunk(b"data: A\n\ndata: [DONE]\n\ndata: B\n\n");
    assert_eq!(payloads, vec!["A".to_string()]);
    assert!(driver.is_done());
    assert!(driver.on_chunk(b"data: C\n\n").is_empty());
}

#[test]
fn end_marker_alone_gives_no_item() {
    let items = run(&completion_task(), &[b"data: [DONE]\n\n"], completion_record);
    assert!(items.is_empty());
}

#[test]
fn frames_before_end_marker_in_same_chunk_are_kept() {
    let mut driver = StreamDriver::new();
    let payloads = driver.on_chunk(b"data: 1\n\ndata: 2\n\ndata: [DONE]\n\n");
    assert_eq!(payloads, vec!["1".to_string(), "2".to_string()]);
}

#[test]
fn end_marker_split_across_chunks_is_recognised() {
    let mut driver = StreamDriver::new();
    assert!(driver.on_chunk(b"data: [DO").is_empty());
    assert!(!driver.is_done());
    assert!(driver.on_chunk(b"NE]\r\n\r\ndata: late\n\n").is_empty());
    assert!(driver.is_done());
}

#[test]
fn transport_failure_ends_the_stream() {
    let mut driver = StreamDriver::new();
    assert_eq!(driver.on_chunk(b"data: a\n\n"), vec!["a".to_string()]);
    driver.on_transport_error();
    assert!(driver.is_done());
    assert!(driver.on_chunk(b"data: b\n\n").is_empty());
}

#[test]
fn malformed_frame_gives_one_error_and_the_rest_flows() {
    let chunk = "data: {\"type\":\"stream_chunk\",\"completion\":\"a\"}\n\ndata: {not json\n\ndata: {\"type\":\"stream_chunk\",\"completion\":\"b\"}\n\ndata: {\"type\":\"stream_summary\",\"finish_reason\":\"stop\"}\n\n";
    let items = run(&completion_task(), &[chunk.as_bytes()], completion_record);
    assert_eq!(items.len(), 4);
    assert!(matches!(&items[0], Ok(CompletionEvent::Delta { completion, .. }) if completion == "a"));
    assert!(matches!(&items[1], Err(Error::InvalidStream { .. })));
    assert!(matches!(&items[2], Ok(CompletionEvent::Delta { completion, .. }) if completion == "b"));
    assert!(matches!(&items[3], Ok(CompletionEvent::Finished { reason }) if reason == "stop"));
}

#[test]
fn events_keep_the_order_of_their_frames() {
    let chunks: [&[u8]; 3] = [
        b"data: {\"choices\":[{\"delta\":{\"content\":\"1\"}}]}\n\ndata: {\"choi",
        b"ces\":[{\"delta\":{\"content\":\"2\"}}]}\n\n",
        b"data: {\"choices\":[{\"delta\":{\"content\":\"3\"}}]}\n\n",
    ];
    let items = run(&ChatStream, &chunks, chat_record);
    let contents: Vec<String> = items
        .into_iter()
        .map(|i| match i {
            Ok(ChatEvent::MessageDelta { content, .. }) => content,
            _ => panic!("expected deltas"),
        })
        .collect();
    assert_eq!(contents, vec!["1", "2", "3"]);
}

#[test]
fn decode_failure_keeps_its_cause() {
    let decoded = Decoded { payload: "{oops".to_string(), result: Err("expected value".to_string()) };
    match stream_item(&ChatStream, decoded) {
        Some(Err(Error::InvalidStream { deserialization_error, payload })) => {
            assert_eq!(deserialization_error, "expected value");
            assert_eq!(payload, "{oops");
        }
        _ => panic!("expected a decode failure"),
    }
}

#[test]
fn invalid_utf8_in_payload_is_replaced() {
    let mut driver = StreamDriver::new();
    let payloads = driver.on_chunk(b"data: a\xffb\n\n");
    assert_eq!(payloads, vec!["a\u{fffd}b".to_string()]);
}

#[test]
fn special_tokens_take_the_raw_completion() {
    let task = CompletionStream { special_tokens: true, logprobs: Logprobs::No };
    let record = DeserializedCompletionEvent::StreamChunk {
        completion: "Hi".to_string(),
        raw_completion: Some("Hi<|endoftext|>".to_string()),
        log_probs: vec![],
        completion_tokens: vec![],
    };
    assert!(matches!(task.body_to_output(record), Some(CompletionEvent::Delta { completion, .. }) if completion == "Hi<|endoftext|>"));
    let plain = DeserializedCompletionEvent::StreamChunk {
        completion: "Hi".to_string(),
        raw_completion: Some("Hi<|endoftext|>".to_string()),
        log_probs: vec![],
        completion_tokens: vec![],
    };
    assert!(matches!(completion_task().body_to_output(plain), Some(CompletionEvent::Delta { completion, .. }) if completion == "Hi"));
}

fn delta(content: &str) -> StreamChatResponse {
    StreamChatResponse {
        choices: vec![DeserializedChatChunk::Delta {
            delta: StreamMessage { role: None, content: content.to_string() },
            logprobs: None,
        }],
        usage: None,
    }
}

#[test]
fn outputs_keep_order_and_count_one_failure() {
    let decoded = vec![
        Decoded { payload: "a".to_string(), result: Ok(delta("a")) },
        Decoded { payload: "{bad".to_string(), result: Err("syntax".to_string()) },
        Decoded {
            payload: "role".to_string(),
            result: Ok(StreamChatResponse { choices: vec![], usage: None }),
        },
        Decoded { payload: "b".to_string(), result: Ok(delta("b")) },
    ];
    let items = stream_outputs(&ChatStream, decoded);
    assert_eq!(items.len(), 3);
    assert!(matches!(&items[0], Ok(ChatEvent::MessageDelta { content, .. }) if content == "a"));
    assert!(matches!(&items[1], Err(Error::InvalidStream { payload, .. }) if payload == "{bad"));
    assert!(matches!(&items[2], Ok(ChatEvent::MessageDelta { content, .. }) if content == "b"));
}

#[test]
fn body_payloads_do_not_depend_on_chunking() {
    let body: &[u8] = b"data: one\r\n\r\nevent: x\ndata: two\n\ndata: [DONE]\n\ndata: three\n\n";
    let whole = payloads_of_body(&vec![body.to_vec()]);
    assert_eq!(whole, vec!["one".to_string(), "two".to_string()]);
    for i in 0..=body.len() {
        let split = vec![body[..i].to_vec(), body[i..].to_vec()];
        assert_eq!(payloads_of_body(&split), whole, "split at {}", i);
    }
}
