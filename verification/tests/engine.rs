use psyche::llama_cpp::{
    check_prompt, checked_total_tokens_from_prompt_len, cuda_available, cuda_hidden,
    decode_token_bytes, judged_decoding, messages_with_media_markers, multimodal_positions,
    plan_prompt, prompt_with_media_markers, resolve_prompt, sampler_plan, switched_on,
    token_decoder, within_generation_limit, CudaProbe, Decoding, EngineError, GenerationControl, GenerationState,
    LlamaCppConfig, Next, PromptSource, Sampled, SamplerPlan,
};
use psyche::llm::{ChatMessage, GenerationRequest};
use psyche::stops::{StopDetection, StopDetector};

const MARKER: &str = "<__media__>";

#[test]
fn stop_detector_stops_before_marker_in_single_token() {
    let mut detector = StopDetector::new(vec!["\nUser:".to_string()]);

    assert_eq!(
        detector.push("Yes.\nUser: Again"),
        StopDetection {
            text: "Yes.".to_string(),
            stopped: true,
        }
    );
}

#[test]
fn stop_detector_holds_split_marker_prefix() {
    let mut detector = StopDetector::new(vec!["\nUser:".to_string()]);

    assert_eq!(
        detector.push("Yes.\nUs"),
        StopDetection {
            text: "Yes.".to_string(),
            stopped: false,
        }
    );
    assert_eq!(
        detector.push("er: Again"),
        StopDetection {
            text: String::new(),
            stopped: true,
        }
    );
}

#[test]
fn stop_detector_holds_marker_prefix_when_it_is_the_whole_token() {
    let mut detector = StopDetector::new(vec!["\nUser:".to_string()]);

    assert_eq!(
        detector.push("\nUs"),
        StopDetection {
            text: String::new(),
            stopped: false,
        }
    );
    assert_eq!(
        detector.push("er: Again"),
        StopDetection {
            text: String::new(),
            stopped: true,
        }
    );
}

#[test]
fn stop_detector_flushes_unmatched_pending_text() {
    let mut detector = StopDetector::new(vec!["\nUser:".to_string()]);

    assert_eq!(
        detector.push("Yes.\nUsual"),
        StopDetection {
            text: "Yes.\nUsual".to_string(),
            stopped: false,
        }
    );
    assert_eq!(detector.finish(), "");
}

#[test]
fn prompt_with_media_markers_places_images_after_text() {
    let marker = MARKER;

    assert_eq!(
        prompt_with_media_markers("Describe this.", 2, MARKER),
        format!("Describe this.\n{marker} {marker}")
    );
}

#[test]
fn messages_with_media_markers_updates_last_user_message() {
    let marker = MARKER;
    let messages = vec![
        ChatMessage::new("system", "system"),
        ChatMessage::new("user", "first"),
        ChatMessage::new("assistant", "ok"),
        ChatMessage::new("user", "second"),
    ];

    let messages = messages_with_media_markers(&messages, 1, MARKER);

    assert_eq!(messages[0].content, "system");
    assert_eq!(messages[1].content, "first");
    assert_eq!(messages[2].content, "ok");
    assert_eq!(messages[3].content, format!("second\n{marker}"));
}

#[test]
fn a_detector_without_markers_passes_everything() {
    let mut detector = StopDetector::new(vec![String::new()]);
    assert_eq!(
        detector.push("anything"),
        StopDetection { text: "anything".to_string(), stopped: false }
    );
}

#[test]
fn held_text_comes_out_at_the_end() {
    let mut detector = StopDetector::new(vec!["<turn|>".to_string()]);
    assert_eq!(
        detector.push("so <tur"),
        StopDetection { text: "so ".to_string(), stopped: false }
    );
    assert_eq!(detector.finish(), "<tur");
}

fn config() -> LlamaCppConfig {
    let mut config = LlamaCppConfig::with_threads(None);
    config.model_path = "model.gguf".to_string();
    config
}

#[test]
fn a_configuration_is_checked_part_by_part() {
    assert!(config().check().is_ok());
    assert_eq!(config().threads, 4);
    assert_eq!(LlamaCppConfig::with_threads(Some(8)).threads, 8);
    assert_eq!(
        LlamaCppConfig::with_threads(None).check().unwrap_err().message(),
        "llama.cpp model_path is required"
    );
    let mut c = config();
    c.context_size = 0;
    assert_eq!(
        c.check().unwrap_err().message(),
        "llama.cpp context_size must be greater than zero"
    );
    let mut c = config();
    c.max_tokens = 0;
    assert_eq!(
        c.check().unwrap_err().message(),
        "llama.cpp max_tokens must be greater than zero"
    );
    let mut c = config();
    c.threads = 0;
    assert_eq!(c.check().unwrap_err().message(), "llama.cpp threads must be greater than zero");
    let mut c = config();
    c.threads = usize::MAX;
    assert_eq!(c.thread_count().unwrap_err().message(), "threads exceeds i32::MAX");
    assert_eq!(config().thread_count().unwrap(), 4);
}

#[test]
fn layers_go_to_the_gpu_only_where_there_is_one() {
    let mut c = config();
    assert_eq!(c.selected_gpu_layers(true, true), 0);
    assert_eq!(c.selected_gpu_layers(false, false), 0);
    c.gpu_layers = Some(7);
    assert_eq!(c.selected_gpu_layers(false, true), 7);
    c.cpu_only = true;
    assert_eq!(c.selected_gpu_layers(false, true), 0);
}

#[test]
fn devices_may_be_hidden() {
    assert!(cuda_hidden(&Some("-1".to_string())));
    assert!(!cuda_hidden(&Some("0".to_string())));
    assert!(!cuda_hidden(&None));
    let probe = CudaProbe {
        offload: true,
        max_devices: 1,
        visible_devices: None,
        listing: Some((true, true)),
    };
    assert!(cuda_available(&probe));
    assert!(!cuda_available(&CudaProbe { offload: false, ..probe }));
    assert!(switched_on(&Some("1".to_string())));
    assert!(!switched_on(&None));
}

#[test]
fn cold_sampling_is_greedy() {
    assert_eq!(sampler_plan("0", "0.95", 64), SamplerPlan::Greedy);
    assert_eq!(sampler_plan("-0.5", "0.95", 64), SamplerPlan::Greedy);
    assert_eq!(
        sampler_plan("0.0004", "0.9999", 64),
        SamplerPlan::Random {
            top_k: 64,
            top_p: "0.9999".to_string(),
            temperature: "0.0004".to_string(),
        }
    );
    assert_eq!(
        sampler_plan("1.0", "1.5", 0),
        SamplerPlan::Random { top_k: 1, top_p: "1.0".to_string(), temperature: "1.0".to_string() }
    );
    assert_eq!(
        sampler_plan("1.0", "-0.1", -3),
        SamplerPlan::Random { top_k: 1, top_p: "0.0".to_string(), temperature: "1.0".to_string() }
    );
}

#[test]
fn a_prompt_has_to_fit() {
    assert_eq!(checked_total_tokens_from_prompt_len(10, Some(5)).unwrap(), 15);
    assert_eq!(
        checked_total_tokens_from_prompt_len(10, Some(0)).unwrap_err().message(),
        "max_tokens must be greater than zero"
    );
    assert_eq!(
        checked_total_tokens_from_prompt_len(usize::MAX, Some(1)).unwrap_err().message(),
        "prompt plus max_tokens overflowed usize"
    );
    assert!(check_prompt(10, Some(5), 15).is_ok());
    assert_eq!(
        check_prompt(10, Some(6), 15).unwrap_err().message(),
        "generation needs 16 context tokens, but context_size is 15"
    );
    assert_eq!(check_prompt(0, None, 15).unwrap_err().message(), "prompt produced no tokens");
    assert!(within_generation_limit(4, Some(5)));
    assert!(!within_generation_limit(5, Some(5)));
    assert!(within_generation_limit(5, None));
}

#[test]
fn a_prompt_is_cut_into_batches() {
    let plan = plan_prompt(3, 5, 2).unwrap().expect("some tokens");
    let cuts: Vec<(usize, usize, usize)> =
        plan.chunks.iter().map(|c| (c.from, c.to, c.position)).collect();
    assert_eq!(cuts, vec![(0, 2, 3), (2, 4, 5), (4, 5, 7)]);
    assert_eq!(plan.logit_slot, 0);
    assert!(plan_prompt(0, 0, 2).unwrap().is_none());
    assert_eq!(
        plan_prompt(0, 1, 0).unwrap_err().message(),
        "llama.cpp n_batch must be greater than zero"
    );
    assert_eq!(
        plan_prompt(usize::MAX, 1, 1).unwrap_err().message(),
        "prompt token position exceeds i32::MAX"
    );
}

#[test]
fn a_multimodal_prompt_has_to_fit() {
    assert_eq!(multimodal_positions(7, 5, 10).unwrap(), 7);
    assert_eq!(
        multimodal_positions(0, 0, 10).unwrap_err().message(),
        "multimodal prompt produced no tokens"
    );
    assert_eq!(
        multimodal_positions(11, 5, 10).unwrap_err().message(),
        "multimodal prompt needs 11 context tokens, but context_size is 10"
    );
}

#[test]
fn a_request_is_a_prompt_or_a_chat() {
    let mut request = GenerationRequest::default();
    request.prompt = "hello".to_string();
    assert!(matches!(resolve_prompt(&request, MARKER), PromptSource::Plain(p) if p == "hello"));
    request.messages.push(ChatMessage::new("user", "hi"));
    assert!(matches!(
        resolve_prompt(&request, MARKER),
        PromptSource::Chat(m) if m.len() == 1 && m[0].content == "hi"
    ));
}

#[test]
fn a_generation_ends_at_its_marker() {
    let mut state = GenerationState::start(4, 100, Some(10), vec!["<turn|>".to_string()]);
    assert!(state.ready());
    let first = state.step(Sampled::Text("Hello".to_string()));
    assert_eq!(first.emit, Some("Hello".to_string()));
    assert_eq!(first.next, Next::Commit);
    assert_eq!(state.position, 5);
    let last = state.step(Sampled::Text(" there<turn|>".to_string()));
    assert_eq!(last.emit, Some(" there".to_string()));
    assert_eq!(last.next, Next::Complete);
    assert_eq!(state.finish(), None);
}

#[test]
fn a_paused_generation_waits() {
    let mut state = GenerationState::start(4, 100, None, vec![]);
    assert_eq!(state.control(GenerationControl::SetPaused { paused: true }), None);
    assert!(state.paused);
    assert_eq!(
        state.control(GenerationControl::AppendPrompt { text: "more".to_string() }),
        Some("more".to_string())
    );
    assert_eq!(state.control(GenerationControl::SetPaused { paused: false }), None);
    assert!(!state.paused);
    let plan = state.append(3, 8).unwrap().expect("some tokens");
    assert_eq!(plan.chunks.len(), 1);
    assert_eq!(state.position, 7);
    assert_eq!(
        state.append(200, 8).unwrap_err().message(),
        "appended prompt needs 207 context tokens, but context_size is 100"
    );
}

#[test]
fn token_bytes_are_decoded_across_tokens() {
    let mut decoder = encoding_rs::UTF_8.new_decoder();
    let bytes = "héllo".as_bytes();
    assert_eq!(decode_token_bytes(&mut decoder, &bytes[..2]).unwrap(), "h");
    assert_eq!(decode_token_bytes(&mut decoder, &bytes[2..]).unwrap(), "éllo");
    let mut decoder = encoding_rs::UTF_8.new_decoder();
    assert_eq!(
        decode_token_bytes(&mut decoder, &[0xc3, 0x28]).unwrap_err().message(),
        "failed to decode llama.cpp token as UTF-8"
    );
}

#[test]
fn pieces_of_a_token_decode_as_the_whole() {
    let bytes = "h\u{e9}\u{20ac}\u{1f600}!".as_bytes();
    let whole = decode_token_bytes(&mut token_decoder(), bytes).unwrap();
    assert_eq!(whole, "h\u{e9}\u{20ac}\u{1f600}!");
    for cut in 0..=bytes.len() {
        let mut decoder = token_decoder();
        let mut text = decode_token_bytes(&mut decoder, &bytes[..cut]).unwrap();
        text.push_str(&decode_token_bytes(&mut decoder, &bytes[cut..]).unwrap());
        assert_eq!(text, whole);
    }
}

#[test]
fn a_decoding_is_judged() {
    let whole = Decoding { text: "a".to_string(), read: 1, full: false, malformed: false };
    assert_eq!(judged_decoding(whole, 1).unwrap(), "a");
    let part = Decoding { text: "a".to_string(), read: 1, full: true, malformed: false };
    assert_eq!(judged_decoding(part, 2).unwrap_err(), EngineError::TokenIncomplete);
    let bad = Decoding { text: "a".to_string(), read: 1, full: false, malformed: true };
    assert_eq!(judged_decoding(bad, 1).unwrap_err(), EngineError::TokenMalformed);
}
