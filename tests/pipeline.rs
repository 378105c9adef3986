use happycommit::error::PipelineError;
use happycommit::message::{ChatCompletionRequestMessage, ChatCompletionRequestMessages};
use happycommit::pipeline::{
    check_budget, plan_run, prepare, split_windows, MAX_TOTAL_TOKENS, WINDOW_OVERLAP,
};
use happycommit::planner::{plan_windows, Window};
use happycommit::refine::{window_messages, Refinement, REVISION_PREAMBLE};
use happycommit::tokenizer::{
    check_tokens, chars_of, first_difference, first_long_run, join_tokens, Tokenizer, MAX_RUN,
};

fn numbered_tokens(n: usize) -> Vec<String> {
    (0..n).map(|i| format!("t{} ", i)).collect()
}

/// Drives a run against a fake service that answers "message k" for window k and
/// fails on window `fail_at`, counting the calls it receives.
fn drive(mut run: Refinement, fail_at: Option<usize>, calls: &mut usize) -> Result<Vec<String>, PipelineError> {
    loop {
        match run.next_request() {
            None => return Ok(run.finish()),
            Some(_request) => {
                let k = *calls;
                *calls += 1;
                let answer = if Some(k) == fail_at {
                    Err("connection reset".to_string())
                } else {
                    Ok(format!("message {}", k))
                };
                run = run.accept(answer)?;
            }
        }
    }
}

#[test]
fn test_tokenizer() {
    let tokenizer = Tokenizer::cl100k().unwrap();
    let tokens = tokenizer.tokenize("hello world").unwrap();
    let foo = tokens.concat();
    assert_eq!(foo, "hello world");
}

#[test]
fn tokenizer_splits_into_tokens() {
    let tokenizer = Tokenizer::cl100k().unwrap();
    let tokens = tokenizer.tokenize("hello world").unwrap();
    assert_eq!(tokens, vec!["hello".to_string(), " world".to_string()]);
}

#[test]
fn five_thousand_tokens_make_sixty_three_windows() {
    let ws = plan_windows(5000, 100, 20).unwrap();
    assert_eq!(ws.len(), 63);
    assert_eq!(ws[0], Window { start: 0, end: 100 });
    assert_eq!(ws[1], Window { start: 80, end: 180 });
    assert_eq!(ws.last().unwrap().end, 5000);
}

#[test]
fn short_input_is_one_window_and_one_call() {
    let ws = plan_windows(50, 100, 20).unwrap();
    assert_eq!(ws, vec![Window { start: 0, end: 50 }]);
    let tokens = numbered_tokens(50);
    let run = plan_run("instructions", &tokens, 100, 20).unwrap();
    let mut calls = 0;
    let out = drive(run, None, &mut calls).unwrap();
    assert_eq!(calls, 1);
    assert_eq!(out, vec!["message 0".to_string()]);
}

#[test]
fn input_of_exactly_the_budget_is_one_window() {
    assert_eq!(plan_windows(100, 100, 20).unwrap(), vec![Window { start: 0, end: 100 }]);
}

#[test]
fn empty_input_is_one_empty_window() {
    assert_eq!(plan_windows(0, 100, 20).unwrap(), vec![Window { start: 0, end: 0 }]);
    let texts = split_windows(&Vec::new(), 100, 20).unwrap();
    assert_eq!(texts, vec![String::new()]);
}

#[test]
fn exact_multiple_of_the_step_ends_without_an_empty_window() {
    // 180 tokens, budget 100, overlap 20: [0,100) then [80,180).
    let ws = plan_windows(180, 100, 20).unwrap();
    assert_eq!(ws, vec![Window { start: 0, end: 100 }, Window { start: 80, end: 180 }]);
}

#[test]
fn windows_cover_the_input_once_overlaps_are_dropped() {
    let tokens = numbered_tokens(257);
    let ws = plan_windows(tokens.len(), 40, 7).unwrap();
    let mut rebuilt: Vec<String> = tokens[ws[0].start..ws[0].end].to_vec();
    for w in &ws[1..] {
        rebuilt.extend_from_slice(&tokens[w.start + 7..w.end]);
    }
    assert_eq!(rebuilt, tokens);
}

#[test]
fn truncated_windows_share_exactly_the_overlap() {
    let tokens = numbered_tokens(257);
    let ws = plan_windows(tokens.len(), 40, 7).unwrap();
    for k in 0..ws.len() - 1 {
        assert_eq!(ws[k].end - ws[k].start, 40);
        assert_eq!(tokens[ws[k].end - 7..ws[k].end], tokens[ws[k + 1].start..ws[k + 1].start + 7]);
    }
}

#[test]
fn window_count_stays_within_the_bound() {
    let ws = plan_windows(1000, 30, 10).unwrap();
    assert!(ws.len() <= (1000 + 20 - 1) / 20);
    assert_eq!(ws.len(), 50);
}

#[test]
fn overlap_not_below_budget_is_a_configuration_error() {
    assert!(matches!(plan_windows(10, 20, 20), Err(PipelineError::Configuration)));
    assert!(matches!(plan_windows(10, 0, 0), Err(PipelineError::Configuration)));
    let tokens = numbered_tokens(300);
    let mut calls = 0;
    let result = plan_run("instructions", &tokens, 100, 150).and_then(|run| drive(run, None, &mut calls));
    assert!(matches!(result, Err(PipelineError::Configuration)));
    assert_eq!(calls, 0);
}

#[test]
fn budget_is_what_the_instructions_leave() {
    assert_eq!(check_budget(MAX_TOTAL_TOKENS, 500, WINDOW_OVERLAP).unwrap(), 3000);
    assert!(matches!(check_budget(3500, 3500, 0), Err(PipelineError::Configuration)));
    assert!(matches!(check_budget(3500, 3300, 200), Err(PipelineError::Configuration)));
    assert_eq!(check_budget(3500, 3299, 200).unwrap(), 201);
}

#[test]
fn generation_failure_on_a_later_window_returns_no_messages() {
    let tokens = numbered_tokens(420);
    // budget 100, overlap 20: five windows.
    assert_eq!(plan_windows(tokens.len(), 100, 20).unwrap().len(), 5);
    let run = plan_run("instructions", &tokens, 100, 20).unwrap();
    let mut calls = 0;
    let result = drive(run, Some(2), &mut calls);
    match result {
        Err(PipelineError::Generation(e)) => assert_eq!(e, "connection reset"),
        other => panic!("expected a generation error, got {:?}", other),
    }
    assert_eq!(calls, 3);
}

#[test]
fn each_request_after_the_first_carries_the_previous_message() {
    let tokens = numbered_tokens(420);
    let mut run = plan_run("instructions", &tokens, 100, 20).unwrap();
    let first = run.next_request().unwrap();
    assert_eq!(first.len(), 2);
    let mut k = 0;
    while let Some(request) = run.next_request() {
        if k > 0 {
            let previous = format!("message {}", k - 1);
            assert_eq!(request.len(), 3);
            assert!(request.messages[2].content.ends_with(&previous));
        }
        run = run.accept(Ok(format!("message {}", k))).unwrap();
        k += 1;
    }
    assert_eq!(k, 5);
    assert_eq!(run.finish().last().unwrap(), "message 4");
}

#[test]
fn requests_hold_the_instructions_window_and_revision() {
    let first = window_messages("sys", "diff text", None);
    assert_eq!(first.len(), 2);
    assert_eq!(first.messages[0].name.as_deref(), Some("GitCommitBot"));
    assert_eq!(first.messages[0].role, "system");
    assert_eq!(first.messages[0].content, "sys");
    assert_eq!(first.messages[1].name.as_deref(), Some("User"));
    assert_eq!(first.messages[1].role, "user");
    assert_eq!(first.messages[1].content, "diff text");
    let prev = "Subject: add x".to_string();
    let later = window_messages("sys", "more", Some(&prev));
    assert_eq!(later.len(), 3);
    assert_eq!(later.messages[2].name.as_deref(), Some("PreviousCommitProvider"));
    assert_eq!(later.messages[2].content, format!("{}{}", REVISION_PREAMBLE, prev));
}

#[test]
fn window_texts_join_their_tokens() {
    let tokens: Vec<String> = vec!["a".into(), "b".into(), "c".into(), "d".into(), "e".into()];
    let texts = split_windows(&tokens, 3, 1).unwrap();
    assert_eq!(texts, vec!["abc".to_string(), "cde".to_string()]);
    assert_eq!(join_tokens(&tokens, 1, 4), "bcd");
    assert_eq!(join_tokens(&tokens, 2, 2), "");
}

#[test]
fn tokens_that_do_not_give_back_the_text_report_where_they_differ() {
    let text: Vec<char> = "abcd".chars().collect();
    let ok = check_tokens(&text, vec!["ab".to_string(), "cd".to_string()]).unwrap();
    assert_eq!(ok, vec!["ab".to_string(), "cd".to_string()]);
    let bad = check_tokens(&text, vec!["ab".to_string(), "\u{fffd}d".to_string()]);
    assert!(matches!(bad, Err(PipelineError::Tokenization { offset: 2 })));
    let short = check_tokens(&text, vec!["ab".to_string()]);
    assert!(matches!(short, Err(PipelineError::Tokenization { offset: 2 })));
}

#[test]
fn long_runs_are_found_where_they_reach_the_limit() {
    let mut cs: Vec<char> = "ab ".chars().collect();
    assert_eq!(first_long_run(&cs), None);
    cs.extend(std::iter::repeat(' ').take(MAX_RUN));
    assert_eq!(first_long_run(&cs), Some(2 + MAX_RUN - 1));
    let letters: Vec<char> = std::iter::repeat('x').take(MAX_RUN - 1).collect();
    assert_eq!(first_long_run(&letters), None);
}

#[test]
fn tokenizer_rejects_a_run_beyond_the_limit() {
    let tokenizer = Tokenizer::cl100k().unwrap();
    let text = format!("x{}y", " ".repeat(MAX_RUN));
    assert!(matches!(tokenizer.tokenize(&text), Err(PipelineError::Tokenization { offset }) if offset == MAX_RUN));
    let fine = format!("x{}y", " ".repeat(MAX_RUN - 1));
    assert_eq!(tokenizer.tokenize(&fine).unwrap().concat(), fine);
}

#[test]
fn characters_and_differences() {
    assert_eq!(chars_of("héllo"), vec!['h', 'é', 'l', 'l', 'o']);
    assert_eq!(first_difference(&vec!['a', 'b'], &vec!['a', 'b']), None);
    assert_eq!(first_difference(&vec!['a', 'b'], &vec!['a', 'c']), Some(1));
    assert_eq!(first_difference(&vec!['a'], &vec!['a', 'c']), Some(1));
}

#[test]
fn prepare_plans_the_diff_after_the_instructions() {
    let tokenizer = Tokenizer::cl100k().unwrap();
    let diff = "hello world ".repeat(300);
    let run = prepare(&tokenizer, "hello world", &diff, 102, 20).unwrap();
    // Two prompt tokens leave 100 per window over 600 diff tokens: steps of 80.
    let mut calls = 0;
    let out = drive(run, None, &mut calls).unwrap();
    assert_eq!(calls, 8);
    assert_eq!(out.len(), 8);
    assert!(matches!(prepare(&tokenizer, "hello world", &diff, 22, 20), Err(PipelineError::Configuration)));
    assert!(matches!(prepare(&tokenizer, "hello world", &diff, 2, 0), Err(PipelineError::Configuration)));
}

#[test]
fn messages_list_grows_by_push() {
    let mut list = ChatCompletionRequestMessages::from(Vec::new());
    assert_eq!(list.len(), 0);
    list.push(ChatCompletionRequestMessage::new("User", "user", "hi".to_string()));
    assert_eq!(list.len(), 1);
    assert_eq!(list.messages[0].content, "hi");
}
