use std::time::Duration;
use xiaolin_agent::api_errors::{format_file_size, ApiErrorClassifier, ApiErrorKind};


// ── classify() tests ────────────────────────────────────────────

#[test]
fn classify_401_as_auth_expired() {
    let kind = ApiErrorClassifier::classify(Some(401), "Unauthorized", None);
    assert_eq!(kind, ApiErrorKind::AuthExpired);
}

#[test]
fn classify_401_invalid_key() {
    let kind = ApiErrorClassifier::classify(Some(401), "Invalid API key provided", None);
    assert_eq!(kind, ApiErrorKind::InvalidApiKey);
}

#[test]
fn classify_429_rate_limited() {
    let kind = ApiErrorClassifier::classify(Some(429), "Too many requests", None);
    assert!(matches!(kind, ApiErrorKind::RateLimited { .. }));
}

#[test]
fn classify_429_with_retry_after() {
    let kind = ApiErrorClassifier::classify(Some(429), "Rate limited. Retry-After: 60", None);
    match kind {
        ApiErrorKind::RateLimited { retry_after } => {
            assert_eq!(retry_after, Some(Duration::from_secs(60)));
        }
        _ => panic!("expected RateLimited"),
    }
}

#[test]
fn classify_529_overloaded() {
    let kind = ApiErrorClassifier::classify(Some(529), "overloaded", None);
    assert_eq!(kind, ApiErrorKind::Overloaded);
}

#[test]
fn classify_prompt_too_long_from_body() {
    let kind = ApiErrorClassifier::classify(
        Some(400),
        "Bad Request",
        Some("prompt_too_long: 150000 tokens > 128000 limit"),
    );
    match kind {
        ApiErrorKind::PromptTooLong {
            actual_tokens,
            limit_tokens,
        } => {
            assert_eq!(actual_tokens, Some(150000));
            assert_eq!(limit_tokens, Some(128000));
        }
        _ => panic!("expected PromptTooLong, got {:?}", kind),
    }
}

#[test]
fn classify_context_length_exceeded() {
    let kind =
        ApiErrorClassifier::classify(None, "context_length_exceeded: 130000 > 128000", None);
    assert!(matches!(kind, ApiErrorKind::PromptTooLong { .. }));
}

#[test]
fn classify_maximum_context_length() {
    let kind = ApiErrorClassifier::classify(
        None,
        "This model's maximum context length is 128000 tokens, however you requested 150000",
        None,
    );
    match kind {
        ApiErrorKind::PromptTooLong {
            actual_tokens,
            limit_tokens,
        } => {
            assert_eq!(actual_tokens, Some(150000));
            assert_eq!(limit_tokens, Some(128000));
        }
        _ => panic!("expected PromptTooLong"),
    }
}

#[test]
fn classify_max_output_tokens() {
    let kind = ApiErrorClassifier::classify(None, "max_tokens output limit reached", None);
    assert_eq!(kind, ApiErrorKind::MaxOutputTokens);
}

#[test]
fn classify_invalid_api_key_from_text() {
    let kind = ApiErrorClassifier::classify(None, "Invalid API key: sk-xxx is not valid", None);
    assert_eq!(kind, ApiErrorKind::InvalidApiKey);
}

#[test]
fn classify_rate_limit_from_text() {
    let kind =
        ApiErrorClassifier::classify(None, "rate_limit_exceeded: retry in 30 seconds", None);
    match kind {
        ApiErrorKind::RateLimited { retry_after } => {
            assert_eq!(retry_after, Some(Duration::from_secs(30)));
        }
        _ => panic!("expected RateLimited"),
    }
}

#[test]
fn classify_overloaded_from_text() {
    let kind = ApiErrorClassifier::classify(None, "The server is currently overloaded", None);
    assert_eq!(kind, ApiErrorKind::Overloaded);
}

#[test]
fn classify_capacity_overloaded() {
    let kind = ApiErrorClassifier::classify(None, "No capacity available for this model", None);
    assert_eq!(kind, ApiErrorKind::Overloaded);
}

#[test]
fn classify_image_too_large() {
    let kind = ApiErrorClassifier::classify(None, "Image is too large to process", None);
    assert!(matches!(kind, ApiErrorKind::ImageTooLarge { .. }));
}

#[test]
fn classify_pdf_too_large() {
    let kind = ApiErrorClassifier::classify(None, "PDF has too many pages to process", None);
    assert!(matches!(kind, ApiErrorKind::PdfTooLarge { .. }));
}

#[test]
fn classify_model_not_found() {
    let kind = ApiErrorClassifier::classify(Some(404), "Model gpt-5 not found", None);
    assert!(matches!(kind, ApiErrorKind::ModelNotAvailable { .. }));
}

#[test]
fn classify_model_not_available() {
    let kind = ApiErrorClassifier::classify(None, "Model zeta-99 is not available", None);
    assert!(matches!(kind, ApiErrorKind::ModelNotAvailable { .. }));
}

#[test]
fn classify_budget_exhausted() {
    let kind =
        ApiErrorClassifier::classify(None, "Token budget exhausted for this session", None);
    assert_eq!(kind, ApiErrorKind::BudgetExhausted);
}

#[test]
fn classify_timeout() {
    let kind = ApiErrorClassifier::classify(None, "Request timed out after 30s", None);
    assert_eq!(kind, ApiErrorKind::ConnectionTimeout);
}

#[test]
fn classify_connection_reset() {
    let kind = ApiErrorClassifier::classify(None, "Connection reset by peer", None);
    assert_eq!(kind, ApiErrorKind::ConnectionReset);
}

#[test]
fn classify_connection_closed() {
    let kind = ApiErrorClassifier::classify(None, "Connection closed unexpectedly", None);
    assert_eq!(kind, ApiErrorKind::ConnectionReset);
}

#[test]
fn classify_unknown() {
    let kind = ApiErrorClassifier::classify(Some(500), "Internal server error", None);
    assert!(matches!(kind, ApiErrorKind::Unknown(_)));
}

// ── parse_prompt_too_long_tokens tests ──────────────────────────

#[test]
fn parse_tokens_two_numbers_larger_first() {
    let (actual, limit) =
        ApiErrorClassifier::parse_prompt_too_long_tokens("150000 tokens exceeds 128000 limit");
    assert_eq!(actual, Some(150000));
    assert_eq!(limit, Some(128000));
}

#[test]
fn parse_tokens_two_numbers_smaller_first() {
    let (actual, limit) = ApiErrorClassifier::parse_prompt_too_long_tokens(
        "maximum context length is 128000 tokens, you requested 150000",
    );
    assert_eq!(actual, Some(150000));
    assert_eq!(limit, Some(128000));
}

#[test]
fn parse_tokens_single_number_with_limit_keyword() {
    let (actual, limit) =
        ApiErrorClassifier::parse_prompt_too_long_tokens("maximum context limit is 128000");
    assert_eq!(actual, None);
    assert_eq!(limit, Some(128000));
}

#[test]
fn parse_tokens_no_numbers() {
    let (actual, limit) =
        ApiErrorClassifier::parse_prompt_too_long_tokens("prompt is too long");
    assert_eq!(actual, None);
    assert_eq!(limit, None);
}

// ── recovery_message tests ──────────────────────────────────────

#[test]
fn recovery_message_prompt_too_long() {
    let msg = ApiErrorClassifier::recovery_message(&ApiErrorKind::PromptTooLong {
        actual_tokens: Some(150000),
        limit_tokens: Some(128000),
    });
    assert!(msg.contains("150000"));
    assert!(msg.contains("128000"));
    assert!(msg.contains("auto-compact"));
}

#[test]
fn recovery_message_rate_limited_with_duration() {
    let msg = ApiErrorClassifier::recovery_message(&ApiErrorKind::RateLimited {
        retry_after: Some(Duration::from_secs(45)),
    });
    assert!(msg.contains("45s"));
}

#[test]
fn recovery_message_rate_limited_default() {
    let msg =
        ApiErrorClassifier::recovery_message(&ApiErrorKind::RateLimited { retry_after: None });
    assert!(msg.contains("30s"));
}

#[test]
fn recovery_message_all_kinds_non_empty() {
    let kinds = vec![
        ApiErrorKind::PromptTooLong {
            actual_tokens: None,
            limit_tokens: None,
        },
        ApiErrorKind::RateLimited { retry_after: None },
        ApiErrorKind::Overloaded,
        ApiErrorKind::AuthExpired,
        ApiErrorKind::MaxOutputTokens,
        ApiErrorKind::InvalidApiKey,
        ApiErrorKind::ImageTooLarge {
            path: "test.png".into(),
            size: 10_000_000,
        },
        ApiErrorKind::PdfTooLarge {
            path: "doc.pdf".into(),
            pages: 500,
        },
        ApiErrorKind::ConnectionTimeout,
        ApiErrorKind::ConnectionReset,
        ApiErrorKind::StreamInterrupted,
        ApiErrorKind::ModelNotAvailable {
            model: "gpt-99".into(),
        },
        ApiErrorKind::BudgetExhausted,
        ApiErrorKind::Unknown("something".into()),
    ];
    for kind in &kinds {
        let msg = ApiErrorClassifier::recovery_message(kind);
        assert!(!msg.is_empty(), "empty message for {:?}", kind);
    }
}

// ── format_file_size tests ──────────────────────────────────────

#[test]
fn format_file_size_zero() {
    assert_eq!(format_file_size(0), "0 B");
}

#[test]
fn format_file_size_bytes() {
    assert_eq!(format_file_size(512), "512 B");
}

#[test]
fn format_file_size_megabytes() {
    let size = 5 * 1024 * 1024;
    let result = format_file_size(size);
    assert!(result.contains("5.0 MB"));
}

#[test]
fn classify_retry_in_fraction_and_header_precedence() {
    let kind = ApiErrorClassifier::classify(None, "rate limit hit, retry in 1.5 seconds", None);
    assert_eq!(kind, ApiErrorKind::RateLimited { retry_after: Some(Duration::from_millis(1500)) });
    let kind = ApiErrorClassifier::classify(Some(429), "Retry-After: 7; please retry in 30s", None);
    assert_eq!(kind, ApiErrorKind::RateLimited { retry_after: Some(Duration::from_secs(7)) });
}

#[test]
fn classify_status_codes_take_precedence() {
    assert_eq!(ApiErrorClassifier::classify(Some(529), "anything", None), ApiErrorKind::Overloaded);
    assert_eq!(ApiErrorClassifier::classify(Some(401), "TOKEN EXPIRED", None), ApiErrorKind::AuthExpired);
    assert_eq!(
        ApiErrorClassifier::classify(Some(500), "Internal server error", None),
        ApiErrorKind::Unknown("Internal server error".into())
    );
}

#[test]
fn classify_uppercase_text_is_recognised() {
    let kind = ApiErrorClassifier::classify(None, "CONNECTION RESET BY PEER", None);
    assert_eq!(kind, ApiErrorKind::ConnectionReset);
}

#[test]
fn try_classify_agrees_with_classify() {
    assert_eq!(
        ApiErrorClassifier::try_classify(Some(429), "Too many requests", None),
        Some(ApiErrorClassifier::classify(Some(429), "Too many requests", None))
    );
}

#[test]
fn file_sizes_in_each_unit() {
    assert_eq!(format_file_size(1023), "1023 B");
    assert_eq!(format_file_size(1024), "1.0 KB");
    assert_eq!(format_file_size(1536), "1.5 KB");
    assert_eq!(format_file_size(10_000_000), "9.5 MB");
    assert_eq!(format_file_size(3 * 1024 * 1024 * 1024), "3.0 GB");
    assert_eq!(format_file_size(5000 * 1024 * 1024 * 1024), "5000.0 GB");
}

#[test]
fn recovery_messages_exact() {
    assert_eq!(
        ApiErrorClassifier::recovery_message(&ApiErrorKind::ImageTooLarge { path: String::new(), size: 2048 }),
        "Image <unknown> too large (2.0 KB). Consider resizing or using a smaller image."
    );
    assert_eq!(
        ApiErrorClassifier::recovery_message(&ApiErrorKind::PdfTooLarge { path: "a.pdf".into(), pages: 12 }),
        "PDF a.pdf too large (12 pages). Consider splitting the document."
    );
    assert_eq!(
        ApiErrorClassifier::recovery_message(&ApiErrorKind::ModelNotAvailable { model: String::new() }),
        "Model 'unknown' is not available. Check your model configuration."
    );
    assert_eq!(
        ApiErrorClassifier::recovery_message(&ApiErrorKind::PromptTooLong { actual_tokens: None, limit_tokens: Some(9) }),
        "Prompt is too long (0 tokens > 9 limit). Running auto-compact..."
    );
}
