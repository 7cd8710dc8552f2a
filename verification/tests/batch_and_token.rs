use functional_rust::batch::{BatchSize, InvalidBatchSize, MAX_BATCH_SIZE};
use functional_rust::token::AccessToken;

#[test]
fn accepts_sizes_within_the_range() {
    for value in [1, 64, MAX_BATCH_SIZE] {
        assert_eq!(
            BatchSize::try_from(value).map(BatchSize::get),
            Ok(value),
            "input: {value}"
        );
    }
}

#[test]
fn rejects_sizes_outside_the_range() {
    for value in [0, MAX_BATCH_SIZE + 1, usize::MAX] {
        assert_eq!(
            BatchSize::try_from(value),
            Err(InvalidBatchSize { value }),
            "input: {value}"
        );
    }
}

#[test]
fn debug_output_omits_the_token_contents() {
    let token = AccessToken::new("test-only-token".to_owned());
    let output = token.debug_text();
    assert!(output.contains("AccessToken"));
    assert!(!output.contains(token.expose_secret()));
    assert_eq!(token.expose_secret(), "test-only-token");
}
