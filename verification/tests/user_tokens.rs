use sudokuroyale::user::reset_token::{ResetToken, RESET_TOKEN_LIFETIME_MS};
use sudokuroyale::user::reset_token_repository::ResetTokenRepository;

#[test]
fn a_token_lives_thirty_minutes() {
    let t = ResetToken::issued_at(1, 2, 1_000);
    assert_eq!(t.expires_at, 1_000 + 30 * 60 * 1000);
    assert_eq!(RESET_TOKEN_LIFETIME_MS, 1_800_000);
    assert!(t.is_valid_at(1_000));
    assert!(t.is_valid_at(1_800_999));
    assert!(!t.is_valid_at(1_801_000));
}

#[test]
fn a_new_token_is_valid_now() {
    let t = ResetToken::new(7);
    assert_eq!(t.user_id, 7);
    assert!(t.is_valid());
}

#[test]
fn tokens_are_found_removed_and_cleaned() {
    let mut repo = ResetTokenRepository::new();
    repo.add_token(ResetToken::issued_at(1, 10, 0));
    repo.add_token(ResetToken::issued_at(2, 20, 5_000_000));
    assert_eq!(repo.find_token(10).unwrap().user_id, 1);
    assert!(repo.find_token(30).is_none());

    repo.clean_expired_at(2_000_000);
    assert!(repo.find_token(10).is_none());
    assert!(repo.find_token(20).is_some());

    repo.remove_token(20);
    assert!(repo.find_token(20).is_none());
}

#[test]
fn cleaning_now_keeps_fresh_tokens() {
    let mut repo = ResetTokenRepository::new();
    repo.add_token(ResetToken::new(3));
    repo.add_token(ResetToken::issued_at(4, 40, 0));
    repo.clean_expired();
    assert!(repo.find_token(40).is_none());
}
