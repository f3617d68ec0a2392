use kon::io::LineLengthLimiter;

#[test]
fn latin1() {
    let _inner = std::io::Cursor::<Vec<u8>>::new(vec![
        73, 100, 44, 110, 97, 109, 101, 10, 49, 44, 74, 234, 114, 111, 241, 111, 10,
    ]);
}

#[test]
fn line_length_limiter_accounts_lines() {
    let mut limiter = LineLengthLimiter::new((), 10);
    let chunk: Vec<u8> = b"abc\ndefgh".to_vec();
    assert!(limiter.account(&chunk, chunk.len()).is_ok());
    assert_eq!(limiter.current_length, 6);
    let long: Vec<u8> = b"aaaaaaaaaaaa".to_vec();
    assert!(limiter.account(&long, long.len()).is_err());
}
