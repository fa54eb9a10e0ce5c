use navi::decoding::{text_tokens, GreedyDecoding, MAX_DECODE_STEPS};

#[test]
fn prompt_then_tokens_until_end_of_text() {
    let mut d = GreedyDecoding::new(50258, 50259, 50360, 50257);
    assert_eq!(d.tokens(), &vec![50258, 50259, 50360]);
    assert!(d.wants_next());
    d.accept(11);
    d.accept(12);
    assert_eq!(d.tokens(), &vec![50258, 50259, 50360, 11, 12]);
    assert_eq!(d.text_tokens(), vec![11, 12]);
    d.accept(50257);
    assert!(!d.wants_next());
    assert_eq!(d.tokens(), &vec![50258, 50259, 50360, 11, 12]);
}

#[test]
fn step_budget() {
    let mut d = GreedyDecoding::new(1, 2, 3, 0);
    let mut steps = 0;
    while d.wants_next() {
        d.accept(7);
        steps += 1;
    }
    assert_eq!(steps, MAX_DECODE_STEPS);
    assert_eq!(d.tokens().len(), 3 + MAX_DECODE_STEPS);
}

#[test]
fn text_tokens_drop_specials() {
    assert_eq!(text_tokens(&[5, 100, 3, 99, 100, 101], 100), vec![5, 3, 99]);
    assert_eq!(text_tokens(&[], 1), Vec::<u32>::new());
}
