use navi::decoding::decode_text;
use navi::special::{decimal_string, keep_last_rank, special_token_list, special_token_name_list};
use navi::text::{chars_of, encode_utf8_chars, is_whitespace_char, parse_u32, split_whitespace};
use navi::tokenizer::{
    build_vocabulary, get_encoding, languages, parse_vocab_line, token_pattern, vocab_entry,
    TokenizerError,
};

fn lines(v: &[&str]) -> Vec<String> {
    v.iter().map(|s| s.to_string()).collect()
}

#[test]
fn chars_and_bytes_of_text() {
    for s in ["", "abc", "héllo wörld", "日本語", "\u{1F600} x"] {
        let c = chars_of(s);
        assert_eq!(c, s.chars().collect::<Vec<_>>());
        assert_eq!(encode_utf8_chars(&c), s.as_bytes().to_vec());
    }
}

#[test]
fn whitespace_matches_std() {
    for u in (0u32..0x3100).chain([0xFEFF, 0x10FFFF]) {
        if let Some(c) = char::from_u32(u) {
            assert_eq!(is_whitespace_char(c), c.is_whitespace(), "{:x}", u);
        }
    }
}

#[test]
fn split_matches_std() {
    for s in ["", "   ", "a", " a b  c ", "IQ== 0", "x\u{3000}y\u{85}z", "\tq\r\n"] {
        let mine: Vec<String> =
            split_whitespace(&chars_of(s)).into_iter().map(|w| w.into_iter().collect()).collect();
        let std: Vec<String> = s.split_whitespace().map(|w| w.to_string()).collect();
        assert_eq!(mine, std, "{:?}", s);
    }
}

#[test]
fn u32_parsing_matches_std() {
    for s in [
        "", "+", "-", "0", "+0", "-0", "007", "42", "+42", "4294967295", "4294967296",
        "99999999999999999999", "12a", "١٢", " 1", "1 ", "++1",
    ] {
        assert_eq!(parse_u32(&chars_of(s)), s.parse::<u32>().ok(), "{:?}", s);
    }
}

#[test]
fn vocab_lines() {
    let (bytes, rank) = parse_vocab_line("aGVsbG8= 42").unwrap().unwrap();
    assert_eq!(bytes, b"hello".to_vec());
    assert_eq!(rank, 42);
    assert!(parse_vocab_line("").unwrap().is_none());
    assert!(matches!(parse_vocab_line("aGk="), Err(TokenizerError::InvalidLineFormat)));
    assert!(matches!(parse_vocab_line("aGk= 1 2"), Err(TokenizerError::InvalidLineFormat)));
    assert!(matches!(parse_vocab_line("   "), Err(TokenizerError::InvalidLineFormat)));
    assert!(matches!(parse_vocab_line("a*b= 1"), Err(TokenizerError::InvalidBase64(_))));
    assert!(matches!(parse_vocab_line("aGk= -1"), Err(TokenizerError::InvalidRank)));
    assert!(matches!(parse_vocab_line("!!! x"), Err(TokenizerError::InvalidBase64(_))));
    let (bytes, rank) = parse_vocab_line("aGk=\u{3000}+7").unwrap().unwrap();
    assert_eq!(bytes, b"hi".to_vec());
    assert_eq!(rank, 7);
}

#[test]
fn vocab_entry_from_decoded_field() {
    let (bytes, rank) = vocab_entry(Ok(vec![1, 2]), &chars_of("9")).unwrap();
    assert_eq!((bytes, rank), (vec![1, 2], 9));
    assert!(matches!(vocab_entry(Ok(vec![1]), &chars_of("x")), Err(TokenizerError::InvalidRank)));
    assert!(matches!(
        vocab_entry(Err(base64::DecodeError::InvalidPadding), &chars_of("x")),
        Err(TokenizerError::InvalidBase64(base64::DecodeError::InvalidPadding))
    ));
}

#[test]
fn vocabulary_later_rank_wins() {
    let t = build_vocabulary(&lines(&["YQ== 0", "", "Yg== 1", "YQ== 5"])).unwrap();
    assert_eq!(t.len(), 2);
    assert_eq!(t.get(b"a"), Some(5));
    assert_eq!(t.get(b"b"), Some(1));
    assert_eq!(t.get(b"c"), None);
    assert!(t.ranks_distinct());
    let t = build_vocabulary(&lines(&["YQ== 0", "Yg== 0"])).unwrap();
    assert!(!t.ranks_distinct());
    assert!(matches!(build_vocabulary(&lines(&["YQ== 0", "bad", "YQ== x"])), Err(TokenizerError::InvalidLineFormat)));
}

#[test]
fn languages_table() {
    let l = languages();
    assert_eq!(l.len(), 100);
    assert_eq!(l[0], ("en", "english"));
    assert_eq!(l[99], ("yue", "cantonese"));
}

#[test]
fn decimal_strings() {
    for n in [0usize, 7, 10, 30, 16000, 123456789] {
        assert_eq!(decimal_string(n), n.to_string());
    }
}

#[test]
fn timestamp_names_match_float_formatting() {
    let names = special_token_name_list(1);
    assert_eq!(names.len(), 2 + 1 + 6 + 1501);
    for i in 0..=1500usize {
        assert_eq!(names[9 + i], format!("<|{:.2}|>", i as f64 * 0.02));
    }
}

#[test]
fn special_tokens_follow_vocabulary() {
    let list = special_token_list(100, 2);
    assert_eq!(list[0], ("<|endoftext|>".to_string(), 101));
    assert_eq!(list[1], ("<|startoftranscript|>".to_string(), 102));
    assert_eq!(list[2], ("<|english|>".to_string(), 103));
    assert_eq!(list[3], ("<|chinese|>".to_string(), 104));
    assert_eq!(list[4], ("<|translate|>".to_string(), 105));
    assert_eq!(list[9], ("<|notimestamps|>".to_string(), 110));
    assert_eq!(list[10], ("<|0.00|>".to_string(), 111));
    assert_eq!(list.last().unwrap(), &("<|30.00|>".to_string(), 1611));
    assert_eq!(special_token_list(0, 1000).len(), 2 + 100 + 6 + 1501);
    assert_eq!(special_token_list(u32::MAX as usize, 0)[0].1, 0);
}

#[test]
fn keep_last_rank_dedups() {
    let pairs = vec![("a".to_string(), 1), ("b".to_string(), 2), ("a".to_string(), 3)];
    assert_eq!(keep_last_rank(&pairs), vec![("a".to_string(), 3), ("b".to_string(), 2)]);
    let list = special_token_list(5, 100);
    assert_eq!(keep_last_rank(&list), list);
}

#[test]
fn pattern_text() {
    assert_eq!(
        token_pattern(),
        r"(?i:'s|'t|'re|'ve|'m|'ll|'d)|[^\r\n\p{L}\p{N}]?\p{L}+|\p{N}{1,3}|[^\s\p{L}\p{N}]+[\r\n]*|\s*[\r\n]+|\s+(?!\S)|\s+"
    );
}

#[test]
fn encoding_from_small_vocabulary() {
    // "h" = aA==, "i" = aQ==, "hi" = aGk=
    let bpe = get_encoding(&lines(&["aA== 0", "aQ== 1", "aGk= 2"]), None).unwrap();
    assert_eq!(bpe.encode_with_special_tokens("hi"), vec![2]);
    assert_eq!(bpe.encode_with_special_tokens("<|endoftext|>"), vec![4]);
    assert_eq!(bpe.encode_with_special_tokens("<|english|>"), vec![6]);
    assert_eq!(decode_text(&bpe, &[0, 1, 4, 2], 4).unwrap(), "hihi");
    assert!(matches!(decode_text(&bpe, &[3], 10), Err(TokenizerError::Decoding(_))));
}

#[test]
fn decoding_special_and_partial_tokens() {
    // "\xc3" = ww==, "\xa9" = qQ==; together they are "é".
    let bpe = get_encoding(&lines(&["ww== 0", "qQ== 1", "aGk= 2"]), None).unwrap();
    assert_eq!(decode_text(&bpe, &[4, 2, 6], 10).unwrap(), "<|endoftext|>hi<|english|>");
    assert_eq!(decode_text(&bpe, &[0, 1], 10).unwrap(), "\u{e9}");
    assert!(matches!(decode_text(&bpe, &[0], 10), Err(TokenizerError::Decoding(_))));
    assert_eq!(decode_text(&bpe, &[0, 1, 2], 2).unwrap(), "\u{e9}");
    assert_eq!(decode_text(&bpe, &[], 2).unwrap(), "");
}

#[test]
fn encoding_errors() {
    assert!(matches!(get_encoding(&lines(&["aA== 0", "aQ== 0"]), None), Err(TokenizerError::DuplicateRank)));
    assert!(matches!(get_encoding(&lines(&["aA== zero"]), Some(3)), Err(TokenizerError::InvalidRank)));
}
