use bizclaw_brain::tokenizer::BpeTokenizer;

fn byte_vocab(extra: &[&str]) -> (Vec<Vec<u8>>, Vec<u32>) {
    let mut vocab: Vec<Vec<u8>> = vec![b"<unk>".to_vec(), b"<s>".to_vec(), b"</s>".to_vec()];
    for b in 0u16..256 {
        if b < 0x80 {
            vocab.push(vec![b as u8]);
        } else {
            vocab.push(format!("<0x{:02X}>", b).into_bytes());
        }
    }
    for e in extra {
        vocab.push(e.as_bytes().to_vec());
    }
    let mut scores = vec![0f32.to_bits(); vocab.len()];
    for (i, _) in extra.iter().enumerate() {
        let id = vocab.len() - extra.len() + i;
        scores[id] = (i as f32 + 1.0).to_bits();
    }
    (vocab, scores)
}

fn tok(extra: &[&str]) -> BpeTokenizer {
    let (v, s) = byte_vocab(extra);
    BpeTokenizer::new(v, s, 1, 2, 0).unwrap()
}

#[test]
fn round_trip_with_byte_vocabulary() {
    let t = tok(&["he", "ll", "hell", "hello"]);
    for s in ["hello world", "", "xin chào Việt Nam", "日本語 🎉", "a\u{0}b"] {
        let ids = t.encode(s);
        assert_eq!(t.decode(&ids), s);
    }
}

#[test]
fn merges_follow_scores() {
    let t = tok(&["he", "ll", "hell", "hello"]);
    let ids = t.encode("hello");
    assert_eq!(ids.len(), 1);
    assert_eq!(t.decode_token(ids[0]), b"hello");
    let ids = t.encode("hell");
    assert_eq!(t.decode_token(ids[0]), b"hell");
}

#[test]
fn highest_score_merges_first() {
    // "ab" scores 1, "bc" scores 2: "abc" merges b+c first.
    let t = tok(&["ab", "bc"]);
    let ids = t.encode("abc");
    assert_eq!(ids.len(), 2);
    assert_eq!(t.decode_token(ids[0]), b"a");
    assert_eq!(t.decode_token(ids[1]), b"bc");
}

#[test]
fn bytes_without_token_use_escape_or_pad() {
    let t = tok(&[]);
    let ids = t.encode("é");
    assert_eq!(ids.len(), 2);
    assert_eq!(t.decode_token(ids[0]), b"<0xC3>");
    assert_eq!(t.decode_bytes(&ids), "é".as_bytes().to_vec());

    let small = BpeTokenizer::new(vec![b"a".to_vec()], vec![0], 1, 2, 7).unwrap();
    assert_eq!(small.encode("ab"), vec![0, 7]);
    assert_eq!(small.decode_token(7), b"<unk>");
}

#[test]
fn decode_escapes_and_invalid_utf8() {
    let t = tok(&[]);
    let a = t.encode("A");
    assert_eq!(t.decode(&a), "A");
    let lone = t.encode("é");
    assert_eq!(t.decode(&lone[..1]), "\u{FFFD}");
}

#[test]
fn special_ids() {
    let t = tok(&[]);
    assert!(t.is_special(1));
    assert!(t.is_special(2));
    assert!(t.is_special(0));
    assert!(!t.is_special(3));
    let f = BpeTokenizer::fallback();
    assert_eq!(f.vocab_size(), 4);
    assert!(f.is_special(0) && f.is_special(1) && f.is_special(2));
    assert!(!f.is_special(3));
    assert_eq!(f.encode(" "), vec![3]);
    assert_eq!(f.decode(&[3, 3]), "  ");
}

#[test]
fn empty_vocabulary_is_refused() {
    assert!(BpeTokenizer::new(Vec::new(), Vec::new(), 1, 2, 0).is_none());
}

#[test]
fn negative_infinity_scores_never_merge() {
    let (mut v, mut s) = byte_vocab(&[]);
    v.push(b"ab".to_vec());
    s.push(f32::NEG_INFINITY.to_bits());
    let t = BpeTokenizer::new(v, s, 1, 2, 0).unwrap();
    assert_eq!(t.encode("ab").len(), 2);
}

#[test]
fn bytes_without_tokens_are_reported() {
    let small = BpeTokenizer::new(vec![b"a".to_vec(), b"<0x62>".to_vec()], vec![0, 0], 1, 2, 7).unwrap();
    assert!(small.byte_has_token(b'a'));
    assert!(small.byte_has_token(b'b'));
    assert!(!small.byte_has_token(b'c'));
    assert_eq!(small.encode("abc"), vec![0, 1, 7]);
}
