use argwalker::item::{unicode_item, unicode_item_option};
use argwalker::oschars::{bad_text, is_valid_text, split_valid, valid_up_to};
use argwalker::{ArgError, Item, ItemOs};

fn v(s: &str) -> Vec<u8> {
    s.as_bytes().to_vec()
}

#[test]
fn test_split_valid_whole() {
    for s in ["", "abc", "caf\u{e9}", "\u{1F496}"] {
        let (head, tail) = split_valid(&v(s));
        assert_eq!(head, v(s));
        assert_eq!(tail, Vec::<u8>::new());
    }
}

#[test]
fn test_split_valid_cut() {
    let raw = bad_text(&v("ab"));
    let (head, tail) = split_valid(&raw);
    assert_eq!(head, v("ab"));
    assert_eq!(tail, vec![0xFF]);
}

#[test]
fn test_split_valid_invalid_start() {
    // an argument that starts undecodable degrades to an empty prefix,
    // never an error
    let raw = vec![0xFFu8, b'a', b'b'];
    let (head, tail) = split_valid(&raw);
    assert_eq!(head, Vec::<u8>::new());
    assert_eq!(tail, raw);
}

#[test]
fn test_split_valid_truncated_character() {
    // a lone lead byte of a two-byte character is not valid text
    let raw = vec![b'a', 0xC3];
    let (head, tail) = split_valid(&raw);
    assert_eq!(head, v("a"));
    assert_eq!(tail, vec![0xC3]);
}

#[test]
fn test_split_valid_rejects_surrogates_and_overlong() {
    // CESU-8 style surrogate encoding is not valid UTF-8
    let surrogate = vec![b'x', 0xED, 0xA0, 0x80];
    let (head, tail) = split_valid(&surrogate);
    assert_eq!(head, v("x"));
    assert_eq!(tail, vec![0xED, 0xA0, 0x80]);
    // overlong encoding of the dash
    let overlong = vec![0xC0u8, 0xAD];
    let (head, tail) = split_valid(&overlong);
    assert_eq!(head, Vec::<u8>::new());
    assert_eq!(tail, overlong);
}

#[test]
fn test_valid_up_to_matches_std() {
    let cases: [&[u8]; 7] = [
        b"",
        b"plain",
        b"caf\xC3\xA9",
        b"ab\xFFcd",
        b"\xF0\x9F\x92\x96tail",
        b"a\xC3",
        b"\xED\xA0\x80",
    ];
    for c in cases {
        let expect = match std::str::from_utf8(c) {
            Ok(s) => s.len(),
            Err(e) => e.valid_up_to(),
        };
        assert_eq!(valid_up_to(&c.to_vec()), expect);
    }
}

fn std_valid_up_to(bytes: &[u8]) -> usize {
    match std::str::from_utf8(bytes) {
        Ok(s) => s.len(),
        Err(e) => e.valid_up_to(),
    }
}

#[test]
fn test_valid_up_to_all_two_byte_inputs() {
    for a in 0..=255u8 {
        for b in 0..=255u8 {
            let input = vec![a, b];
            assert_eq!(
                valid_up_to(&input),
                std_valid_up_to(&input),
                "mismatch on {:02x} {:02x}",
                a,
                b
            );
        }
    }
}

#[test]
fn test_valid_up_to_three_byte_inputs() {
    // every three-byte sequence behind the lead bytes with special
    // continuation ranges, plus a plain ASCII lead
    for lead in [0x61u8, 0xC2, 0xDF, 0xE0, 0xE1, 0xED, 0xEF, 0xF0, 0xF4, 0x80, 0xFF] {
        for b in 0..=255u8 {
            for c in 0..=255u8 {
                let input = vec![lead, b, c];
                assert_eq!(
                    valid_up_to(&input),
                    std_valid_up_to(&input),
                    "mismatch on {:02x} {:02x} {:02x}",
                    lead,
                    b,
                    c
                );
            }
        }
    }
}

#[test]
fn test_valid_up_to_four_byte_inputs() {
    // four-byte characters: both lead bytes with narrowed second-byte
    // ranges, sampled second bytes, full sweep of the third, edge values
    // of the fourth
    for lead in [0xF0u8, 0xF1, 0xF4] {
        for b in [0x7Fu8, 0x80, 0x8F, 0x90, 0xBF, 0xC0] {
            for c in 0..=255u8 {
                for d in [0x00u8, 0x7F, 0x80, 0xBF, 0xC0, 0xFF] {
                    let input = vec![lead, b, c, d];
                    assert_eq!(
                        valid_up_to(&input),
                        std_valid_up_to(&input),
                        "mismatch on {:02x} {:02x} {:02x} {:02x}",
                        lead,
                        b,
                        c,
                        d
                    );
                }
            }
        }
    }
}

#[test]
fn test_bad_text_appends_invalid_byte() {
    let raw = bad_text(&v("ab"));
    assert_eq!(raw, vec![b'a', b'b', 0xFF]);
    assert_eq!(is_valid_text(&raw), false);
    assert_eq!(is_valid_text(&v("ab")), true);
}

#[test]
fn test_unicode_item_conversions() {
    assert_eq!(
        unicode_item(ItemOs::Flag(v("-f"))),
        Ok(Item::Flag(v("-f")))
    );
    assert_eq!(
        unicode_item(ItemOs::Word(v("word"))),
        Ok(Item::Word(v("word")))
    );
    let raw = bad_text(&v("word"));
    assert_eq!(
        unicode_item(ItemOs::Word(raw.clone())),
        Err(ArgError::InvalidUnicode(raw))
    );
}

#[test]
fn test_unicode_item_option_none() {
    assert_eq!(unicode_item_option(None), Ok(None));
    assert_eq!(
        unicode_item_option(Some(ItemOs::Word(v("w")))),
        Ok(Some(Item::Word(v("w"))))
    );
}
