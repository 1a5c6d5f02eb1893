use argwalker::oschars_windows::{find_first_invalid, split_valid, Kind};

fn generate(pattern: &[&[u16]], buffer: &mut Vec<u16>, output: &mut Vec<Vec<u16>>) {
    if pattern.is_empty() {
        output.push(buffer.clone());
        return;
    }
    let first = pattern[0];
    let rest = &pattern[1..];
    for &u in first {
        buffer.push(u);
        generate(rest, buffer, output);
        buffer.pop().unwrap();
    }
}

fn verify(pattern: &[&[u16]], expected: Option<usize>) {
    let mut buffer: Vec<u16> = vec![];
    let mut testcases: Vec<Vec<u16>> = vec![];
    generate(pattern, &mut buffer, &mut testcases);
    for testcase in testcases {
        let mut text = String::new();
        for u in &testcase {
            text.push_str(&format!("{:04x} ", u));
        }
        let solution = find_first_invalid(&testcase);

        assert_eq!(
            solution, expected,
            "find_first_invalid failed for input {:?}",
            text
        );
    }
}

#[test]
fn test_find_first_invalid() {
    // example code units
    let ok = &[0x0000, 0x0040, 0xD7FF, 0xE000, 0xFFFF];
    let hi = &[0xD800, 0xD840, 0xDBFF];
    let lo = &[0xDC00, 0xDC40, 0xDFFF];

    verify(&[], None);

    verify(&[ok], None);
    verify(&[hi], Some(0));
    verify(&[lo], Some(0));

    // all pairs
    verify(&[ok, ok], None);
    verify(&[ok, hi], Some(1));
    verify(&[ok, lo], Some(1));
    verify(&[hi, ok], Some(0));
    verify(&[hi, hi], Some(0));
    verify(&[hi, lo], None);
    verify(&[lo, ok], Some(0));
    verify(&[lo, hi], Some(0));
    verify(&[lo, lo], Some(0));

    // all pairs, with something valid after
    verify(&[ok, ok, ok], None);
    verify(&[ok, hi, ok], Some(1));
    verify(&[ok, lo, ok], Some(1));
    verify(&[hi, ok, ok], Some(0));
    verify(&[hi, hi, ok], Some(0));
    verify(&[hi, lo, ok], None);
    verify(&[lo, ok, ok], Some(0));
    verify(&[lo, hi, ok], Some(0));
    verify(&[lo, lo, ok], Some(0));
    //
    verify(&[ok, ok, hi, lo], None);
    verify(&[ok, hi, hi, lo], Some(1));
    verify(&[ok, lo, hi, lo], Some(1));
    verify(&[hi, ok, hi, lo], Some(0));
    verify(&[hi, hi, hi, lo], Some(0));
    verify(&[hi, lo, hi, lo], None);
    verify(&[lo, ok, hi, lo], Some(0));
    verify(&[lo, hi, hi, lo], Some(0));
    verify(&[lo, lo, hi, lo], Some(0));

    // all pairs, with something valid before
    verify(&[ok, ok, ok], None);
    verify(&[ok, ok, hi], Some(2));
    verify(&[ok, ok, lo], Some(2));
    verify(&[ok, hi, ok], Some(1));
    verify(&[ok, hi, hi], Some(1));
    verify(&[ok, hi, lo], None);
    verify(&[ok, lo, ok], Some(1));
    verify(&[ok, lo, hi], Some(1));
    verify(&[ok, lo, lo], Some(1));
    //
    verify(&[hi, lo, ok, ok], None);
    verify(&[hi, lo, ok, hi], Some(3));
    verify(&[hi, lo, ok, lo], Some(3));
    verify(&[hi, lo, hi, ok], Some(2));
    verify(&[hi, lo, hi, hi], Some(2));
    verify(&[hi, lo, hi, lo], None);
    verify(&[hi, lo, lo, ok], Some(2));
    verify(&[hi, lo, lo, hi], Some(2));
    verify(&[hi, lo, lo, lo], Some(2));
}

#[test]
fn test_kind_of_ranges() {
    assert_eq!(Kind::of(0x0000), Kind::Rest);
    assert_eq!(Kind::of(0xD7FF), Kind::Rest);
    assert_eq!(Kind::of(0xD800), Kind::HighSurrogate);
    assert_eq!(Kind::of(0xDBFF), Kind::HighSurrogate);
    assert_eq!(Kind::of(0xDC00), Kind::LowSurrogate);
    assert_eq!(Kind::of(0xDFFF), Kind::LowSurrogate);
    assert_eq!(Kind::of(0xE000), Kind::Rest);
    assert_eq!(Kind::of(0xFFFF), Kind::Rest);
}

#[test]
fn test_split_valid_wide() {
    // fully valid: a paired surrogate stays in the head
    let valid: Vec<u16> = vec![0x0041, 0xD800, 0xDC00, 0x0042];
    let (head, tail) = split_valid(&valid);
    assert_eq!(head, valid);
    assert_eq!(tail, Vec::<u16>::new());

    // a lone high surrogate cuts the sequence at its position
    let cut: Vec<u16> = vec![0x0041, 0xD800, 0x0042];
    let (head, tail) = split_valid(&cut);
    assert_eq!(head, vec![0x0041]);
    assert_eq!(tail, vec![0xD800, 0x0042]);

    // a leading lone low surrogate leaves an empty head
    let lead: Vec<u16> = vec![0xDC00, 0x0041];
    let (head, tail) = split_valid(&lead);
    assert_eq!(head, Vec::<u16>::new());
    assert_eq!(tail, lead);
}
