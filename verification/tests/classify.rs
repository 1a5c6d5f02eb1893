use argwalker::corewalker::{chop_off, Parsed};
use argwalker::oschars::bad_text;

fn v(s: &str) -> Vec<u8> {
    s.as_bytes().to_vec()
}

fn bad(prefix: &str) -> Vec<u8> {
    bad_text(&v(prefix))
}

#[test]
fn test_parsed() {
    assert_eq!(Parsed::new(v("banana")), Parsed::Arg(v("banana")));
    assert_eq!(
        Parsed::new(v("--follow")),
        Parsed::Long {
            flag: v("--follow"),
            parameter: None
        }
    );
    assert_eq!(
        Parsed::new(v("--fruit=banana")),
        Parsed::Long {
            flag: v("--fruit"),
            parameter: Some(v("banana"))
        }
    );
    assert_eq!(Parsed::new(v("-fv")), Parsed::Short { flags: v("-fv") });

    assert_eq!(Parsed::new(v("")), Parsed::Arg(v("")));
    assert_eq!(Parsed::new(v("-")), Parsed::Arg(v("-")));
    assert_eq!(Parsed::new(v("--")), Parsed::Arg(v("--")));
    assert_eq!(
        Parsed::new(v("---")),
        Parsed::Long {
            flag: v("---"),
            parameter: None
        }
    );

    assert_eq!(Parsed::new(bad("banana")), Parsed::Arg(bad("banana")));
    assert_eq!(Parsed::new(bad("")), Parsed::Arg(bad("")));
    assert_eq!(
        Parsed::new(bad("-f")),
        Parsed::ShortTail {
            flags: v("-f"),
            tail: bad("")
        }
    );
    assert_eq!(
        Parsed::new(bad("--fruit=bana")),
        Parsed::Long {
            flag: v("--fruit"),
            parameter: Some(bad("bana"))
        }
    );

    assert_eq!(
        Parsed::new(bad("-")),
        Parsed::ShortTail {
            flags: v("-"),
            tail: bad("")
        }
    );
    assert_eq!(Parsed::new(bad("--")), Parsed::Invalid(bad("--")));
    assert_eq!(Parsed::new(bad("--flag")), Parsed::Invalid(bad("--flag")));
}

#[test]
fn test_positional_never_dashed() {
    // arguments with no dash prefix classify as positional, bytes untouched
    for arg in ["", "x", "foo bar", "=x", "a-b"] {
        assert_eq!(Parsed::new(v(arg)), Parsed::Arg(v(arg)));
    }
    let raw = vec![0xF0u8, 0x9F, 0x92, 0x96]; // a four-byte character
    assert_eq!(Parsed::new(raw.clone()), Parsed::Arg(raw));
}

#[test]
fn test_long_flag_empty_parameter() {
    assert_eq!(
        Parsed::new(v("--fruit=")),
        Parsed::Long {
            flag: v("--fruit"),
            parameter: Some(v(""))
        }
    );
    // the first equals sign splits; later ones belong to the parameter
    assert_eq!(
        Parsed::new(v("--a=b=c")),
        Parsed::Long {
            flag: v("--a"),
            parameter: Some(v("b=c"))
        }
    );
}

/// Puts a classified argument back together from its parts.
fn reassemble(p: &Parsed) -> Vec<u8> {
    match p {
        Parsed::Invalid(s) => s.clone(),
        Parsed::Short { flags } => flags.clone(),
        Parsed::ShortTail { flags, tail } => {
            let mut r = flags.clone();
            r.extend_from_slice(tail);
            r
        }
        Parsed::Long { flag, parameter } => {
            let mut r = flag.clone();
            if let Some(p) = parameter {
                r.push(b'=');
                r.extend_from_slice(p);
            }
            r
        }
        Parsed::Arg(s) => s.clone(),
    }
}

#[test]
fn test_classify_round_trip() {
    let cases = [
        v(""),
        v("-"),
        v("--"),
        v("---"),
        v("banana"),
        v("-fv"),
        v("--follow"),
        v("--fruit=banana"),
        v("--a=b=c"),
        bad(""),
        bad("-"),
        bad("-f"),
        bad("--"),
        bad("--fruit=bana"),
        bad("banana"),
    ];
    for case in cases {
        assert_eq!(reassemble(&Parsed::new(case.clone())), case);
    }
}

#[test]
fn test_long_flag_equals_right_after_dashes() {
    // the flag name may be just the two dashes when the equals sign comes
    // straight after them
    assert_eq!(
        Parsed::new(v("--=x")),
        Parsed::Long {
            flag: v("--"),
            parameter: Some(v("x"))
        }
    );
}

#[test]
fn test_chop_off_ascii() {
    let mut flags = v("-abc");
    let flag = chop_off(&mut flags);
    assert_eq!(flag, v("-a"));
    assert_eq!(flags, v("-bc"));
}

#[test]
fn test_chop_off_multibyte() {
    // a two-byte letter is peeled off whole
    let mut flags = "-\u{e9}f".as_bytes().to_vec();
    let flag = chop_off(&mut flags);
    assert_eq!(flag, "-\u{e9}".as_bytes().to_vec());
    assert_eq!(flags, v("-f"));
}
