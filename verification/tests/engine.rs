use argwalker::corewalker::CoreWalker;
use argwalker::oschars::bad_text;
use argwalker::{ArgError, ItemOs};

fn v(s: &str) -> Vec<u8> {
    s.as_bytes().to_vec()
}

fn bad(prefix: &str) -> Vec<u8> {
    bad_text(&v(prefix))
}

#[test]
fn test_items() {
    let mut walker = CoreWalker::new(vec![v("-vx"), v("-f"), v("foo")]);

    assert_eq!(walker.upcoming(), Ok(Some(ItemOs::Flag(v("-v")))));
    assert_eq!(walker.advance(), Ok(Some(ItemOs::Flag(v("-v")))));

    // consume the x as a parameter
    assert_eq!(walker.can_parameter(), true);
    let mut walker2 = walker.clone();
    assert_eq!(walker2.parameter(), Some(v("x")));
    assert_eq!(walker2.upcoming(), Ok(Some(ItemOs::Flag(v("-f")))));
    assert_eq!(walker2.advance(), Ok(Some(ItemOs::Flag(v("-f")))));

    // consume the x as flag -x
    assert_eq!(walker.upcoming(), Ok(Some(ItemOs::Flag(v("-x")))));
    assert_eq!(walker.advance(), Ok(Some(ItemOs::Flag(v("-x")))));

    // nothing behind the x
    assert_eq!(walker.can_parameter(), false);
    let mut walker2 = walker.clone();
    assert_eq!(walker2.parameter(), None);
    assert_eq!(walker2.upcoming(), Ok(Some(ItemOs::Flag(v("-f")))));
    assert_eq!(walker2.advance(), Ok(Some(ItemOs::Flag(v("-f")))));

    assert_eq!(walker.upcoming(), Ok(Some(ItemOs::Flag(v("-f")))));
    assert_eq!(walker.advance(), Ok(Some(ItemOs::Flag(v("-f")))));

    // before attempting to take the (nonexistent) parameter, foo is upcoming
    assert_eq!(walker.upcoming(), Ok(Some(ItemOs::Word(v("foo")))));
    assert_eq!(walker.can_parameter(), false);
    assert_eq!(walker.parameter(), None);

    // after the attempt, foo is still upcoming
    assert_eq!(walker.upcoming(), Ok(Some(ItemOs::Word(v("foo")))));

    // after foo we find eof
    assert_eq!(walker.advance(), Ok(Some(ItemOs::Word(v("foo")))));
    assert_eq!(walker.upcoming(), Ok(None));
    assert_eq!(walker.advance(), Ok(None));

    // and it remains eof
    assert_eq!(walker.upcoming(), Ok(None));
    assert_eq!(walker.advance(), Ok(None));
    assert_eq!(walker.upcoming(), Ok(None));
    assert_eq!(walker.advance(), Ok(None));
    assert_eq!(walker.upcoming(), Ok(None));
    assert_eq!(walker.advance(), Ok(None));
    assert_eq!(walker.upcoming(), Ok(None));
    assert_eq!(walker.advance(), Ok(None));
}

#[test]
fn test_cluster_splits_into_three_flags() {
    let mut walker = CoreWalker::new(vec![v("-abc")]);
    assert_eq!(walker.advance(), Ok(Some(ItemOs::Flag(v("-a")))));
    assert_eq!(walker.advance(), Ok(Some(ItemOs::Flag(v("-b")))));
    assert_eq!(walker.advance(), Ok(Some(ItemOs::Flag(v("-c")))));
    assert_eq!(walker.advance(), Ok(None));
}

#[test]
fn test_cluster_parameter_skips_remaining_letters() {
    let mut walker = CoreWalker::new(vec![v("-abc"), v("next")]);
    assert_eq!(walker.advance(), Ok(Some(ItemOs::Flag(v("-a")))));
    assert_eq!(walker.parameter(), Some(v("bc")));
    // the next advance moves to the next argument, not to -b or -c
    assert_eq!(walker.advance(), Ok(Some(ItemOs::Word(v("next")))));
    assert_eq!(walker.advance(), Ok(None));
}

#[test]
fn test_unconsumed_parameter_is_sticky_error() {
    let mut walker = CoreWalker::new(vec![v("--fruit=banana"), v("word")]);
    assert_eq!(walker.advance(), Ok(Some(ItemOs::Flag(v("--fruit")))));
    // the parameter is never taken, so the next advance errors ...
    let err = ArgError::UnexpectedParameter(v("--fruit"));
    assert_eq!(walker.advance(), Err(err.clone()));
    // ... and every read thereafter repeats the same error
    assert_eq!(walker.upcoming(), Err(err.clone()));
    assert_eq!(walker.advance(), Err(err.clone()));
    assert_eq!(walker.advance(), Err(err));
}

#[test]
fn test_inline_parameter_taken_in_time() {
    let mut walker = CoreWalker::new(vec![v("--fruit=banana"), v("word")]);
    assert_eq!(walker.advance(), Ok(Some(ItemOs::Flag(v("--fruit")))));
    assert_eq!(walker.can_parameter(), true);
    assert_eq!(walker.parameter(), Some(v("banana")));
    // with the parameter taken, lookahead agrees with the next advance
    assert_eq!(walker.upcoming(), Ok(Some(ItemOs::Word(v("word")))));
    assert_eq!(walker.advance(), Ok(Some(ItemOs::Word(v("word")))));
    assert_eq!(walker.advance(), Ok(None));
}

#[test]
fn test_single_letter_cluster() {
    let mut walker = CoreWalker::new(vec![v("-a"), v("w")]);
    assert_eq!(walker.advance(), Ok(Some(ItemOs::Flag(v("-a")))));
    // nothing of the cluster remains, so no parameter is attached
    assert_eq!(walker.can_parameter(), false);
    assert_eq!(walker.parameter(), None);
    assert_eq!(walker.advance(), Ok(Some(ItemOs::Word(v("w")))));
}

#[test]
fn test_cluster_with_inner_dash() {
    // a dash inside a cluster is peeled like any other letter
    let mut walker = CoreWalker::new(vec![v("-a-b")]);
    assert_eq!(walker.advance(), Ok(Some(ItemOs::Flag(v("-a")))));
    assert_eq!(walker.advance(), Ok(Some(ItemOs::Flag(v("--")))));
    assert_eq!(walker.advance(), Ok(Some(ItemOs::Flag(v("-b")))));
    assert_eq!(walker.advance(), Ok(None));
}

#[test]
fn test_short_tail_becomes_invalid_unicode() {
    // `-f` plus an undecodable byte: the flag comes out, then the tail
    // alone is dequeued as a remainder and errors with exactly the
    // undecodable suffix behind the dash
    let mut walker = CoreWalker::new(vec![bad("-f")]);
    assert_eq!(walker.advance(), Ok(Some(ItemOs::Flag(v("-f")))));
    let err = ArgError::InvalidUnicode(bad("-"));
    assert_eq!(walker.advance(), Err(err.clone()));
    assert_eq!(walker.advance(), Err(err));
}

#[test]
fn test_short_tail_parameter_includes_tail() {
    // taking the parameter of `-f` with an undecodable remainder hands the
    // remainder over verbatim
    let mut walker = CoreWalker::new(vec![bad("-fab")]);
    assert_eq!(walker.advance(), Ok(Some(ItemOs::Flag(v("-f")))));
    assert_eq!(walker.parameter(), Some(bad("ab")));
    assert_eq!(walker.advance(), Ok(None));
}

#[test]
fn test_invalid_long_flag_errors() {
    let mut walker = CoreWalker::new(vec![bad("--flag")]);
    let err = ArgError::InvalidUnicode(bad("--flag"));
    assert_eq!(walker.upcoming(), Err(err.clone()));
    assert_eq!(walker.advance(), Err(err.clone()));
    assert_eq!(walker.advance(), Err(err));
}

#[test]
fn test_peek_twice_is_stable() {
    let mut walker = CoreWalker::new(vec![v("-ab"), v("word")]);
    // peeking twice in a row returns identical results ...
    assert_eq!(walker.upcoming(), Ok(Some(ItemOs::Flag(v("-a")))));
    assert_eq!(walker.upcoming(), Ok(Some(ItemOs::Flag(v("-a")))));
    // ... and has no effect on what advance produces
    assert_eq!(walker.advance(), Ok(Some(ItemOs::Flag(v("-a")))));
    assert_eq!(walker.upcoming(), Ok(Some(ItemOs::Flag(v("-b")))));
    assert_eq!(walker.upcoming(), Ok(Some(ItemOs::Flag(v("-b")))));
    assert_eq!(walker.advance(), Ok(Some(ItemOs::Flag(v("-b")))));
    assert_eq!(walker.advance(), Ok(Some(ItemOs::Word(v("word")))));
}

#[test]
fn test_current_flag_tracks_state() {
    let mut walker = CoreWalker::new(vec![v("--fruit=banana")]);
    assert_eq!(walker.current_flag(), None);
    assert_eq!(walker.advance(), Ok(Some(ItemOs::Flag(v("--fruit")))));
    assert_eq!(walker.current_flag(), Some(v("--fruit")));
}

#[test]
fn test_multibyte_cluster_letters() {
    // a cluster may hold non-ASCII letters; they are peeled off whole
    let mut walker = CoreWalker::new(vec!["-\u{e9}f".as_bytes().to_vec()]);
    assert_eq!(
        walker.advance(),
        Ok(Some(ItemOs::Flag("-\u{e9}".as_bytes().to_vec())))
    );
    assert_eq!(walker.advance(), Ok(Some(ItemOs::Flag(v("-f")))));
    assert_eq!(walker.advance(), Ok(None));
}

#[test]
fn test_dash_words_pass_through() {
    let mut walker = CoreWalker::new(vec![v("-"), v("--"), v("x")]);
    assert_eq!(walker.advance(), Ok(Some(ItemOs::Word(v("-")))));
    assert_eq!(walker.advance(), Ok(Some(ItemOs::Word(v("--")))));
    assert_eq!(walker.advance(), Ok(Some(ItemOs::Word(v("x")))));
    assert_eq!(walker.advance(), Ok(None));
}
