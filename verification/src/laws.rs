//! Laws of the tokenizer, stated and proved over the mathematical model of
//! the engine: classification of positional arguments, the dash literals,
//! cluster splitting, parameter taking, error stickiness, the undecodable
//! short-cluster tail, and the faithfulness of lookahead.

use crate::corewalker::{
    chop_len, chopped_flag, chopped_rest, head_param, spec_advance, spec_classify, spec_item,
    spec_preview, wf_state, wf_walker, ParsedSpec, StateSpec, WalkerSpec, DASH,
};
use crate::item::ItemSpec;
use crate::oschars::{is_utf8, utf8_step, valid_prefix_len, valid_prefix_len_from};
use crate::ArgErrorSpec;
use vstd::prelude::*;

verus! {

/// An ASCII letter.
pub open spec fn is_ascii_letter(b: u8) -> bool {
    (0x41 <= b && b <= 0x5A) || (0x61 <= b && b <= 0x7A)
}

/// Lookahead is faithful: the state the cached preview is computed from is
/// the very state the next `advance` moves to, so peeking shows exactly the
/// item the next `advance` will produce, errors included.
pub proof fn lemma_lookahead_exact(st: StateSpec, args: Seq<ParsedSpec>)
    ensures
        spec_preview(st, args) == spec_advance(st, args).0,
{
}

/// An argument that does not begin with a dash is always classified as
/// positional, unchanged.
pub proof fn lemma_no_dash_is_positional(s: Seq<u8>)
    requires
        s.len() == 0 || s[0] != DASH,
    ensures
        spec_classify(s) == ParsedSpec::Arg(s),
{
    crate::oschars::lemma_valid_prefix_len_from_bounds(s, 0);
    let k = valid_prefix_len(s);
    let head = s.take(k);
    if head.len() >= 1 {
        assert(head[0] == s[0]);
    }
    assert(head != seq![DASH] && head != seq![DASH, DASH]) by {
        if head == seq![DASH] || head == seq![DASH, DASH] {
            assert(head[0] == DASH);
        }
    }
}

/// In a state with nothing pending, advancing over a queued positional
/// argument produces it as a word, byte for byte, and consumes exactly that
/// queue entry.
pub proof fn lemma_word_yield(st: StateSpec, args: Seq<ParsedSpec>, w: Seq<u8>)
    requires
        args.len() >= 1,
        args[0] == ParsedSpec::Arg(w),
        st is Initial || st is NoFlag || st is Flag || (st matches StateSpec::ParmFlag {
            taken: true,
            ..
        }),
    ensures
        spec_advance(st, args).0 == (StateSpec::NoFlag { word: w }),
        spec_item(spec_advance(st, args).0) == Ok::<Option<ItemSpec>, ArgErrorSpec>(
            Some(ItemSpec::Word(w)),
        ),
        spec_advance(st, args).1 == args.drop_first(),
{
}

/// A queued positional argument is never produced as a flag, whatever the
/// engine's state: the advance that examines it yields it as a word, or
/// reports a pending or sticky error, or the already-exhausted end — and
/// under the engine invariant a positional argument never sits where a
/// cluster remainder is expected.
pub proof fn lemma_word_never_flag(w: WalkerSpec, s: Seq<u8>)
    requires
        wf_walker(w),
        w.args.len() >= 1,
        w.args[0] == ParsedSpec::Arg(s),
    ensures
        !(spec_item(spec_advance(w.state, w.args).0) matches Ok(Some(ItemSpec::Flag(_)))),
{
}

/// The literal arguments `-` and `--` alone are classified as positional,
/// never as flags.
pub proof fn lemma_dash_literals_positional()
    ensures
        spec_classify(seq![DASH]) == ParsedSpec::Arg(seq![DASH]),
        spec_classify(seq![DASH, DASH]) == ParsedSpec::Arg(seq![DASH, DASH]),
{
    let s1 = seq![DASH];
    assert(utf8_step(s1, 0) == 1);
    assert(valid_prefix_len_from(s1, 0) == valid_prefix_len_from(s1, 1));
    assert(valid_prefix_len(s1) == 1);
    assert(s1.take(1) =~= s1);
    assert(s1.skip(1).len() == 0);
    let s2 = seq![DASH, DASH];
    assert(utf8_step(s2, 0) == 1 && utf8_step(s2, 1) == 1);
    assert(valid_prefix_len_from(s2, 2) == 2);
    assert(valid_prefix_len_from(s2, 1) == 2);
    assert(valid_prefix_len_from(s2, 0) == 2);
    assert(s2.take(2) =~= s2);
    assert(s2.skip(2).len() == 0);
}

/// A cluster of three ASCII letters, entered whole, is classified as a
/// short cluster; advancing three times with no parameter taken yields the
/// three single-letter flags in order, and then the input is exhausted.
pub proof fn lemma_cluster_three_letters(a: u8, b: u8, c: u8)
    requires
        is_ascii_letter(a),
        is_ascii_letter(b),
        is_ascii_letter(c),
        a != b,
        b != c,
        a != c,
    ensures
        ({
            let args0 = seq![spec_classify(seq![DASH, a, b, c])];
            let (st1, args1) = spec_advance(StateSpec::Initial, args0);
            let (st2, args2) = spec_advance(st1, args1);
            let (st3, args3) = spec_advance(st2, args2);
            &&& spec_item(st1) == Ok::<Option<ItemSpec>, ArgErrorSpec>(
                Some(ItemSpec::Flag(seq![DASH, a])),
            )
            &&& spec_item(st2) == Ok::<Option<ItemSpec>, ArgErrorSpec>(
                Some(ItemSpec::Flag(seq![DASH, b])),
            )
            &&& spec_item(st3) == Ok::<Option<ItemSpec>, ArgErrorSpec>(
                Some(ItemSpec::Flag(seq![DASH, c])),
            )
            &&& args3.len() == 0
        }),
{
    let s = seq![DASH, a, b, c];
    assert(utf8_step(s, 3) == 1 && utf8_step(s, 2) == 1 && utf8_step(s, 1) == 1 && utf8_step(
        s,
        0,
    ) == 1);
    assert(valid_prefix_len_from(s, 4) == 4);
    assert(valid_prefix_len_from(s, 3) == 4);
    assert(valid_prefix_len_from(s, 2) == 4);
    assert(valid_prefix_len_from(s, 1) == 4);
    assert(valid_prefix_len_from(s, 0) == 4);
    assert(s.take(4) =~= s);
    assert(s.skip(4).len() == 0);
    assert(s != seq![DASH] && s != seq![DASH, DASH]);
    assert(spec_classify(s) == (ParsedSpec::Short { flags: s }));

    let f1 = seq![DASH, a];
    let r1 = seq![DASH, b, c];
    assert(chop_len(s) == 1);
    assert(chopped_flag(s) =~= f1);
    assert(chopped_rest(s) =~= r1);
    assert(r1 != seq![DASH]);

    let f2 = seq![DASH, b];
    let r2 = seq![DASH, c];
    assert(utf8_step(r1, 1) == 1);
    assert(chopped_flag(r1) =~= f2);
    assert(chopped_rest(r1) =~= r2);
    assert(r2 != seq![DASH]);

    let f3 = seq![DASH, c];
    assert(utf8_step(r2, 1) == 1);
    assert(chopped_flag(r2) =~= f3);
    assert(chopped_rest(r2) =~= seq![DASH]);

    let args0 = seq![spec_classify(s)];
    let (st1, args1) = spec_advance(StateSpec::Initial, args0);
    assert(st1 == (StateSpec::SplitFlag { flag: f1, taken: false }));
    assert(args1 =~= seq![ParsedSpec::Short { flags: r1 }]);
    let (st2, args2) = spec_advance(st1, args1);
    assert(st2 == (StateSpec::SplitFlag { flag: f2, taken: false }));
    assert(args2 =~= seq![ParsedSpec::Short { flags: r2 }]);
    let (st3, args3) = spec_advance(st2, args2);
    assert(st3 == (StateSpec::Flag { flag: f3 }));
    assert(args3.len() == 0);
}

/// Taking the parameter right after the first flag of a three-letter
/// cluster hands back exactly the remaining two letters, and the advance
/// that follows moves on to the next argument: it behaves as if the engine
/// stood on a plain flag with the rest of the original queue, so the
/// remaining cluster letters are never produced as flags.
pub proof fn lemma_take_parameter_skips_cluster(a: u8, b: u8, c: u8, rest: Seq<ParsedSpec>)
    requires
        is_ascii_letter(a),
        is_ascii_letter(b),
        is_ascii_letter(c),
    ensures
        ({
            let args0 = seq![spec_classify(seq![DASH, a, b, c])] + rest;
            let (st1, args1) = spec_advance(StateSpec::Initial, args0);
            &&& st1 == (StateSpec::SplitFlag { flag: seq![DASH, a], taken: false })
            &&& head_param(args1) == seq![b, c]
            &&& spec_advance(StateSpec::SplitFlag { flag: seq![DASH, a], taken: true }, args1)
                == spec_advance(StateSpec::Flag { flag: seq![DASH, a] }, rest)
        }),
{
    let s = seq![DASH, a, b, c];
    assert(utf8_step(s, 3) == 1 && utf8_step(s, 2) == 1 && utf8_step(s, 1) == 1 && utf8_step(
        s,
        0,
    ) == 1);
    assert(valid_prefix_len_from(s, 4) == 4);
    assert(valid_prefix_len_from(s, 3) == 4);
    assert(valid_prefix_len_from(s, 2) == 4);
    assert(valid_prefix_len_from(s, 1) == 4);
    assert(valid_prefix_len_from(s, 0) == 4);
    assert(s.take(4) =~= s);
    assert(s.skip(4).len() == 0);
    assert(s != seq![DASH] && s != seq![DASH, DASH]);
    assert(spec_classify(s) == (ParsedSpec::Short { flags: s }));

    let f1 = seq![DASH, a];
    let r1 = seq![DASH, b, c];
    assert(chop_len(s) == 1);
    assert(chopped_flag(s) =~= f1);
    assert(chopped_rest(s) =~= r1);
    assert(r1 != seq![DASH]);

    let args0 = seq![spec_classify(s)] + rest;
    assert(args0.drop_first() =~= rest);
    let (st1, args1) = spec_advance(StateSpec::Initial, args0);
    assert(args1 =~= seq![ParsedSpec::Short { flags: r1 }] + rest);
    assert(r1.skip(1) =~= seq![b, c]);
    assert(args1.drop_first() =~= rest);
}

/// An inline long-flag parameter must be taken before the next advance:
/// advancing past it produces `UnexpectedParameter` for that flag and
/// consumes nothing from the queue.
pub proof fn lemma_unconsumed_parameter_errors(
    flag: Seq<u8>,
    parameter: Seq<u8>,
    args: Seq<ParsedSpec>,
)
    ensures
        ({
            let st = StateSpec::ParmFlag { flag, parameter, taken: false };
            let (st1, args1) = spec_advance(st, args);
            &&& st1 == StateSpec::ErrorSeen(ArgErrorSpec::UnexpectedParameter(flag))
            &&& args1 == args
            &&& spec_item(st1) == Err::<Option<ItemSpec>, ArgErrorSpec>(
                ArgErrorSpec::UnexpectedParameter(flag),
            )
        }),
{
    let st = StateSpec::ParmFlag { flag, parameter, taken: false };
    let (st1, args1) = spec_advance(st, args);
    if args.len() >= 1 {
        assert(args1 =~= args);
    } else {
        assert(args1 =~= args);
    }
}

/// Errors are sticky: once the engine has produced an error, every further
/// advance returns the same error and leaves the queue untouched.
pub proof fn lemma_error_sticky(e: ArgErrorSpec, args: Seq<ParsedSpec>)
    ensures
        spec_advance(StateSpec::ErrorSeen(e), args).0 == StateSpec::ErrorSeen(e),
        spec_advance(StateSpec::ErrorSeen(e), args).1 == args,
        spec_item(StateSpec::ErrorSeen(e)) == Err::<Option<ItemSpec>, ArgErrorSpec>(e),
{
    if args.len() >= 1 {
        assert(spec_advance(StateSpec::ErrorSeen(e), args).1 =~= args);
    } else {
        assert(spec_advance(StateSpec::ErrorSeen(e), args).1 =~= args);
    }
}

/// Exhaustion is sticky: with the queue empty and the end reached, every
/// further advance reports the end again.
pub proof fn lemma_end_sticky(args: Seq<ParsedSpec>)
    ensures
        spec_advance(StateSpec::EndSeen, args).0 == StateSpec::EndSeen,
        spec_advance(StateSpec::EndSeen, args).1 == args,
        spec_item(StateSpec::EndSeen) == Ok::<Option<ItemSpec>, ArgErrorSpec>(None),
{
    if args.len() >= 1 {
        assert(spec_advance(StateSpec::EndSeen, args).1 =~= args);
    } else {
        assert(spec_advance(StateSpec::EndSeen, args).1 =~= args);
    }
}

/// A short flag letter followed by an undecodable remainder: the argument
/// is classified as a short cluster with a tail, the first advance yields
/// the flag, and the next advance (with the parameter not taken) fails
/// with `InvalidUnicode` carrying a dash plus exactly the undecodable
/// suffix.
pub proof fn lemma_short_tail_error(c: u8, tail: Seq<u8>)
    requires
        is_ascii_letter(c),
        tail.len() >= 1,
        valid_prefix_len(seq![DASH, c] + tail) == 2,
    ensures
        ({
            let s = seq![DASH, c] + tail;
            let args0 = seq![spec_classify(s)];
            let (st1, args1) = spec_advance(StateSpec::Initial, args0);
            let (st2, args2) = spec_advance(st1, args1);
            &&& spec_classify(s) == (ParsedSpec::ShortTail { flags: seq![DASH, c], tail })
            &&& spec_item(st1) == Ok::<Option<ItemSpec>, ArgErrorSpec>(
                Some(ItemSpec::Flag(seq![DASH, c])),
            )
            &&& st2 == StateSpec::ErrorSeen(ArgErrorSpec::InvalidUnicode(seq![DASH] + tail))
        }),
{
    let s = seq![DASH, c] + tail;
    let flags = seq![DASH, c];
    assert(s.take(2) =~= flags);
    assert(s.skip(2) =~= tail);
    assert(flags != seq![DASH] && flags != seq![DASH, DASH]);
    assert(spec_classify(s) == (ParsedSpec::ShortTail { flags, tail }));

    assert(utf8_step(flags, 1) == 1);
    assert(chopped_flag(flags) =~= seq![DASH, c]);
    assert(chopped_rest(flags) =~= seq![DASH]);

    let args0 = seq![spec_classify(s)];
    let (st1, args1) = spec_advance(StateSpec::Initial, args0);
    assert(st1 == (StateSpec::SplitFlag { flag: seq![DASH, c], taken: false }));
    assert(args1 =~= seq![ParsedSpec::ShortTail { flags: seq![DASH], tail }]);
    let (st2, args2) = spec_advance(st1, args1);
    assert(st2 == StateSpec::ErrorSeen(ArgErrorSpec::InvalidUnicode(seq![DASH] + tail)));
}

/// Every flag the engine hands out is valid text with a leading dash: a
/// state that stands for a flag item only ever holds well-formed flag
/// bytes.
pub proof fn lemma_flags_always_text(st: StateSpec, f: Seq<u8>)
    requires
        wf_state(st),
        spec_item(st) == Ok::<Option<ItemSpec>, ArgErrorSpec>(Some(ItemSpec::Flag(f))),
    ensures
        is_utf8(f),
        f.len() >= 2,
        f[0] == DASH,
{
}

} // verus!
