//! The tokenizer engine: argument classification and the incremental state
//! machine that hands out one item at a time with one item of lookahead.

use crate::bytes::{append_range, clone_units, copy_range};
use crate::item::{item_res_view, ItemOs, ItemSpec};
use crate::oschars::{
    is_utf8, lemma_utf8_ascii_prepend, lemma_utf8_char_subrange, lemma_utf8_suffix,
    lemma_utf8_take_at_ascii, lemma_valid_prefix_len_from_bounds, split_valid, utf8_step,
    utf8_step_at, valid_prefix_len, valid_prefix_len_from,
};
use crate::{ArgError, ArgErrorSpec};
use vstd::prelude::*;

verus! {

/// The dash byte, `-`.
pub const DASH: u8 = 0x2D;

/// The equals-sign byte, `=`.
pub const EQUALS: u8 = 0x3D;

/// Intermediate representation of a command line argument.
///
/// Flags must be valid text. Undecodable units are only allowed after the
/// `=` of a long parameter, and in non-flags.
#[derive(Debug, Clone, PartialEq, Eq)]
pub enum Parsed {
    /// An argument that had to be fully decodable but was not.
    Invalid(Vec<u8>),
    /// Fully decodable argument starting with a single dash, length > 1.
    Short { flags: Vec<u8> },
    /// Partially decodable argument starting with a dash. The tail holds
    /// everything from the first undecodable code unit on.
    ShortTail { flags: Vec<u8>, tail: Vec<u8> },
    /// Argument starting with a double dash, possibly with a parameter
    /// delimited by an equals sign.
    Long { flag: Vec<u8>, parameter: Option<Vec<u8>> },
    /// Anything that does not start with a dash, or the special cases `-`
    /// and `--` alone.
    Arg(Vec<u8>),
}

/// The mathematical value of a `Parsed`.
pub enum ParsedSpec {
    Invalid(Seq<u8>),
    Short { flags: Seq<u8> },
    ShortTail { flags: Seq<u8>, tail: Seq<u8> },
    Long { flag: Seq<u8>, parameter: Option<Seq<u8>> },
    Arg(Seq<u8>),
}

impl View for Parsed {
    type V = ParsedSpec;

    open spec fn view(&self) -> ParsedSpec {
        match self {
            Parsed::Invalid(s) => ParsedSpec::Invalid(s@),
            Parsed::Short { flags } => ParsedSpec::Short { flags: flags@ },
            Parsed::ShortTail { flags, tail } => ParsedSpec::ShortTail {
                flags: flags@,
                tail: tail@,
            },
            Parsed::Long { flag, parameter } => ParsedSpec::Long {
                flag: flag@,
                parameter: match parameter {
                    Some(p) => Some(p@),
                    None => None,
                },
            },
            Parsed::Arg(s) => ParsedSpec::Arg(s@),
        }
    }
}

/// Index of the first equals sign in `s` at or after `i`, or `s.len()` if
/// there is none.
pub open spec fn first_eq(s: Seq<u8>, i: int) -> int
    decreases s.len() - i when 0 <= i <= s.len()
{
    if i >= s.len() {
        i
    } else if s[i] == EQUALS {
        i
    } else {
        first_eq(s, i + 1)
    }
}

pub proof fn lemma_first_eq(s: Seq<u8>, i: int)
    requires
        0 <= i <= s.len(),
    ensures
        i <= first_eq(s, i) <= s.len(),
        first_eq(s, i) < s.len() ==> s[first_eq(s, i)] == EQUALS,
        forall|j: int| i <= j < first_eq(s, i) ==> s[j] != EQUALS,
    decreases s.len() - i,
{
    if i < s.len() && s[i] != EQUALS {
        lemma_first_eq(s, i + 1);
    }
}

/// How a long (double-dash) argument decomposes: `head` is the decodable
/// prefix, `tail` the opaque remainder. With an equals sign the flag is the
/// text before it and the parameter everything after it, opaque bytes
/// included; without one the whole argument must be decodable to be a flag.
pub open spec fn spec_parse_long(head: Seq<u8>, tail: Seq<u8>) -> ParsedSpec {
    let e = first_eq(head, 0);
    if e < head.len() {
        ParsedSpec::Long { flag: head.take(e), parameter: Some(head.skip(e + 1) + tail) }
    } else if head != seq![DASH, DASH] && tail.len() == 0 {
        ParsedSpec::Long { flag: head, parameter: None }
    } else {
        ParsedSpec::Invalid(head + tail)
    }
}

/// The classification grammar. Decision rules, in order: the literals `-`
/// and `--` alone are positional; a decodable prefix starting with a double
/// dash is parsed as a long flag; a single-dash prefix is a short cluster,
/// with or without an opaque tail; everything else is positional.
pub open spec fn spec_classify(s: Seq<u8>) -> ParsedSpec {
    let k = valid_prefix_len(s);
    let head = s.take(k);
    let tail = s.skip(k);
    if (head == seq![DASH] || head == seq![DASH, DASH]) && tail.len() == 0 {
        ParsedSpec::Arg(s)
    } else if 2 <= head.len() && head[0] == DASH && head[1] == DASH {
        spec_parse_long(head, tail)
    } else if 1 <= head.len() && head[0] == DASH {
        if tail.len() == 0 {
            ParsedSpec::Short { flags: head }
        } else {
            ParsedSpec::ShortTail { flags: head, tail }
        }
    } else {
        ParsedSpec::Arg(s)
    }
}

/// Classified arguments the engine's queue may hold.
pub open spec fn wf_parsed(p: ParsedSpec) -> bool {
    match p {
        ParsedSpec::Invalid(_) => true,
        ParsedSpec::Short { flags } => is_utf8(flags) && flags.len() >= 2 && flags[0] == DASH,
        ParsedSpec::ShortTail { flags, tail } => is_utf8(flags) && flags.len() >= 1 && flags[0]
            == DASH && tail.len() >= 1,
        ParsedSpec::Long { flag, parameter } => is_utf8(flag) && flag.len() >= 2 && flag[0] == DASH
            && flag[1] == DASH,
        ParsedSpec::Arg(_) => true,
    }
}

/// Reassembling a classified argument gives back the original bytes.
pub open spec fn spec_reassemble(p: ParsedSpec) -> Seq<u8> {
    match p {
        ParsedSpec::Invalid(s) => s,
        ParsedSpec::Short { flags } => flags,
        ParsedSpec::ShortTail { flags, tail } => flags + tail,
        ParsedSpec::Long { flag, parameter } => match parameter {
            Some(p) => flag + seq![EQUALS] + p,
            None => flag,
        },
        ParsedSpec::Arg(s) => s,
    }
}

/// Classification never loses a byte: splitting an argument into a
/// classified form and reassembling that form reconstructs the argument
/// exactly, whether or not it was valid text.
pub proof fn lemma_classify_round_trip(s: Seq<u8>)
    ensures
        spec_reassemble(spec_classify(s)) == s,
{
    let k = valid_prefix_len(s);
    lemma_valid_prefix_len_from_bounds(s, 0);
    let head = s.take(k);
    let tail = s.skip(k);
    assert(head + tail =~= s);
    if !((head == seq![DASH] || head == seq![DASH, DASH]) && tail.len() == 0) && 2 <= head.len()
        && head[0] == DASH && head[1] == DASH {
        let e = first_eq(head, 0);
        lemma_first_eq(head, 0);
        if e < head.len() {
            assert(head.take(e) + seq![EQUALS] + (head.skip(e + 1) + tail) =~= s);
        }
    }
}

fn find_equals(v: &Vec<u8>) -> (r: usize)
    ensures
        r == first_eq(v@, 0),
{
    let mut i: usize = 0;
    while i < v.len()
        invariant
            0 <= i <= v@.len(),
            first_eq(v@, 0) == first_eq(v@, i as int),
        decreases v@.len() - i,
    {
        if v[i] == EQUALS {
            return i;
        }
        i = i + 1;
    }
    i
}

impl Parsed {
    /// Classifies one raw argument.
    pub fn new(s: Vec<u8>) -> (p: Parsed)
        ensures
            p@ == spec_classify(s@),
            wf_parsed(p@),
    {
        proof {
            lemma_valid_prefix_len_from_bounds(s@, 0);
        }
        let (head, tail) = split_valid(&s);
        let head_is_dash = head.len() == 1 && head[0] == DASH;
        let head_is_dash_dash = head.len() == 2 && head[0] == DASH && head[1] == DASH;
        proof {
            assert(head_is_dash == (head@ == seq![DASH])) by {
                if head_is_dash {
                    assert(head@ =~= seq![DASH]);
                }
            }
            assert(head_is_dash_dash == (head@ == seq![DASH, DASH])) by {
                if head_is_dash_dash {
                    assert(head@ =~= seq![DASH, DASH]);
                }
            }
        }
        if (head_is_dash || head_is_dash_dash) && tail.len() == 0 {
            Parsed::Arg(s)
        } else if head.len() >= 2 && head[0] == DASH && head[1] == DASH {
            Parsed::parse_long(head, tail)
        } else if head.len() >= 1 && head[0] == DASH {
            if tail.len() == 0 {
                Parsed::new_short(head)
            } else {
                Parsed::new_short_tail(head, tail)
            }
        } else {
            Parsed::Arg(s)
        }
    }

    /// Wraps a fully decodable short cluster.
    pub fn new_short(flags: Vec<u8>) -> (p: Parsed)
        requires
            is_utf8(flags@),
            flags@.len() >= 2,
            flags@[0] == DASH,
        ensures
            p@ == (ParsedSpec::Short { flags: flags@ }),
            wf_parsed(p@),
    {
        Parsed::Short { flags }
    }

    /// Wraps a short cluster with an opaque tail.
    pub fn new_short_tail(flags: Vec<u8>, tail: Vec<u8>) -> (p: Parsed)
        requires
            is_utf8(flags@),
            flags@.len() >= 1,
            flags@[0] == DASH,
            tail@.len() >= 1,
        ensures
            p@ == (ParsedSpec::ShortTail { flags: flags@, tail: tail@ }),
            wf_parsed(p@),
    {
        Parsed::ShortTail { flags, tail }
    }

    /// Parses a double-dash argument: `head` is its decodable prefix,
    /// `tail` the opaque remainder.
    pub fn parse_long(head: Vec<u8>, tail: Vec<u8>) -> (p: Parsed)
        requires
            is_utf8(head@),
            head@.len() >= 2,
            head@[0] == DASH,
            head@[1] == DASH,
        ensures
            p@ == spec_parse_long(head@, tail@),
            wf_parsed(p@),
    {
        let e = find_equals(&head);
        proof {
            lemma_first_eq(head@, 0);
        }
        if e < head.len() {
            proof {
                lemma_utf8_take_at_ascii(head@, e as int);
            }
            let flag = copy_range(&head, 0, e);
            let mut param = copy_range(&head, e + 1, head.len());
            append_range(&mut param, &tail, 0, tail.len());
            proof {
                assert(flag@ =~= head@.take(e as int));
                assert(param@ =~= head@.skip(e + 1) + tail@);
                assert(head@[0] != EQUALS && head@[1] != EQUALS);
            }
            Parsed::Long { flag, parameter: Some(param) }
        } else if head.len() != 2 && tail.len() == 0 {
            proof {
                assert(head@ != seq![DASH, DASH]);
            }
            Parsed::Long { flag: head, parameter: None }
        } else {
            let ghost head0 = head@;
            let mut s = head;
            append_range(&mut s, &tail, 0, tail.len());
            proof {
                assert(s@ =~= head0 + tail@);
                if head0.len() == 2 {
                    assert(head0 =~= seq![DASH, DASH]);
                }
            }
            Parsed::Invalid(s)
        }
    }
}

/// The engine's single piece of mutable state: what the previously returned
/// item was, and what is still owed for it.
#[derive(Debug, Clone)]
enum State {
    /// Nothing special pending: either no item has been produced yet
    /// (`Initial` is used instead right after construction) or the previous
    /// item was the word held here.
    NoFlag { word: Vec<u8> },
    /// The previous item was a flag with nothing that could be taken as its
    /// parameter.
    Flag { flag: Vec<u8> },
    /// The previous item was a long flag with an inline parameter, such as
    /// `--fruit=banana`; `taken` records whether the caller retrieved it.
    ParmFlag { flag: Vec<u8>, parameter: Vec<u8>, taken: bool },
    /// The previous item was one letter peeled off a short cluster. The
    /// remainder of the cluster, leading dash included, is still the head
    /// of the queue; `taken` records whether the caller claimed it as a
    /// parameter.
    SplitFlag { flag: Vec<u8>, taken: bool },
    /// The previous read produced this error; it is returned again on every
    /// further read.
    ErrorSeen(ArgError),
    /// The arguments are exhausted.
    EndSeen,
    /// No item has been produced yet.
    Initial,
}

/// The mathematical value of a `State`.
pub enum StateSpec {
    NoFlag { word: Seq<u8> },
    Flag { flag: Seq<u8> },
    ParmFlag { flag: Seq<u8>, parameter: Seq<u8>, taken: bool },
    SplitFlag { flag: Seq<u8>, taken: bool },
    ErrorSeen(ArgErrorSpec),
    EndSeen,
    Initial,
}

impl View for State {
    type V = StateSpec;

    closed spec fn view(&self) -> StateSpec {
        match self {
            State::NoFlag { word } => StateSpec::NoFlag { word: word@ },
            State::Flag { flag } => StateSpec::Flag { flag: flag@ },
            State::ParmFlag { flag, parameter, taken } => StateSpec::ParmFlag {
                flag: flag@,
                parameter: parameter@,
                taken: *taken,
            },
            State::SplitFlag { flag, taken } => StateSpec::SplitFlag {
                flag: flag@,
                taken: *taken,
            },
            State::ErrorSeen(e) => StateSpec::ErrorSeen(e@),
            State::EndSeen => StateSpec::EndSeen,
            State::Initial => StateSpec::Initial,
        }
    }
}

/// The item a state stands for: the word or flag just produced, the cached
/// error, or nothing at the end. `Initial` is never read.
pub open spec fn spec_item(st: StateSpec) -> Result<Option<ItemSpec>, ArgErrorSpec> {
    match st {
        StateSpec::NoFlag { word } => Ok(Some(ItemSpec::Word(word))),
        StateSpec::Flag { flag } => Ok(Some(ItemSpec::Flag(flag))),
        StateSpec::ParmFlag { flag, .. } => Ok(Some(ItemSpec::Flag(flag))),
        StateSpec::SplitFlag { flag, .. } => Ok(Some(ItemSpec::Flag(flag))),
        StateSpec::ErrorSeen(e) => Err(e),
        StateSpec::EndSeen => Ok(None),
        StateSpec::Initial => Ok(None),
    }
}

/// Flags held by a state are valid text with a leading dash.
pub open spec fn wf_state(st: StateSpec) -> bool {
    match st {
        StateSpec::Flag { flag } => is_utf8(flag) && flag.len() >= 2 && flag[0] == DASH,
        StateSpec::ParmFlag { flag, .. } => is_utf8(flag) && flag.len() >= 2 && flag[0] == DASH,
        StateSpec::SplitFlag { flag, .. } => is_utf8(flag) && flag.len() >= 2 && flag[0] == DASH,
        _ => true,
    }
}

/// Byte length of the first flag letter of a cluster (the character right
/// after the leading dash).
pub open spec fn chop_len(flags: Seq<u8>) -> int {
    utf8_step(flags, 1)
}

/// The flag peeled off the front of a cluster: a dash plus the first letter.
pub open spec fn chopped_flag(flags: Seq<u8>) -> Seq<u8> {
    seq![DASH] + flags.subrange(1, 1 + chop_len(flags))
}

/// What remains of a cluster after peeling its first letter: a dash plus
/// the rest.
pub open spec fn chopped_rest(flags: Seq<u8>) -> Seq<u8> {
    seq![DASH] + flags.skip(1 + chop_len(flags))
}

/// A well-formed cluster starts with a dash followed by at least one whole
/// character, so peeling the first letter is always possible and both parts
/// keep the cluster shape.
pub proof fn lemma_cluster_step(flags: Seq<u8>)
    requires
        is_utf8(flags),
        flags.len() >= 2,
        flags[0] == DASH,
    ensures
        0 < chop_len(flags),
        1 + chop_len(flags) <= flags.len(),
        valid_prefix_len_from(flags, 1 + chop_len(flags)) == flags.len(),
        is_utf8(chopped_flag(flags)),
        chopped_flag(flags).len() >= 2,
        chopped_flag(flags)[0] == DASH,
        is_utf8(chopped_rest(flags)),
        chopped_rest(flags).len() == flags.len() - chop_len(flags),
        chopped_rest(flags)[0] == DASH,
        chopped_flag(flags) + chopped_rest(flags).skip(1) =~= flags,
{
    assert(utf8_step(flags, 0) == 1);
    assert(valid_prefix_len_from(flags, 0) == valid_prefix_len_from(flags, 1));
    let n = chop_len(flags);
    if n == 0 {
        assert(valid_prefix_len_from(flags, 1) == 1);
        assert(false);
    }
    assert(valid_prefix_len_from(flags, 1) == valid_prefix_len_from(flags, 1 + n));
    lemma_utf8_char_subrange(flags, 1);
    lemma_utf8_ascii_prepend(DASH, flags.subrange(1, 1 + n));
    lemma_utf8_suffix(flags, 1 + n);
    assert(flags.skip(1 + n) =~= flags.subrange(1 + n, flags.len() as int));
    lemma_utf8_ascii_prepend(DASH, flags.skip(1 + n));
}

/// Peels the first flag letter off a cluster: returns the dash plus that
/// letter, and leaves the dash plus the remaining letters in `flags`.
pub fn chop_off(flags: &mut Vec<u8>) -> (flag: Vec<u8>)
    requires
        is_utf8(old(flags)@),
        old(flags)@.len() >= 2,
        old(flags)@[0] == DASH,
    ensures
        flag@ == chopped_flag(old(flags)@),
        final(flags)@ == chopped_rest(old(flags)@),
{
    proof {
        lemma_cluster_step(flags@);
    }
    let n = utf8_step_at(flags, 1);
    let mut flag: Vec<u8> = Vec::new();
    flag.push(DASH);
    append_range(&mut flag, flags, 1, 1 + n);
    let mut rest: Vec<u8> = Vec::new();
    rest.push(DASH);
    append_range(&mut rest, flags, 1 + n, flags.len());
    proof {
        assert(flag@ =~= chopped_flag(old(flags)@));
        assert(rest@ =~= chopped_rest(old(flags)@));
    }
    *flags = rest;
    flag
}

/// The outcome of one transition: the state to move to, and an argument to
/// put back at the head of the queue, if any.
struct Decision {
    new_state: State,
    push_back: Option<Parsed>,
}

/// The mathematical value of a `Decision`.
pub struct DecisionSpec {
    pub new_state: StateSpec,
    pub push_back: Option<ParsedSpec>,
}

impl View for Decision {
    type V = DecisionSpec;

    closed spec fn view(&self) -> DecisionSpec {
        DecisionSpec {
            new_state: self.new_state@,
            push_back: match &self.push_back {
                Some(p) => Some(p@),
                None => None,
            },
        }
    }
}

/// The transition taken from a state with nothing pending, driven entirely
/// by the argument dequeued (or by exhaustion).
pub open spec fn spec_decide_arg(arg: Option<ParsedSpec>) -> DecisionSpec {
    match arg {
        None => DecisionSpec { new_state: StateSpec::EndSeen, push_back: None },
        Some(ParsedSpec::Invalid(s)) => DecisionSpec {
            new_state: StateSpec::ErrorSeen(ArgErrorSpec::InvalidUnicode(s)),
            push_back: None,
        },
        Some(ParsedSpec::Long { flag, parameter: None }) => DecisionSpec {
            new_state: StateSpec::Flag { flag },
            push_back: None,
        },
        Some(ParsedSpec::Long { flag, parameter: Some(p) }) => DecisionSpec {
            new_state: StateSpec::ParmFlag { flag, parameter: p, taken: false },
            push_back: None,
        },
        Some(ParsedSpec::Arg(word)) => DecisionSpec {
            new_state: StateSpec::NoFlag { word },
            push_back: None,
        },
        Some(ParsedSpec::Short { flags }) => {
            if chopped_rest(flags) == seq![DASH] {
                DecisionSpec {
                    new_state: StateSpec::Flag { flag: chopped_flag(flags) },
                    push_back: None,
                }
            } else {
                DecisionSpec {
                    new_state: StateSpec::SplitFlag { flag: chopped_flag(flags), taken: false },
                    push_back: Some(ParsedSpec::Short { flags: chopped_rest(flags) }),
                }
            }
        },
        Some(ParsedSpec::ShortTail { flags, tail }) => {
            if flags == seq![DASH] {
                DecisionSpec {
                    new_state: StateSpec::ErrorSeen(
                        ArgErrorSpec::InvalidUnicode(seq![DASH] + tail),
                    ),
                    push_back: None,
                }
            } else {
                DecisionSpec {
                    new_state: StateSpec::SplitFlag { flag: chopped_flag(flags), taken: false },
                    push_back: Some(
                        ParsedSpec::ShortTail { flags: chopped_rest(flags), tail },
                    ),
                }
            }
        },
    }
}

/// One transition of the state machine, as a pure function from the current
/// state and the dequeued argument. An unconsumed inline parameter turns
/// into an error before the argument is looked at; `ErrorSeen` and
/// `EndSeen` are sticky and hand the argument back untouched; every other
/// state defers to the argument. A `SplitFlag` whose remainder was taken is
/// resolved by `advance` before deciding and never reaches this function.
pub open spec fn spec_decide(st: StateSpec, arg: Option<ParsedSpec>) -> DecisionSpec {
    match st {
        StateSpec::ParmFlag { flag, parameter, taken } => {
            if !taken {
                DecisionSpec {
                    new_state: StateSpec::ErrorSeen(ArgErrorSpec::UnexpectedParameter(flag)),
                    push_back: arg,
                }
            } else {
                spec_decide_arg(arg)
            }
        },
        StateSpec::ErrorSeen(e) => DecisionSpec {
            new_state: StateSpec::ErrorSeen(e),
            push_back: arg,
        },
        StateSpec::EndSeen => DecisionSpec { new_state: StateSpec::EndSeen, push_back: arg },
        StateSpec::SplitFlag { flag, taken } => {
            if taken {
                DecisionSpec { new_state: StateSpec::SplitFlag { flag, taken }, push_back: arg }
            } else {
                spec_decide_arg(arg)
            }
        },
        _ => spec_decide_arg(arg),
    }
}

/// The mathematical value of an optional queue entry.
pub open spec fn view_opt_parsed(arg: Option<Parsed>) -> Option<ParsedSpec> {
    match arg {
        Some(p) => Some(p@),
        None => None,
    }
}

fn dup_error(e: &ArgError) -> (r: ArgError)
    ensures
        r@ == e@,
{
    match e {
        ArgError::InvalidUnicode(a) => ArgError::InvalidUnicode(clone_units(a)),
        ArgError::UnexpectedParameter(f) => ArgError::UnexpectedParameter(clone_units(f)),
        ArgError::ParameterMissing(f) => ArgError::ParameterMissing(clone_units(f)),
    }
}

fn dup_parsed(p: &Parsed) -> (r: Parsed)
    ensures
        r@ == p@,
{
    match p {
        Parsed::Invalid(s) => Parsed::Invalid(clone_units(s)),
        Parsed::Short { flags } => Parsed::Short { flags: clone_units(flags) },
        Parsed::ShortTail { flags, tail } => Parsed::ShortTail {
            flags: clone_units(flags),
            tail: clone_units(tail),
        },
        Parsed::Long { flag, parameter } => Parsed::Long {
            flag: clone_units(flag),
            parameter: match parameter {
                Some(p) => Some(clone_units(p)),
                None => None,
            },
        },
        Parsed::Arg(s) => Parsed::Arg(clone_units(s)),
    }
}

fn decide(state: &State, arg: Option<Parsed>) -> (d: Decision)
    requires
        !(state@ matches StateSpec::SplitFlag { taken: true, .. }),
        wf_state(state@),
        arg matches Some(p) ==> wf_parsed(p@),
    ensures
        d@ == spec_decide(state@, view_opt_parsed(arg)),
        wf_state(d@.new_state),
        d@.push_back matches Some(p) ==> wf_parsed(p),
        !(d@.new_state is Initial),
        !(d@.new_state matches StateSpec::SplitFlag { taken: true, .. }),
{
    match state {
        State::ParmFlag { flag, taken: false, .. } => {
            return Decision {
                new_state: State::ErrorSeen(ArgError::UnexpectedParameter(clone_units(flag))),
                push_back: arg,
            };
        },
        State::ErrorSeen(e) => {
            return Decision { new_state: State::ErrorSeen(dup_error(e)), push_back: arg };
        },
        State::EndSeen => {
            return Decision { new_state: State::EndSeen, push_back: arg };
        },
        _ => {},
    }

    let arg = match arg {
        Some(a) => a,
        None => {
            return Decision { new_state: State::EndSeen, push_back: None };
        },
    };

    match arg {
        Parsed::Invalid(s) => Decision {
            new_state: State::ErrorSeen(ArgError::InvalidUnicode(s)),
            push_back: None,
        },
        Parsed::Long { flag, parameter: None } => Decision {
            new_state: State::Flag { flag },
            push_back: None,
        },
        Parsed::Long { flag, parameter: Some(parameter) } => Decision {
            new_state: State::ParmFlag { flag, parameter, taken: false },
            push_back: None,
        },
        Parsed::Arg(word) => Decision { new_state: State::NoFlag { word }, push_back: None },
        Parsed::Short { mut flags } => {
            proof {
                lemma_cluster_step(flags@);
            }
            let flag = chop_off(&mut flags);
            if flags.len() == 1 {
                proof {
                    assert(flags@ =~= seq![DASH]);
                }
                Decision { new_state: State::Flag { flag }, push_back: None }
            } else {
                Decision {
                    new_state: State::SplitFlag { flag, taken: false },
                    push_back: Some(Parsed::new_short(flags)),
                }
            }
        },
        Parsed::ShortTail { mut flags, tail } => {
            if flags.len() == 1 {
                proof {
                    assert(flags@ =~= seq![DASH]);
                }
                let mut whole = flags;
                append_range(&mut whole, &tail, 0, tail.len());
                proof {
                    assert(whole@ =~= seq![DASH] + tail@);
                }
                Decision {
                    new_state: State::ErrorSeen(ArgError::InvalidUnicode(whole)),
                    push_back: None,
                }
            } else {
                proof {
                    assert(flags@ != seq![DASH]);
                    lemma_cluster_step(flags@);
                }
                let flag = chop_off(&mut flags);
                Decision {
                    new_state: State::SplitFlag { flag, taken: false },
                    push_back: Some(Parsed::new_short_tail(flags, tail)),
                }
            }
        },
    }
}

impl State {
    /// The item this state stands for, as a value handed to the caller.
    fn as_item(&self) -> (r: Result<Option<ItemOs>, ArgError>)
        requires
            !(self@ is Initial),
        ensures
            item_res_view(r) == spec_item(self@),
    {
        match self {
            State::NoFlag { word } => Ok(Some(ItemOs::Word(clone_units(word)))),
            State::Flag { flag } => Ok(Some(ItemOs::Flag(clone_units(flag)))),
            State::ParmFlag { flag, .. } => Ok(Some(ItemOs::Flag(clone_units(flag)))),
            State::SplitFlag { flag, .. } => Ok(Some(ItemOs::Flag(clone_units(flag)))),
            State::ErrorSeen(err) => Err(dup_error(err)),
            State::EndSeen => Ok(None),
            State::Initial => unreached(),
        }
    }
}

/// The head of the queue, if any.
pub open spec fn head_arg(args: Seq<ParsedSpec>) -> Option<ParsedSpec> {
    if args.len() >= 1 {
        Some(args[0])
    } else {
        None
    }
}

/// What the next call to `advance` will leave as the current state. For a
/// split whose remainder was taken as a parameter, `advance` first drops
/// that remainder from the queue and continues as a plain flag.
pub open spec fn spec_preview(st: StateSpec, args: Seq<ParsedSpec>) -> StateSpec {
    match st {
        StateSpec::SplitFlag { flag, taken: true } => spec_decide(
            StateSpec::Flag { flag },
            head_arg(args.drop_first()),
        ).new_state,
        _ => spec_decide(st, head_arg(args)).new_state,
    }
}

/// Resolving a split whose remainder was taken: the remainder is dropped
/// from the queue and the state continues as a plain flag.
pub open spec fn norm_state(st: StateSpec, args: Seq<ParsedSpec>) -> (StateSpec, Seq<ParsedSpec>) {
    match st {
        StateSpec::SplitFlag { flag, taken: true } => (
            StateSpec::Flag { flag },
            args.drop_first(),
        ),
        _ => (st, args),
    }
}

/// One full `advance`: resolve a taken split, dequeue the head, decide, and
/// put back what the decision asks to requeue.
pub open spec fn spec_advance(st: StateSpec, args: Seq<ParsedSpec>) -> (StateSpec, Seq<
    ParsedSpec,
>) {
    let (st1, args1) = norm_state(st, args);
    let d = spec_decide(st1, head_arg(args1));
    let rest = if args1.len() >= 1 {
        args1.drop_first()
    } else {
        args1
    };
    match d.push_back {
        Some(p) => (d.new_state, seq![p] + rest),
        None => (d.new_state, rest),
    }
}

/// The mathematical value of a `CoreWalker`.
pub struct WalkerSpec {
    pub state: StateSpec,
    pub args: Seq<ParsedSpec>,
    pub preview: StateSpec,
}

/// The engine's invariant: every queued argument keeps its classified
/// shape, flags held by the state are valid text, a pending split has the
/// cluster remainder at the head of the queue, and the cached preview is
/// exactly what the next `advance` will compute.
pub open spec fn wf_walker(w: WalkerSpec) -> bool {
    &&& forall|i: int| 0 <= i < w.args.len() ==> wf_parsed(#[trigger] w.args[i])
    &&& wf_state(w.state)
    &&& w.state matches StateSpec::SplitFlag { .. } ==> w.args.len() >= 1 && (w.args[0] is Short
        || w.args[0] is ShortTail)
    &&& w.preview == spec_preview(w.state, w.args)
}

/// What taking the split remainder at the head of the queue yields as a
/// parameter: all cluster letters after the dash, plus any opaque tail.
pub open spec fn head_param(args: Seq<ParsedSpec>) -> Seq<u8> {
    match args[0] {
        ParsedSpec::Short { flags } => flags.skip(1),
        ParsedSpec::ShortTail { flags, tail } => flags.skip(1) + tail,
        _ => Seq::empty(),
    }
}

fn dup_arg_at(args: &Vec<Parsed>, idx: usize) -> (r: Option<Parsed>)
    ensures
        view_opt_parsed(r) == (if idx < args@.len() {
            Some(args@[idx as int]@)
        } else {
            None::<ParsedSpec>
        }),
{
    if idx < args.len() {
        Some(dup_parsed(&args[idx]))
    } else {
        None
    }
}

fn split_param(args: &Vec<Parsed>) -> (p: Vec<u8>)
    requires
        args@.len() >= 1,
        wf_parsed(args@[0]@),
        args@[0]@ is Short || args@[0]@ is ShortTail,
    ensures
        p@ == head_param(args@.map_values(|q: Parsed| q@)),
{
    match &args[0] {
        Parsed::Short { flags } => {
            let p = copy_range(flags, 1, flags.len());
            proof {
                assert(p@ =~= flags@.skip(1));
            }
            p
        },
        Parsed::ShortTail { flags, tail } => {
            let mut p = copy_range(flags, 1, flags.len());
            append_range(&mut p, tail, 0, tail.len());
            proof {
                assert(p@ =~= flags@.skip(1) + tail@);
            }
            p
        },
        _ => unreached(),
    }
}

/// The tokenizer engine. It owns the queue of classified arguments and one
/// piece of current-item state, and exposes the current item, a one-item
/// lookahead, and extraction of a pending flag parameter.
#[derive(Debug, Clone)]
pub struct CoreWalker {
    state: State,
    args: Vec<Parsed>,
    preview_state: State,
}

impl View for CoreWalker {
    type V = WalkerSpec;

    closed spec fn view(&self) -> WalkerSpec {
        WalkerSpec {
            state: self.state@,
            args: self.args@.map_values(|p: Parsed| p@),
            preview: self.preview_state@,
        }
    }
}

impl CoreWalker {
    /// Recomputes the cached lookahead from the current state and queue.
    fn refresh_preview(&mut self)
        requires
            wf_state(old(self)@.state),
            forall|i: int|
                0 <= i < old(self)@.args.len() ==> wf_parsed(#[trigger] old(self)@.args[i]),
            old(self)@.state matches StateSpec::SplitFlag { taken: true, .. } ==> old(
                self,
            )@.args.len() >= 1,
        ensures
            final(self)@.state == old(self)@.state,
            final(self)@.args == old(self)@.args,
            final(self)@.preview == spec_preview(old(self)@.state, old(self)@.args),
    {
        let taken_split = match &self.state {
            State::SplitFlag { taken, .. } => *taken,
            _ => false,
        };
        if taken_split {
            let flag = match &self.state {
                State::SplitFlag { flag, .. } => clone_units(flag),
                _ => unreached(),
            };
            let tmp = State::Flag { flag };
            let arg = dup_arg_at(&self.args, 1);
            proof {
                assert(view_opt_parsed(arg) == head_arg(old(self)@.args.drop_first()));
            }
            let d = decide(&tmp, arg);
            self.preview_state = d.new_state;
        } else {
            let arg = dup_arg_at(&self.args, 0);
            proof {
                assert(view_opt_parsed(arg) == head_arg(old(self)@.args));
            }
            let d = decide(&self.state, arg);
            self.preview_state = d.new_state;
        }
    }

    /// Builds an engine from raw arguments: classifies each one and places
    /// the engine before the first item.
    pub fn new(args: Vec<Vec<u8>>) -> (w: CoreWalker)
        ensures
            wf_walker(w@),
            w@.state is Initial,
            w@.args.len() == args@.len(),
            forall|i: int| 0 <= i < args@.len() ==> w@.args[i] == spec_classify(args@[i]@),
    {
        let mut parsed: Vec<Parsed> = Vec::new();
        let mut i: usize = 0;
        while i < args.len()
            invariant
                0 <= i <= args@.len(),
                parsed@.len() == i,
                forall|j: int| 0 <= j < i ==> (#[trigger] parsed@[j])@ == spec_classify(args@[j]@),
                forall|j: int| 0 <= j < i ==> wf_parsed((#[trigger] parsed@[j])@),
            decreases args@.len() - i,
        {
            let a = clone_units(&args[i]);
            parsed.push(Parsed::new(a));
            i = i + 1;
        }
        let mut w = CoreWalker {
            state: State::Initial,
            args: parsed,
            preview_state: State::Initial,
        };
        w.refresh_preview();
        w
    }

    /// Produces the current item and moves the engine one step: exactly the
    /// transition `spec_advance` describes, with the produced item read off
    /// the new state.
    pub fn advance(&mut self) -> (r: Result<Option<ItemOs>, ArgError>)
        requires
            wf_walker(old(self)@),
        ensures
            wf_walker(final(self)@),
            (final(self)@.state, final(self)@.args) == spec_advance(
                old(self)@.state,
                old(self)@.args,
            ),
            item_res_view(r) == spec_item(final(self)@.state),
            !(final(self)@.state is Initial),
    {
        let taken_split = match &self.state {
            State::SplitFlag { taken, .. } => *taken,
            _ => false,
        };
        if taken_split {
            let flag = match &self.state {
                State::SplitFlag { flag, .. } => clone_units(flag),
                _ => unreached(),
            };
            self.args.remove(0);
            self.state = State::Flag { flag };
            proof {
                assert(self@.args =~= old(self)@.args.drop_first());
            }
        }
        let ghost st1 = self@.state;
        let ghost args1 = self@.args;
        proof {
            assert((st1, args1) == norm_state(old(self)@.state, old(self)@.args));
        }
        let arg: Option<Parsed> = if self.args.len() == 0 {
            None
        } else {
            let a = self.args.remove(0);
            proof {
                assert(self@.args =~= args1.drop_first());
            }
            Some(a)
        };
        proof {
            assert(view_opt_parsed(arg) == head_arg(args1));
        }
        let d = decide(&self.state, arg);
        let ghost rest = self@.args;
        self.state = d.new_state;
        match d.push_back {
            Some(a) => {
                let ghost av = a@;
                self.args.insert(0, a);
                proof {
                    assert(self@.args =~= seq![av] + rest);
                }
            },
            None => {},
        }
        proof {
            assert((self@.state, self@.args) == spec_advance(old(self)@.state, old(self)@.args));
            assert(self@.state matches StateSpec::SplitFlag { .. } ==> self@.args.len() >= 1 && (
            self@.args[0] is Short || self@.args[0] is ShortTail));
        }
        self.refresh_preview();
        self.state.as_item()
    }

    /// The item the next call to `advance` will produce, without moving the
    /// engine: reads the cached lookahead, which under the engine invariant
    /// is exactly the state the next `advance` moves to.
    pub fn upcoming(&self) -> (r: Result<Option<ItemOs>, ArgError>)
        requires
            wf_walker(self@),
        ensures
            item_res_view(r) == spec_item(self@.preview),
            item_res_view(r) == spec_item(spec_advance(self@.state, self@.args).0),
    {
        proof {
            assert(!(spec_preview(self@.state, self@.args) is Initial));
        }
        self.preview_state.as_item()
    }

    /// The flag the engine most recently produced, if the current state
    /// still holds one.
    pub fn current_flag(&self) -> (r: Option<Vec<u8>>)
        ensures
            match self@.state {
                StateSpec::Flag { flag } => r matches Some(f) && f@ == flag,
                StateSpec::ParmFlag { flag, .. } => r matches Some(f) && f@ == flag,
                StateSpec::SplitFlag { flag, .. } => r matches Some(f) && f@ == flag,
                _ => r is None,
            },
    {
        match &self.state {
            State::Flag { flag } => Some(clone_units(flag)),
            State::ParmFlag { flag, .. } => Some(clone_units(flag)),
            State::SplitFlag { flag, .. } => Some(clone_units(flag)),
            _ => None,
        }
    }

    /// Whether a parameter is attached to the flag just produced: an inline
    /// long-flag parameter, or the remainder of a short cluster.
    pub fn can_parameter(&self) -> (r: bool)
        ensures
            r == (self@.state is ParmFlag || self@.state is SplitFlag),
    {
        match &self.state {
            State::ParmFlag { .. } => true,
            State::SplitFlag { .. } => true,
            _ => false,
        }
    }

    /// Takes the parameter attached to the flag just produced, if any: the
    /// inline parameter of a long flag, unchanged, or everything after the
    /// peeled letter of a short cluster, opaque tail included. Marks it
    /// consumed; the queue itself is not advanced, so lookahead stays
    /// consistent until the next `advance`.
    pub fn parameter(&mut self) -> (r: Option<Vec<u8>>)
        requires
            wf_walker(old(self)@),
        ensures
            wf_walker(final(self)@),
            final(self)@.args == old(self)@.args,
            match old(self)@.state {
                StateSpec::ParmFlag { flag, parameter, taken } => {
                    &&& r matches Some(p) && p@ == parameter
                    &&& final(self)@.state == (StateSpec::ParmFlag {
                        flag,
                        parameter,
                        taken: true,
                    })
                },
                StateSpec::SplitFlag { flag, taken } => {
                    &&& r matches Some(p) && p@ == head_param(old(self)@.args)
                    &&& final(self)@.state == (StateSpec::SplitFlag { flag, taken: true })
                },
                _ => r is None && final(self)@ == old(self)@,
            },
    {
        match &self.state {
            State::ParmFlag { flag, parameter, .. } => {
                let f = clone_units(flag);
                let p = clone_units(parameter);
                let ret = clone_units(parameter);
                self.state = State::ParmFlag { flag: f, parameter: p, taken: true };
                self.refresh_preview();
                Some(ret)
            },
            State::SplitFlag { flag, .. } => {
                let f = clone_units(flag);
                let ret = split_param(&self.args);
                self.state = State::SplitFlag { flag: f, taken: true };
                self.refresh_preview();
                Some(ret)
            },
            _ => None,
        }
    }
}

} // verus!
