//! Command-line argument tokenizer.
//!
//! Raw arguments are byte sequences that need not be valid UTF-8. The
//! tokenizer splits combined single-dash flag clusters such as `-xvf` into
//! the separate flags `-x`, `-v`, `-f`, recognises long flags with inline
//! parameters such as `--fruit=banana`, and carries undecodable bytes
//! through untouched so that they can still be used as filenames or other
//! opaque values.

mod bytes;
pub mod corewalker;
pub mod item;
pub mod laws;
pub mod oschars;
pub mod oschars_windows;

pub use item::{Item, ItemOs};

use crate::corewalker::{
    head_param, spec_advance, spec_classify, spec_item, spec_preview, wf_walker, CoreWalker,
    ParsedSpec, StateSpec, WalkerSpec,
};
use crate::item::{item_res_view, spec_strict, strict_res_view, unicode_item_option, ItemSpec};
use crate::laws::lemma_lookahead_exact;
use crate::oschars::{is_utf8, is_valid_text};
use vstd::prelude::*;

verus! {

/// Error type for the tokenizer. Errors are values: once the engine has
/// produced one it is cached and returned again on every subsequent read.
#[derive(Debug, Clone, PartialEq, Eq)]
pub enum ArgError {
    /// An argument, or the flag-name part of one, could not be decoded as
    /// text where text was required.
    InvalidUnicode(Vec<u8>),
    /// A long flag carried an inline parameter (`--fruit=banana`) and the
    /// caller advanced past it without retrieving the parameter.
    UnexpectedParameter(Vec<u8>),
    /// The caller required a parameter but none was available.
    ParameterMissing(Vec<u8>),
}

/// The mathematical value of an `ArgError`.
pub enum ArgErrorSpec {
    InvalidUnicode(Seq<u8>),
    UnexpectedParameter(Seq<u8>),
    ParameterMissing(Seq<u8>),
}

impl View for ArgError {
    type V = ArgErrorSpec;

    open spec fn view(&self) -> ArgErrorSpec {
        match self {
            ArgError::InvalidUnicode(a) => ArgErrorSpec::InvalidUnicode(a@),
            ArgError::UnexpectedParameter(f) => ArgErrorSpec::UnexpectedParameter(f@),
            ArgError::ParameterMissing(f) => ArgErrorSpec::ParameterMissing(f@),
        }
    }
}

/// The mathematical value of a parameter read.
pub open spec fn param_res_view(r: Result<Option<Vec<u8>>, ArgError>) -> Result<
    Option<Seq<u8>>,
    ArgErrorSpec,
> {
    match r {
        Ok(None) => Ok(None),
        Ok(Some(p)) => Ok(Some(p@)),
        Err(e) => Err(e@),
    }
}

/// What a parameter request yields: the inline parameter of a pending long
/// flag, the remainder of a pending short cluster, or — only when a
/// free-standing word may count as a parameter — the upcoming positional
/// word; an upcoming error is reported instead, and anything else is no
/// parameter.
pub open spec fn spec_parameter_result(w: WalkerSpec, free_standing: bool) -> Result<
    Option<Seq<u8>>,
    ArgErrorSpec,
> {
    match w.state {
        StateSpec::ParmFlag { parameter, .. } => Ok(Some(parameter)),
        StateSpec::SplitFlag { .. } => Ok(Some(head_param(w.args))),
        _ => if !free_standing {
            Ok(None)
        } else {
            match spec_item(w.preview) {
                Ok(Some(ItemSpec::Word(word))) => Ok(Some(word)),
                Err(e) => Err(e),
                _ => Ok(None),
            }
        },
    }
}

/// How a parameter request moves the engine: a pending parameter is marked
/// consumed, a free-standing word taken as parameter is consumed by one
/// advance, and in every other case nothing changes.
pub open spec fn spec_parameter_transition(
    w0: WalkerSpec,
    w1: WalkerSpec,
    free_standing: bool,
) -> bool {
    match w0.state {
        StateSpec::ParmFlag { flag, parameter, .. } => w1.state == (StateSpec::ParmFlag {
            flag,
            parameter,
            taken: true,
        }) && w1.args == w0.args,
        StateSpec::SplitFlag { flag, .. } => w1.state == (StateSpec::SplitFlag {
            flag,
            taken: true,
        }) && w1.args == w0.args,
        _ => if !free_standing {
            w1 == w0
        } else {
            match spec_item(w0.preview) {
                Ok(Some(ItemSpec::Word(_))) => (w1.state, w1.args) == spec_advance(
                    w0.state,
                    w0.args,
                ),
                _ => w1 == w0,
            }
        },
    }
}

/// Demanding valid text of a parameter: one that does not decode becomes
/// an `InvalidUnicode` error.
pub open spec fn spec_strict_param(r: Result<Option<Seq<u8>>, ArgErrorSpec>) -> Result<
    Option<Seq<u8>>,
    ArgErrorSpec,
> {
    match r {
        Ok(Some(p)) => if is_utf8(p) {
            Ok(Some(p))
        } else {
            Err(ArgErrorSpec::InvalidUnicode(p))
        },
        _ => r,
    }
}

/// What repeatedly skipping words until a flag arrives computes: the next
/// strict item decides — an error or the end stops the walk, a flag is
/// taken and returned, and a word is taken, collected, and the walk goes
/// on. (The guard on the queue length always holds when the lookahead
/// shows a word; it keeps the definition well-founded.)
pub open spec fn spec_take_flag(
    st: StateSpec,
    args: Seq<ParsedSpec>,
    skipped: Seq<Seq<u8>>,
) -> (Result<Option<Seq<u8>>, ArgErrorSpec>, StateSpec, Seq<ParsedSpec>, Seq<Seq<u8>>)
    decreases args.len(),
{
    match spec_strict(spec_item(spec_preview(st, args))) {
        Err(e) => (Err(e), st, args, skipped),
        Ok(None) => (Ok(None), st, args, skipped),
        Ok(Some(ItemSpec::Flag(f))) => (
            Ok(Some(f)),
            spec_advance(st, args).0,
            spec_advance(st, args).1,
            skipped,
        ),
        Ok(Some(ItemSpec::Word(w))) => {
            let st2 = spec_advance(st, args).0;
            let args2 = spec_advance(st, args).1;
            if args2.len() < args.len() {
                spec_take_flag(st2, args2, skipped.push(w))
            } else {
                (Ok(None), st2, args2, skipped.push(w))
            }
        },
    }
}

/// When the lookahead shows a word, the advance that consumes it shortens
/// the queue.
proof fn lemma_word_preview_shrinks(st: StateSpec, args: Seq<ParsedSpec>)
    requires
        spec_preview(st, args) matches StateSpec::NoFlag { .. },
        st matches StateSpec::SplitFlag { taken: true, .. } ==> args.len() >= 1,
    ensures
        spec_advance(st, args).1.len() < args.len(),
{
    match st {
        StateSpec::SplitFlag { flag, taken } => {
            if taken {
                let args1 = args.drop_first();
                assert(args1.len() == args.len() - 1);
                assert(head_arg_is_some_arg(args1));
            } else {
                assert(head_arg_is_some_arg(args));
            }
        },
        _ => {
            assert(head_arg_is_some_arg(args));
        },
    }
}

/// Helper for the lemma above: a preview of `NoFlag` forces the examined
/// queue head to be a positional argument, so the queue is nonempty there.
spec fn head_arg_is_some_arg(args: Seq<ParsedSpec>) -> bool {
    args.len() >= 1 && args[0] is Arg
}

/// Command line argument helper.
///
/// Built from a sequence of raw arguments. Every call to `take_item` doles
/// out another flag or word. Multi-letter arguments that start with a
/// single dash are split into separate single-letter flags, for example
/// `-vf` becomes `-v` `-f`. Call `parameter` to obtain the remaining
/// letters as one value instead: with `-xfbanana`, calling it after
/// receiving `-f` returns `banana`.
///
/// With double-dash flags such as `--fruit=banana`, `take_item` returns
/// `--fruit`. This must be followed by a call to `parameter`; otherwise
/// the next `take_item` yields `ArgError::UnexpectedParameter`.
///
/// The `_os` variants return raw bytes; the plain variants demand valid
/// text and report `ArgError::InvalidUnicode` where a word does not
/// decode.
pub struct ArgWalker {
    core: CoreWalker,
}

impl View for ArgWalker {
    type V = WalkerSpec;

    closed spec fn view(&self) -> WalkerSpec {
        self.core@
    }
}

impl ArgWalker {
    /// Builds a walker from raw arguments.
    pub fn new(args: Vec<Vec<u8>>) -> (w: ArgWalker)
        ensures
            wf_walker(w@),
            w@.state is Initial,
            w@.args.len() == args@.len(),
            forall|i: int| 0 <= i < args@.len() ==> w@.args[i] == spec_classify(args@[i]@),
    {
        ArgWalker { core: CoreWalker::new(args) }
    }

    /// Looks at the upcoming item in strict-text form without moving on:
    /// exactly what the next `take_item` will produce.
    pub fn peek_item(&self) -> (r: Result<Option<Item>, ArgError>)
        requires
            wf_walker(self@),
        ensures
            strict_res_view(r) == spec_strict(spec_item(self@.preview)),
            strict_res_view(r) == spec_strict(
                spec_item(spec_advance(self@.state, self@.args).0),
            ),
    {
        match self.core.upcoming() {
            Ok(o) => unicode_item_option(o),
            Err(e) => Err(e),
        }
    }

    /// Looks at the upcoming item in raw form without moving on: exactly
    /// what the next `take_item_os` will produce.
    pub fn peek_item_os(&self) -> (r: Result<Option<ItemOs>, ArgError>)
        requires
            wf_walker(self@),
        ensures
            item_res_view(r) == spec_item(self@.preview),
            item_res_view(r) == spec_item(spec_advance(self@.state, self@.args).0),
    {
        self.core.upcoming()
    }

    /// Retrieves the upcoming item in strict-text form and moves on.
    pub fn take_item(&mut self) -> (r: Result<Option<Item>, ArgError>)
        requires
            wf_walker(old(self)@),
        ensures
            wf_walker(final(self)@),
            (final(self)@.state, final(self)@.args) == spec_advance(
                old(self)@.state,
                old(self)@.args,
            ),
            strict_res_view(r) == spec_strict(spec_item(final(self)@.state)),
    {
        match self.core.advance() {
            Ok(o) => unicode_item_option(o),
            Err(e) => Err(e),
        }
    }

    /// Retrieves the upcoming item in raw form and moves on.
    pub fn take_item_os(&mut self) -> (r: Result<Option<ItemOs>, ArgError>)
        requires
            wf_walker(old(self)@),
        ensures
            wf_walker(final(self)@),
            (final(self)@.state, final(self)@.args) == spec_advance(
                old(self)@.state,
                old(self)@.args,
            ),
            item_res_view(r) == spec_item(final(self)@.state),
    {
        self.core.advance()
    }

    /// Whether a parameter is available for the flag just produced.
    /// `free_standing` controls whether an upcoming positional word also
    /// counts as one.
    pub fn has_parameter(&self, free_standing: bool) -> (r: bool)
        requires
            wf_walker(self@),
        ensures
            r == (self@.state is ParmFlag || self@.state is SplitFlag || (free_standing
                && spec_item(self@.preview) matches Ok(Some(ItemSpec::Word(_))))),
    {
        if self.core.can_parameter() {
            return true;
        }
        if free_standing {
            match self.core.upcoming() {
                Ok(Some(ItemOs::Word(_))) => {
                    return true;
                },
                _ => {},
            }
        }
        false
    }

    /// Takes the parameter of the flag just produced, in raw form: its
    /// inline or attached value, or — with `free_standing` — the upcoming
    /// positional word, consumed.
    pub fn parameter_os(&mut self, free_standing: bool) -> (r: Result<Option<Vec<u8>>, ArgError>)
        requires
            wf_walker(old(self)@),
        ensures
            wf_walker(final(self)@),
            spec_parameter_transition(old(self)@, final(self)@, free_standing),
            param_res_view(r) == spec_parameter_result(old(self)@, free_standing),
    {
        match self.core.parameter() {
            Some(p) => {
                return Ok(Some(p));
            },
            None => {},
        }
        if !free_standing {
            return Ok(None);
        }
        match self.core.upcoming() {
            Err(e) => {
                return Err(e);
            },
            Ok(Some(ItemOs::Word(_))) => {},
            _ => {
                return Ok(None);
            },
        }
        proof {
            lemma_lookahead_exact(self@.state, self@.args);
        }
        match self.core.advance() {
            Ok(Some(ItemOs::Word(w))) => Ok(Some(w)),
            _ => unreached(),
        }
    }

    /// Takes the parameter of the flag just produced, demanding valid
    /// text: a parameter that does not decode is an `InvalidUnicode`
    /// error.
    pub fn parameter(&mut self, free_standing: bool) -> (r: Result<Option<Vec<u8>>, ArgError>)
        requires
            wf_walker(old(self)@),
        ensures
            wf_walker(final(self)@),
            spec_parameter_transition(old(self)@, final(self)@, free_standing),
            param_res_view(r) == spec_strict_param(
                spec_parameter_result(old(self)@, free_standing),
            ),
    {
        match self.parameter_os(free_standing) {
            Ok(None) => Ok(None),
            Ok(Some(w)) => {
                if is_valid_text(&w) {
                    Ok(Some(w))
                } else {
                    Err(ArgError::InvalidUnicode(w))
                }
            },
            Err(e) => Err(e),
        }
    }

    /// Takes the parameter of the flag just produced, in raw form, and
    /// fails with `ParameterMissing` when there is none. To be called
    /// right after a flag.
    pub fn required_parameter_os(&mut self, free_standing: bool) -> (r: Result<Vec<u8>, ArgError>)
        requires
            wf_walker(old(self)@),
            spec_parameter_result(old(self)@, free_standing) == Ok::<
                Option<Seq<u8>>,
                ArgErrorSpec,
            >(None) ==> (old(self)@.state matches StateSpec::Flag { .. }),
        ensures
            wf_walker(final(self)@),
            spec_parameter_transition(old(self)@, final(self)@, free_standing),
            match spec_parameter_result(old(self)@, free_standing) {
                Ok(Some(p)) => r matches Ok(v) && v@ == p,
                Err(e) => r matches Err(e2) && e2@ == e,
                Ok(None) => old(self)@.state matches StateSpec::Flag { flag } && r matches Err(e2)
                    && e2@ == ArgErrorSpec::ParameterMissing(flag),
            },
    {
        match self.parameter_os(free_standing) {
            Err(e) => Err(e),
            Ok(Some(p)) => Ok(p),
            Ok(None) => {
                match self.core.current_flag() {
                    Some(flag) => Err(ArgError::ParameterMissing(flag)),
                    None => unreached(),
                }
            },
        }
    }

    /// Takes the parameter of the flag just produced, demanding valid
    /// text, and fails with `ParameterMissing` when there is none.
    pub fn required_parameter(&mut self, free_standing: bool) -> (r: Result<Vec<u8>, ArgError>)
        requires
            wf_walker(old(self)@),
            spec_parameter_result(old(self)@, free_standing) == Ok::<
                Option<Seq<u8>>,
                ArgErrorSpec,
            >(None) ==> (old(self)@.state matches StateSpec::Flag { .. }),
        ensures
            wf_walker(final(self)@),
            spec_parameter_transition(old(self)@, final(self)@, free_standing),
            match spec_parameter_result(old(self)@, free_standing) {
                Ok(Some(p)) => if is_utf8(p) {
                    r matches Ok(v) && v@ == p
                } else {
                    r matches Err(e2) && e2@ == ArgErrorSpec::InvalidUnicode(p)
                },
                Err(e) => r matches Err(e2) && e2@ == e,
                Ok(None) => old(self)@.state matches StateSpec::Flag { flag } && r matches Err(e2)
                    && e2@ == ArgErrorSpec::ParameterMissing(flag),
            },
    {
        match self.required_parameter_os(free_standing) {
            Err(e) => Err(e),
            Ok(p) => {
                if is_valid_text(&p) {
                    Ok(p)
                } else {
                    Err(ArgError::InvalidUnicode(p))
                }
            },
        }
    }

    /// Skips words, collecting them into `skipped`, until a flag arrives:
    /// returns that flag, `Ok(None)` at the end of the arguments, or the
    /// first error met on the way.
    pub fn take_flag(&mut self, skipped: &mut Vec<Vec<u8>>) -> (r: Result<
        Option<Vec<u8>>,
        ArgError,
    >)
        requires
            wf_walker(old(self)@),
        ensures
            wf_walker(final(self)@),
            ({
                let (res, st2, args2, sk2) = spec_take_flag(
                    old(self)@.state,
                    old(self)@.args,
                    old(skipped)@.map_values(|v: Vec<u8>| v@),
                );
                &&& param_res_view(r) == res
                &&& final(self)@.state == st2
                &&& final(self)@.args == args2
                &&& final(skipped)@.map_values(|v: Vec<u8>| v@) == sk2
            }),
    {
        loop
            invariant
                wf_walker(self@),
                spec_take_flag(
                    old(self)@.state,
                    old(self)@.args,
                    old(skipped)@.map_values(|v: Vec<u8>| v@),
                ) == spec_take_flag(self@.state, self@.args, skipped@.map_values(|v: Vec<u8>| v@)),
            ensures
                wf_walker(self@),
                spec_take_flag(
                    old(self)@.state,
                    old(self)@.args,
                    old(skipped)@.map_values(|v: Vec<u8>| v@),
                ) == spec_take_flag(self@.state, self@.args, skipped@.map_values(|v: Vec<u8>| v@)),
                spec_strict(spec_item(spec_preview(self@.state, self@.args))) matches Ok(
                    Some(ItemSpec::Flag(_)),
                ),
            decreases self@.args.len(),
        {
            match self.peek_item() {
                Err(e) => {
                    return Err(e);
                },
                Ok(None) => {
                    return Ok(None);
                },
                Ok(Some(Item::Flag(_))) => {
                    break;
                },
                Ok(Some(Item::Word(w))) => {
                    proof {
                        lemma_word_preview_shrinks(self@.state, self@.args);
                        assert(skipped@.push(w).map_values(|v: Vec<u8>| v@) =~= skipped@.map_values(
                            |v: Vec<u8>| v@,
                        ).push(w@));
                    }
                    skipped.push(w);
                    let _ = self.take_item_os();
                },
            }
        }
        proof {
            lemma_lookahead_exact(self@.state, self@.args);
        }
        match self.take_item_os() {
            Ok(Some(ItemOs::Flag(f))) => Ok(Some(f)),
            _ => unreached(),
        }
    }
}

} // verus!
