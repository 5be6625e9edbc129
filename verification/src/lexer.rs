//! The command line tokenizer: lexopt's parser, with what it returns named
//! as a function of the arguments and of the calls made before.

use vstd::prelude::*;

use crate::cli::{CliArg, CliArgV, LexError, LexErrorV};

verus! {

#[verifier::external_type_specification]
#[verifier::external_body]
pub struct ExLexParser(lexopt::Parser);

#[verifier::external_type_specification]
#[verifier::external_body]
pub struct ExLexError(lexopt::Error);

/// What a call of `next` gives: a token with its debug notation (as `{:?}`
/// writes lexopt's `Arg`), the end of the arguments, or an error.
pub enum LexTokV {
    Token(CliArgV, Seq<char>),
    End,
    Fail(LexErrorV),
}

/// What a call of `value` gives: the value, or an error.
pub enum LexValV {
    Value(Seq<char>),
    Fail(LexErrorV),
}

/// What lexopt's `Parser::next` returns on a parser made from the arguments
/// `args` (the program name first), after the calls `calls` (`false` for
/// `next`, `true` for `value`), as the library converts it.
pub uninterp spec fn lex_next(args: Seq<Seq<char>>, calls: Seq<bool>) -> LexTokV;

/// What lexopt's `Parser::value` returns on a parser made from the arguments
/// `args`, after the calls `calls`, as the library converts it.
pub uninterp spec fn lex_value(args: Seq<Seq<char>>, calls: Seq<bool>) -> LexValV;

/// The texts of the arguments.
pub open spec fn argv_texts(argv: Seq<&str>) -> Seq<Seq<char>> {
    argv.map_values(|s: &str| s@)
}

/// Whether lexopt reads the argument `t` as one whole token with no value
/// attached: a long option `--name` without `=`, a short option `-c` of one
/// character, or a value that does not start with `-`.
pub open spec fn simple_arg(t: Seq<char>) -> bool {
    if t.len() >= 2 && t[0] == '-' && t[1] == '-' {
        t.len() > 2 && !t.contains('=')
    } else if t.len() >= 1 && t[0] == '-' {
        t.len() == 2
    } else {
        true
    }
}

/// The token lexopt reads from a simple argument.
pub open spec fn simple_token(t: Seq<char>) -> CliArgV {
    if t.len() >= 2 && t[0] == '-' && t[1] == '-' {
        CliArgV::Long(t.subrange(2, t.len() as int))
    } else if t.len() >= 1 && t[0] == '-' {
        CliArgV::Short(t[1])
    } else {
        CliArgV::Value(t)
    }
}

/// Every argument after the program name is simple.
pub open spec fn simple_args(args: Seq<Seq<char>>) -> bool {
    forall|i: int| 1 <= i < args.len() ==> simple_arg(#[trigger] args[i])
}

/// What lexopt gives on a command line whose arguments after the program
/// name are all simple: each call of `next` or `value` takes one whole
/// argument, the one after as many as there were calls; `next` gives its
/// token, or the end when there is none; `value` gives it as it is, or a
/// missing value when there is none.
pub open spec fn simple_facts(args: Seq<Seq<char>>) -> bool {
    simple_args(args) ==> {
        &&& forall|c: Seq<bool>|
            c.len() + 1 < args.len() ==> (#[trigger] lex_next(args, c) matches LexTokV::Token(t, _)
                && t == simple_token(args[c.len() + 1int]))
        &&& forall|c: Seq<bool>| c.len() + 1 >= args.len() ==> #[trigger] lex_next(args, c) is End
        &&& forall|c: Seq<bool>|
            c.len() + 1 < args.len() ==> #[trigger] lex_value(args, c) == LexValV::Value(args[c.len() + 1int])
        &&& forall|c: Seq<bool>|
            c.len() + 1 >= args.len() ==> (#[trigger] lex_value(args, c) matches LexValV::Fail(e)
                && e is MissingValue)
    }
}

/// Whether the converted result of `next` is `t`.
pub open spec fn token_is(r: Result<Option<(CliArg, String)>, LexError>, t: LexTokV) -> bool {
    match r {
        Err(e) => t == LexTokV::Fail(e@),
        Ok(None) => t is End,
        Ok(Some((a, d))) => t == LexTokV::Token(a@, d@),
    }
}

/// Whether the converted result of `value` is `t`.
pub open spec fn value_is(r: Result<String, LexError>, t: LexValV) -> bool {
    match r {
        Err(e) => t == LexValV::Fail(e@),
        Ok(v) => t == LexValV::Value(v@),
    }
}

/// A lexopt parser together with the arguments it was made from and the
/// calls made on it so far. Only the functions of this module make or
/// advance one, so the parser is always the one those two describe.
pub struct Lexer {
    parser: lexopt::Parser,
    args: Ghost<Seq<Seq<char>>>,
    calls: Ghost<Seq<bool>>,
}

impl Lexer {
    /// The arguments the lexer was made from, the program name first.
    pub closed spec fn texts(&self) -> Seq<Seq<char>> {
        self.args@
    }

    /// The calls made so far: `false` for `next`, `true` for `value`.
    pub closed spec fn calls(&self) -> Seq<bool> {
        self.calls@
    }

    /// A lexer over the arguments `argv`, the program name first.
    pub fn new(argv: &[&str]) -> (l: Lexer)
        ensures
            l.texts() == argv_texts(argv@),
            l.calls() == Seq::<bool>::empty(),
    {
        Lexer { parser: new_parser(argv), args: Ghost(argv_texts(argv@)), calls: Ghost(Seq::empty()) }
    }

    /// The next token.
    pub fn next(&mut self) -> (r: Result<Option<(CliArg, String)>, LexError>)
        ensures
            final(self).texts() == old(self).texts(),
            final(self).calls() == old(self).calls().push(false),
            token_is(r, lex_next(old(self).texts(), old(self).calls())),
            simple_facts(old(self).texts()),
    {
        let r = next_token(self);
        self.calls = Ghost(self.calls@.push(false));
        r
    }

    /// The value of the option just read.
    pub fn value(&mut self) -> (r: Result<String, LexError>)
        ensures
            final(self).texts() == old(self).texts(),
            final(self).calls() == old(self).calls().push(true),
            value_is(r, lex_value(old(self).texts(), old(self).calls())),
    {
        let r = next_value(self);
        self.calls = Ghost(self.calls@.push(true));
        r
    }
}

/// Converts a lexopt error, variant by variant.
#[verifier::external_body]
fn to_lex_error(e: lexopt::Error) -> LexError {
    match e {
        lexopt::Error::MissingValue { option } => LexError::MissingValue(option),
        lexopt::Error::UnexpectedOption(o) => LexError::UnexpectedOption(o),
        lexopt::Error::UnexpectedArgument(v) => LexError::UnexpectedArgument(v.to_string_lossy().into_owned()),
        lexopt::Error::UnexpectedValue { option, value } => LexError::UnexpectedValue(option, value.to_string_lossy().into_owned()),
        lexopt::Error::ParsingFailed { value, error } => LexError::ParsingFailed(value, error.to_string()),
        lexopt::Error::NonUnicodeValue(v) => LexError::NonUnicodeValue(v.to_string_lossy().into_owned()),
        lexopt::Error::Custom(c) => LexError::Custom(c.to_string()),
    }
}

/// Calls `lexopt::Parser::from_iter` on the arguments, the program name
/// first. Nothing is claimed here: `Lexer::new` records the arguments.
#[verifier::external_body]
fn new_parser(argv: &[&str]) -> lexopt::Parser {
    lexopt::Parser::from_iter(argv.iter().copied())
}

/// Calls `lexopt::Parser::next` and converts the token, with its debug
/// notation (as `{:?}` writes it). Claims that the result is
/// `lex_next(texts, calls)` of the lexer: lexopt's parser is deterministic,
/// and its state is a function of the arguments it was made from and of the
/// calls made on it, which the lexer records. The record is left for the
/// caller to extend. Claims too `simple_facts` of the arguments: what
/// lexopt's `next` and `value` do with `--name`, `-c` and a plain value,
/// and on an exhausted command line, where no argument is split or joined.
#[verifier::external_body]
fn next_token(l: &mut Lexer) -> (r: Result<Option<(CliArg, String)>, LexError>)
    ensures
        final(l).args == old(l).args,
        final(l).calls == old(l).calls,
        token_is(r, lex_next(old(l).args@, old(l).calls@)),
        simple_facts(old(l).args@),
{
    match l.parser.next() {
        Ok(Some(a)) => Ok(Some((match &a {
            lexopt::Arg::Short(c) => CliArg::Short(*c),
            lexopt::Arg::Long(s) => CliArg::Long(s.to_string()),
            lexopt::Arg::Value(v) => CliArg::Value(v.to_string_lossy().into_owned()),
        }, format!("{:?}", a)))),
        Ok(None) => Ok(None),
        Err(e) => Err(to_lex_error(e)),
    }
}

/// Calls `lexopt::Parser::value`: the value of the last option, converted.
/// Claims that the result is `lex_value(texts, calls)` of the lexer, for
/// the reason given at `next_token`. The record is left for the caller to
/// extend.
#[verifier::external_body]
fn next_value(l: &mut Lexer) -> (r: Result<String, LexError>)
    ensures
        final(l).args == old(l).args,
        final(l).calls == old(l).calls,
        value_is(r, lex_value(old(l).args@, old(l).calls@)),
{
    l.parser.value().map(|v| v.to_string_lossy().into_owned()).map_err(to_lex_error)
}

} // verus!
