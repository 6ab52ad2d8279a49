//! The argument validator: the number of arguments is held against the
//! parameters of the command, then each argument is converted to what its
//! parameter asks for.

use vstd::prelude::*;
use crate::decimal::Decimal;
use crate::numeral::parse_decimal;
use crate::registry::{parameter_names, parameter_views, ParamKind, Parameter, ParameterView};
use crate::text::{join, joined, lemma_string_views_push, string_views};

verus! {

/// A command got the wrong number of arguments.
#[derive(Debug, PartialEq, Eq)]
pub enum ArityError {
    /// Too few: the names of the parameters that got no argument.
    Missing(Vec<String>),
    /// Too many: the arguments that no parameter takes.
    Extra(Vec<String>),
}

/// An arity error, as contracts see it.
pub enum ArityErrorView {
    Missing(Seq<Seq<char>>),
    Extra(Seq<Seq<char>>),
}

impl View for ArityError {
    type V = ArityErrorView;

    open spec fn view(&self) -> ArityErrorView {
        match self {
            ArityError::Missing(names) => ArityErrorView::Missing(string_views(names@)),
            ArityError::Extra(args) => ArityErrorView::Extra(string_views(args@)),
        }
    }
}

/// The arity error that `args` give against `parameters`, if any: the
/// parameters beyond the last argument are missing, the arguments beyond the
/// last parameter are extra.
pub open spec fn arity_error(parameters: Seq<ParameterView>, args: Seq<Seq<char>>) -> Option<
    ArityErrorView,
> {
    if args.len() < parameters.len() {
        Some(ArityErrorView::Missing(parameter_names(parameters).skip(args.len() as int)))
    } else if args.len() > parameters.len() {
        Some(ArityErrorView::Extra(args.skip(parameters.len() as int)))
    } else {
        None
    }
}

/// The text that reports an arity error.
pub open spec fn arity_message(error: ArityErrorView) -> Seq<char> {
    match error {
        ArityErrorView::Missing(names) => "Invalid arguments, missing: "@ + joined(names, ", "@)
            + "."@,
        ArityErrorView::Extra(args) => "Invalid arguments, unexpected: "@ + joined(args, ", "@)
            + "."@,
    }
}

impl ArityError {
    /// The text that reports this error.
    pub fn message(&self) -> (text: String)
        ensures
            text@ == arity_message(self@),
    {
        match self {
            ArityError::Missing(names) => {
                let mut text = "Invalid arguments, missing: ".to_owned();
                text.append(join(names, ", ").as_str());
                text.append(".");
                text
            },
            ArityError::Extra(args) => {
                let mut text = "Invalid arguments, unexpected: ".to_owned();
                text.append(join(args, ", ").as_str());
                text.append(".");
                text
            },
        }
    }
}

/// Holds the number of `args` against `parameters`. The arguments are those
/// behind the command's name; the name itself is not among them.
pub fn check_args(parameters: &Vec<Parameter>, args: &Vec<String>) -> (checked: Result<
    (),
    ArityError,
>)
    ensures
        match checked {
            Ok(_) => arity_error(parameter_views(parameters@), string_views(args@)) is None,
            Err(error) => arity_error(parameter_views(parameters@), string_views(args@)) == Some(
                error@,
            ),
        },
{
    if args.len() < parameters.len() {
        let mut names: Vec<String> = Vec::new();
        let mut i: usize = args.len();
        let ghost all = parameter_names(parameter_views(parameters@));
        assert(string_views(names@) =~= all.subrange(args.len() as int, i as int));
        while i < parameters.len()
            invariant
                args.len() <= i <= parameters.len(),
                all == parameter_names(parameter_views(parameters@)),
                string_views(names@) == all.subrange(args.len() as int, i as int),
            decreases parameters.len() - i,
        {
            let name = parameters[i].name.clone();
            proof {
                lemma_string_views_push(names@, name);
                assert(all.subrange(args.len() as int, i + 1) =~= all.subrange(
                    args.len() as int,
                    i as int,
                ).push(name@));
            }
            names.push(name);
            i += 1;
        }
        assert(all.subrange(args.len() as int, i as int) =~= all.skip(args.len() as int));
        Err(ArityError::Missing(names))
    } else if args.len() > parameters.len() {
        let mut extra: Vec<String> = Vec::new();
        let mut i: usize = parameters.len();
        let ghost all = string_views(args@);
        assert(string_views(extra@) =~= all.subrange(parameters.len() as int, i as int));
        while i < args.len()
            invariant
                parameters.len() <= i <= args.len(),
                all == string_views(args@),
                string_views(extra@) == all.subrange(parameters.len() as int, i as int),
            decreases args.len() - i,
        {
            let arg = args[i].clone();
            proof {
                lemma_string_views_push(extra@, arg);
                assert(all.subrange(parameters.len() as int, i + 1) =~= all.subrange(
                    parameters.len() as int,
                    i as int,
                ).push(arg@));
            }
            extra.push(arg);
            i += 1;
        }
        assert(all.subrange(parameters.len() as int, i as int) =~= all.skip(
            parameters.len() as int,
        ));
        Err(ArityError::Extra(extra))
    } else {
        Ok(())
    }
}

/// An argument, converted.
pub enum Value {
    Number(Decimal),
    Text(String),
}

/// A converted argument, as contracts see it: a number by its canonical
/// text, a text by its characters.
pub enum ValueView {
    Number(Seq<char>),
    Text(Seq<char>),
}

impl View for Value {
    type V = ValueView;

    open spec fn view(&self) -> ValueView {
        match self {
            Value::Number(number) => ValueView::Number(number@),
            Value::Text(text) => ValueView::Text(text@),
        }
    }
}

/// An argument could not be converted to what its parameter asks for.
#[derive(Debug, PartialEq, Eq)]
pub struct ParseError {
    /// The argument as it was typed.
    pub argument: String,
    /// The name of the parameter it was meant for.
    pub parameter: String,
    /// What the parameter asks for.
    pub expected: ParamKind,
}

/// A parse error, as contracts see it.
pub struct ParseErrorView {
    pub argument: Seq<char>,
    pub parameter: Seq<char>,
    pub expected: ParamKind,
}

impl View for ParseError {
    type V = ParseErrorView;

    open spec fn view(&self) -> ParseErrorView {
        ParseErrorView {
            argument: self.argument@,
            parameter: self.parameter@,
            expected: self.expected,
        }
    }
}

/// What a parameter of `kind` asks for, in words.
pub open spec fn kind_words(kind: ParamKind) -> Seq<char> {
    match kind {
        ParamKind::Number => "a number"@,
        ParamKind::Text => "a text"@,
    }
}

/// The text that reports a parse error.
pub open spec fn parse_message(error: ParseErrorView) -> Seq<char> {
    "Invalid "@ + error.parameter + " '"@ + error.argument + "': expected "@ + kind_words(
        error.expected,
    ) + "."@
}

impl ParseError {
    /// The text that reports this error.
    pub fn message(&self) -> (text: String)
        ensures
            text@ == parse_message(self@),
    {
        let mut text = "Invalid ".to_owned();
        text.append(self.parameter.as_str());
        text.append(" '");
        text.append(self.argument.as_str());
        text.append("': expected ");
        match self.expected {
            ParamKind::Number => text.append("a number"),
            ParamKind::Text => text.append("a text"),
        }
        text.append(".");
        text
    }
}

/// What converting `arg` for `parameter` gives: a number where the parameter
/// asks for one and `arg` is a numeral, the text itself where it asks for a
/// text, and else an error that holds the argument, the parameter's name and
/// what was asked for.
pub open spec fn coerce(arg: Seq<char>, parameter: ParameterView) -> Result<
    ValueView,
    ParseErrorView,
> {
    match parameter.kind {
        ParamKind::Number => match parse_decimal(arg) {
            Some(text) => Ok(ValueView::Number(text)),
            None => Err(
                ParseErrorView { argument: arg, parameter: parameter.name, expected: parameter.kind },
            ),
        },
        ParamKind::Text => Ok(ValueView::Text(arg)),
    }
}

/// Converts `arg` to what `parameter` asks for.
pub fn parse_arg(arg: &String, parameter: &Parameter) -> (parsed: Result<Value, ParseError>)
    ensures
        match parsed {
            Ok(value) => coerce(arg@, parameter@) == Ok::<ValueView, ParseErrorView>(value@),
            Err(error) => coerce(arg@, parameter@) == Err::<ValueView, ParseErrorView>(error@),
        },
{
    match parameter.kind {
        ParamKind::Number => match Decimal::parse(arg.as_str()) {
            Some(number) => Ok(Value::Number(number)),
            None => Err(
                ParseError {
                    argument: arg.clone(),
                    parameter: parameter.name.clone(),
                    expected: parameter.kind,
                },
            ),
        },
        ParamKind::Text => Ok(Value::Text(arg.clone())),
    }
}

/// The views of `values`, in order.
pub open spec fn value_views(values: Seq<Value>) -> Seq<ValueView> {
    values.map_values(|v: Value| v@)
}

/// What converting the first `n` of `args` for the first `n` of `parameters`
/// gives, from left to right: all the values, or the first error.
pub open spec fn coerce_all(parameters: Seq<ParameterView>, args: Seq<Seq<char>>, n: nat) -> Result<
    Seq<ValueView>,
    ParseErrorView,
>
    decreases n,
{
    if n == 0 {
        Ok(Seq::empty())
    } else {
        match coerce_all(parameters, args, (n - 1) as nat) {
            Err(error) => Err(error),
            Ok(values) => match coerce(args[n - 1], parameters[n - 1]) {
                Err(error) => Err(error),
                Ok(value) => Ok(values.push(value)),
            },
        }
    }
}

/// What is wrong with the arguments of a command.
#[derive(Debug, PartialEq, Eq)]
pub enum ArgumentError {
    Arity(ArityError),
    Parse(ParseError),
}

/// An argument error, as contracts see it.
pub enum ArgumentErrorView {
    Arity(ArityErrorView),
    Parse(ParseErrorView),
}

impl View for ArgumentError {
    type V = ArgumentErrorView;

    open spec fn view(&self) -> ArgumentErrorView {
        match self {
            ArgumentError::Arity(error) => ArgumentErrorView::Arity(error@),
            ArgumentError::Parse(error) => ArgumentErrorView::Parse(error@),
        }
    }
}

/// What validating `args` against `parameters` gives: the arity error if
/// there is one, else the first parse error, else the converted arguments.
pub open spec fn validated(parameters: Seq<ParameterView>, args: Seq<Seq<char>>) -> Result<
    Seq<ValueView>,
    ArgumentErrorView,
> {
    match arity_error(parameters, args) {
        Some(error) => Err(ArgumentErrorView::Arity(error)),
        None => match coerce_all(parameters, args, parameters.len()) {
            Err(error) => Err(ArgumentErrorView::Parse(error)),
            Ok(values) => Ok(values),
        },
    }
}

/// Validates `args` against `parameters`: first their number, then each of
/// them in turn.
pub fn validate(parameters: &Vec<Parameter>, args: &Vec<String>) -> (outcome: Result<
    Vec<Value>,
    ArgumentError,
>)
    ensures
        match outcome {
            Ok(values) => validated(parameter_views(parameters@), string_views(args@)) == Ok::<
                Seq<ValueView>,
                ArgumentErrorView,
            >(value_views(values@)),
            Err(error) => validated(parameter_views(parameters@), string_views(args@)) == Err::<
                Seq<ValueView>,
                ArgumentErrorView,
            >(error@),
        },
{
    match check_args(parameters, args) {
        Err(error) => {
            return Err(ArgumentError::Arity(error));
        },
        Ok(_) => {},
    }
    let ghost ps = parameter_views(parameters@);
    let ghost given = string_views(args@);
    let mut values: Vec<Value> = Vec::new();
    let mut i: usize = 0;
    assert(value_views(values@) =~= Seq::empty());
    while i < parameters.len()
        invariant
            i <= parameters.len() == args.len(),
            ps == parameter_views(parameters@),
            given == string_views(args@),
            coerce_all(ps, given, i as nat) == Ok::<Seq<ValueView>, ParseErrorView>(
                value_views(values@),
            ),
        decreases parameters.len() - i,
    {
        assert(ps[i as int] == parameters@[i as int]@);
        assert(given[i as int] == args@[i as int]@);
        match parse_arg(&args[i], &parameters[i]) {
            Err(error) => {
                assert(coerce_all(ps, given, (i + 1) as nat) == Err::<
                    Seq<ValueView>,
                    ParseErrorView,
                >(error@));
                proof {
                    lemma_first_error_stays(ps, given, (i + 1) as nat, ps.len());
                }
                return Err(ArgumentError::Parse(error));
            },
            Ok(value) => {
                assert(value_views(values@.push(value)) =~= value_views(values@).push(value@));
                values.push(value);
            },
        }
        i += 1;
    }
    Ok(values)
}

/// An error among the first `n` conversions is the outcome of any longer
/// run.
pub proof fn lemma_first_error_stays(
    parameters: Seq<ParameterView>,
    args: Seq<Seq<char>>,
    n: nat,
    m: nat,
)
    requires
        n <= m,
        coerce_all(parameters, args, n) is Err,
    ensures
        coerce_all(parameters, args, m) == coerce_all(parameters, args, n),
    decreases m - n,
{
    if n < m {
        lemma_first_error_stays(parameters, args, n, (m - 1) as nat);
    }
}

} // verus!
