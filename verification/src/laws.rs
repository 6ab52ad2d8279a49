//! What holds of the shell whatever the session: the laws that relate its
//! commands to each other and to the session state.

use vstd::prelude::*;
use crate::numeral::{
    canonical_text, is_canonical, is_decimal, is_digit, lemma_canonical_text_is_canonical,
    lemma_numeral_characters,
};
use crate::dispatch::{
    executed, ran, stepped, CommandErrorView, InputView, ReplyView, ShellView, Status,
};
use crate::help::{
    command_line, grouped, header_line, help_lines, lines_of, member_lines, position_of,
    HelpGroupView,
};
use crate::reader::{
    command_of, is_blank, is_word, law_blank_lines_have_no_words, lemma_line_of_one_word,
    lemma_line_of_two_words, tokens_of, ParsedCommandView,
};
use crate::text::{folded, is_ascii_char, is_plain, is_separator, lemma_plain_folds_to_itself};
use crate::registry::{
    find_command, lemma_find_command, lemma_find_command_unique, lemma_standard_names,
    lemma_standard_names_unique, parameter_names, standard_commands, CommandCategory,
    CommandView, ParamKind,
};
use crate::validate::{
    coerce_all, validated, ArgumentErrorView, ArityErrorView, ParseErrorView, ValueView,
};

verus! {

/// The groups of the four commands: `help` and `exit` under `General`, then
/// `tax` and `taxset` under `Taxes`.
pub proof fn law_standard_groups()
    ensures
        grouped(standard_commands()) == seq![
            HelpGroupView { category: CommandCategory::General, members: seq![0usize, 1usize] },
            HelpGroupView { category: CommandCategory::Taxes, members: seq![2usize, 3usize] },
        ],
{
    let all = standard_commands();
    let one = all.take(1);
    let two = all.take(2);
    let three = all.take(3);
    assert(one.drop_last() =~= Seq::<CommandView>::empty());
    assert(two.drop_last() =~= one);
    assert(three.drop_last() =~= two);
    assert(all.drop_last() =~= three);
    reveal_with_fuel(position_of, 3);
    let general = CommandCategory::General;
    let taxes = CommandCategory::Taxes;
    assert(grouped(one.drop_last()) =~= Seq::<HelpGroupView>::empty());
    assert(grouped(one) =~= seq![HelpGroupView { category: general, members: seq![0usize] }]);
    assert(grouped(two) =~= seq![
        HelpGroupView { category: general, members: seq![0usize, 1usize] },
    ]) by {
        assert(seq![0usize].push(1usize) =~= seq![0usize, 1usize]);
    }
    assert(grouped(three) =~= seq![
        HelpGroupView { category: general, members: seq![0usize, 1usize] },
        HelpGroupView { category: taxes, members: seq![2usize] },
    ]);
    assert(grouped(all) =~= seq![
        HelpGroupView { category: general, members: seq![0usize, 1usize] },
        HelpGroupView { category: taxes, members: seq![2usize, 3usize] },
    ]) by {
        assert(seq![2usize].push(3usize) =~= seq![2usize, 3usize]);
    }
}

/// The help listing of the four commands: each once, grouped by category,
/// in the order of the registry.
pub proof fn law_standard_help()
    ensures
        help_lines(standard_commands()) == seq![
            header_line(CommandCategory::General),
            command_line(standard_commands()[0]),
            command_line(standard_commands()[1]),
            header_line(CommandCategory::Taxes),
            command_line(standard_commands()[2]),
            command_line(standard_commands()[3]),
        ],
{
    law_standard_groups();
    let all = standard_commands();
    let groups = grouped(all);
    let first = groups.drop_last();
    assert(first.drop_last() =~= Seq::<HelpGroupView>::empty());
    reveal_with_fuel(lines_of, 3);
    assert(member_lines(all, groups[0].members) =~= seq![
        command_line(all[0]),
        command_line(all[1]),
    ]);
    assert(member_lines(all, groups[1].members) =~= seq![
        command_line(all[2]),
        command_line(all[3]),
    ]);
    assert(lines_of(all, first) =~= seq![
        header_line(CommandCategory::General),
        command_line(all[0]),
        command_line(all[1]),
    ]);
    assert(help_lines(all) =~= seq![
        header_line(CommandCategory::General),
        command_line(all[0]),
        command_line(all[1]),
        header_line(CommandCategory::Taxes),
        command_line(all[2]),
        command_line(all[3]),
    ]);
}

/// The command `taxset` with the one argument `p`.
pub open spec fn taxset(p: Seq<char>) -> ParsedCommandView {
    ParsedCommandView { name: "taxset"@, raw_args: seq![p] }
}

/// The command `tax`, without arguments.
pub open spec fn tax() -> ParsedCommandView {
    ParsedCommandView { name: "tax"@, raw_args: Seq::empty() }
}

/// Each of the four names finds its own command.
pub proof fn lemma_standard_lookup()
    ensures
        find_command(standard_commands(), "help"@) == Some(standard_commands()[0]),
        find_command(standard_commands(), "exit"@) == Some(standard_commands()[1]),
        find_command(standard_commands(), "tax"@) == Some(standard_commands()[2]),
        find_command(standard_commands(), "taxset"@) == Some(standard_commands()[3]),
{
    lemma_standard_names_unique();
    lemma_find_command_unique(standard_commands(), 0);
    lemma_find_command_unique(standard_commands(), 1);
    lemma_find_command_unique(standard_commands(), 2);
    lemma_find_command_unique(standard_commands(), 3);
}

/// `taxset` with a numeral makes its canonical text the tax rate, and says
/// nothing.
pub proof fn law_taxset_sets_the_rate(shell: ShellView, p: Seq<char>)
    requires
        shell.status is Running,
        is_decimal(p),
    ensures
        ran(shell, taxset(p)) == (
            ShellView { tax_rate: canonical_text(p), status: Status::Running },
            ReplyView::Done,
        ),
{
    lemma_standard_lookup();
    lemma_standard_names();
    let meta = standard_commands()[3];
    let args = seq![p];
    reveal_with_fuel(coerce_all, 2);
    assert(coerce_all(meta.parameters, args, 1) == Ok::<Seq<ValueView>, ParseErrorView>(
        Seq::<ValueView>::empty().push(ValueView::Number(canonical_text(p))),
    ));
    assert("taxset"@.len() != "help"@.len());
    assert("taxset"@.len() != "exit"@.len());
    assert("taxset"@.len() != "tax"@.len());
}

/// `tax` prints the tax rate and leaves the session as it was.
pub proof fn law_tax_prints_the_rate(shell: ShellView)
    requires
        shell.status is Running,
    ensures
        ran(shell, tax()) == (shell, ReplyView::Output(seq![shell.tax_rate])),
{
    lemma_standard_lookup();
    lemma_standard_names();
    assert("tax"@.len() != "help"@.len());
    assert("tax"@.len() != "exit"@.len());
}

/// Round trip: after `taxset p` with a canonical percentage `p`, `tax`
/// prints exactly `p`.
pub proof fn law_taxset_then_tax(shell: ShellView, p: Seq<char>)
    requires
        shell.status is Running,
        is_canonical(p),
    ensures
        ran(ran(shell, taxset(p)).0, tax()).1 == ReplyView::Output(seq![p]),
{
    law_taxset_sets_the_rate(shell, p);
    law_tax_prints_the_rate(ran(shell, taxset(p)).0);
}

/// After `taxset p` with any numeral `p`, `tax` prints the canonical text of
/// `p`.
pub proof fn law_taxset_then_tax_prints_canonical(shell: ShellView, p: Seq<char>)
    requires
        shell.status is Running,
        is_decimal(p),
    ensures
        ran(ran(shell, taxset(p)).0, tax()).1 == ReplyView::Output(seq![canonical_text(p)]),
{
    law_taxset_sets_the_rate(shell, p);
    law_tax_prints_the_rate(ran(shell, taxset(p)).0);
}

/// `taxset` without an argument reports that `percentage` is missing and
/// leaves the session as it was.
pub proof fn law_taxset_without_argument(shell: ShellView)
    requires
        shell.status is Running,
    ensures
        ran(shell, ParsedCommandView { name: "taxset"@, raw_args: Seq::empty() }) == (
            shell,
            ReplyView::Failed(
                CommandErrorView::Arguments(
                    ArgumentErrorView::Arity(ArityErrorView::Missing(seq!["percentage"@])),
                ),
            ),
        ),
{
    lemma_standard_lookup();
    let meta = standard_commands()[3];
    assert(parameter_names(meta.parameters).skip(0) =~= seq!["percentage"@]);
}

/// `taxset` with one argument that is no numeral reports a parse error that
/// names the argument, and leaves the session as it was.
pub proof fn law_taxset_with_a_word(shell: ShellView, word: Seq<char>)
    requires
        shell.status is Running,
        !is_decimal(word),
    ensures
        ran(shell, taxset(word)) == (
            shell,
            ReplyView::Failed(
                CommandErrorView::Arguments(
                    ArgumentErrorView::Parse(
                        ParseErrorView {
                            argument: word,
                            parameter: "percentage"@,
                            expected: ParamKind::Number,
                        },
                    ),
                ),
            ),
        ),
{
    lemma_standard_lookup();
    reveal_with_fuel(coerce_all, 2);
}

/// `taxset abc` reports a parse error that names `abc`, and leaves the
/// session as it was.
pub proof fn law_taxset_abc(shell: ShellView)
    requires
        shell.status is Running,
    ensures
        ran(shell, taxset("abc"@)) == (
            shell,
            ReplyView::Failed(
                CommandErrorView::Arguments(
                    ArgumentErrorView::Parse(
                        ParseErrorView {
                            argument: "abc"@,
                            parameter: "percentage"@,
                            expected: ParamKind::Number,
                        },
                    ),
                ),
            ),
        ),
{
    reveal_strlit("abc");
    if is_decimal("abc"@) {
        lemma_numeral_characters("abc"@);
        assert(is_digit("abc"@[0]) || "abc"@[0] == '.' || "abc"@[0] == '-' || "abc"@[0] == '+');
    }
    law_taxset_with_a_word(shell, "abc"@);
}

/// A name that is none of the four gives "unknown command", whatever the
/// arguments, and leaves the session as it was.
pub proof fn law_unknown_command(shell: ShellView, command: ParsedCommandView)
    requires
        shell.status is Running,
        command.name != "help"@,
        command.name != "exit"@,
        command.name != "tax"@,
        command.name != "taxset"@,
    ensures
        ran(shell, command) == (
            shell,
            ReplyView::Failed(CommandErrorView::Unknown(command.name)),
        ),
{
    lemma_find_command(standard_commands(), command.name);
    match find_command(standard_commands(), command.name) {
        Some(found) => {
            let k = choose|k: int|
                0 <= k < standard_commands().len() && standard_commands()[k] == found;
            assert(standard_commands()[k].name == command.name);
        },
        None => {},
    }
}

/// A command is refused exactly where its name is not registered or its
/// arguments do not pass validation: every registered command has an effect.
pub proof fn law_valid_commands_run(shell: ShellView, command: ParsedCommandView)
    requires
        shell.status is Running,
    ensures
        ran(shell, command).1 is Failed <==> match find_command(
            standard_commands(),
            command.name,
        ) {
            None => true,
            Some(meta) => validated(meta.parameters, command.raw_args) is Err,
        },
{
    lemma_find_command(standard_commands(), command.name);
    lemma_standard_lookup();
    match find_command(standard_commands(), command.name) {
        Some(meta) => {
            let k = choose|k: int|
                0 <= k < standard_commands().len() && standard_commands()[k] == meta;
            if k == 3 && validated(meta.parameters, command.raw_args) is Ok {
                reveal_with_fuel(coerce_all, 2);
            }
        },
        None => {},
    }
}

/// The line that holds the command `taxset`, a space, the argument `p`, and
/// `end` behind it.
pub open spec fn taxset_line(p: Seq<char>, end: Seq<char>) -> Seq<char> {
    "taxset"@ + seq![' '] + p + end
}

/// The line that holds the command `tax`, and `end` behind it.
pub open spec fn tax_line(end: Seq<char>) -> Seq<char> {
    "tax"@ + end
}

/// The names `tax` and `taxset` are plain words.
pub proof fn lemma_names_are_plain_words()
    ensures
        is_word("tax"@),
        is_plain("tax"@),
        is_word("taxset"@),
        is_plain("taxset"@),
{
    lemma_standard_names();
}

/// A numeral is a word, and plain.
pub proof fn lemma_numerals_are_plain_words(p: Seq<char>)
    requires
        is_decimal(p),
    ensures
        is_word(p),
        is_plain(p),
{
    lemma_numeral_characters(p);
    assert forall|k: int| 0 <= k < p.len() implies !is_separator(#[trigger] p[k]) by {
        assert(is_digit(p[k]) || p[k] == '.' || p[k] == '-' || p[k] == '+');
    }
    assert forall|k: int| 0 <= k < p.len() implies is_ascii_char(#[trigger] p[k]) && !('A' as u32
        <= p[k] as u32 <= 'Z' as u32) by {
        assert(is_digit(p[k]) || p[k] == '.' || p[k] == '-' || p[k] == '+');
    }
}

/// Round trip, from the lines typed: after the line `taxset p` with a
/// canonical percentage `p`, the line `tax` prints exactly `p`. Either line
/// may end in separators, such as a line feed.
pub proof fn law_taxset_line_then_tax_line(
    shell: ShellView,
    p: Seq<char>,
    end1: Seq<char>,
    end2: Seq<char>,
)
    requires
        shell.status is Running,
        is_canonical(p),
        is_blank(end1),
        is_blank(end2),
    ensures
        stepped(shell, InputView::Line(taxset_line(p, end1))) == (
            ShellView { tax_rate: p, status: Status::Running },
            ReplyView::Done,
        ),
        stepped(
            stepped(shell, InputView::Line(taxset_line(p, end1))).0,
            InputView::Line(tax_line(end2)),
        ).1 == ReplyView::Output(seq![p]),
{
    lemma_names_are_plain_words();
    lemma_numerals_are_plain_words(p);
    lemma_plain_folds_to_itself("taxset"@);
    lemma_plain_folds_to_itself("tax"@);
    lemma_plain_folds_to_itself(p);
    lemma_line_of_two_words("taxset"@, p, end1);
    lemma_line_of_one_word("tax"@, end2);
    law_taxset_sets_the_rate(shell, p);
    law_tax_prints_the_rate(ShellView { tax_rate: p, status: Status::Running });
}

/// The line `taxset` without an argument reports that `percentage` is
/// missing and leaves the session as it was.
pub proof fn law_taxset_line_without_argument(shell: ShellView, end: Seq<char>)
    requires
        shell.status is Running,
        is_blank(end),
    ensures
        stepped(shell, InputView::Line("taxset"@ + end)) == (
            shell,
            ReplyView::Failed(
                CommandErrorView::Arguments(
                    ArgumentErrorView::Arity(ArityErrorView::Missing(seq!["percentage"@])),
                ),
            ),
        ),
{
    lemma_names_are_plain_words();
    lemma_plain_folds_to_itself("taxset"@);
    lemma_line_of_one_word("taxset"@, end);
    law_taxset_without_argument(shell);
}

/// The line `taxset` with one word that is no numeral, once folded, reports
/// a parse error that names the word, and leaves the session as it was.
pub proof fn law_taxset_line_with_a_word(shell: ShellView, word: Seq<char>, end: Seq<char>)
    requires
        shell.status is Running,
        is_word(word),
        !is_decimal(folded(word)),
        is_blank(end),
    ensures
        stepped(shell, InputView::Line(taxset_line(word, end))) == (
            shell,
            ReplyView::Failed(
                CommandErrorView::Arguments(
                    ArgumentErrorView::Parse(
                        ParseErrorView {
                            argument: folded(word),
                            parameter: "percentage"@,
                            expected: ParamKind::Number,
                        },
                    ),
                ),
            ),
        ),
{
    lemma_names_are_plain_words();
    lemma_plain_folds_to_itself("taxset"@);
    lemma_line_of_two_words("taxset"@, word, end);
    law_taxset_with_a_word(shell, folded(word));
}

/// A line whose first token is none of the four names gives "unknown
/// command" with that token, and leaves the session as it was.
pub proof fn law_unknown_first_word(shell: ShellView, line: Seq<char>)
    requires
        shell.status is Running,
        tokens_of(line).len() > 0,
        tokens_of(line)[0] != "help"@,
        tokens_of(line)[0] != "exit"@,
        tokens_of(line)[0] != "tax"@,
        tokens_of(line)[0] != "taxset"@,
    ensures
        stepped(shell, InputView::Line(line)) == (
            shell,
            ReplyView::Failed(CommandErrorView::Unknown(tokens_of(line)[0])),
        ),
{
    law_unknown_command(shell, command_of(tokens_of(line))->0);
}

/// A line without a word is no command: the session stays as it was.
pub proof fn law_blank_line_is_no_command(shell: ShellView, line: Seq<char>)
    requires
        shell.status is Running,
        is_blank(line),
    ensures
        stepped(shell, InputView::Line(line)) == (shell, ReplyView::NoCommand),
{
    law_blank_lines_have_no_words(line);
}

/// Idempotence, from the lines typed: the line `tax` prints the same value
/// however often it is given, and leaves the session as it was.
pub proof fn law_tax_line_twice(shell: ShellView, end1: Seq<char>, end2: Seq<char>)
    requires
        shell.status is Running,
        is_blank(end1),
        is_blank(end2),
    ensures
        stepped(shell, InputView::Line(tax_line(end1))) == (
            shell,
            ReplyView::Output(seq![shell.tax_rate]),
        ),
        stepped(stepped(shell, InputView::Line(tax_line(end1))).0, InputView::Line(tax_line(end2)))
            == stepped(shell, InputView::Line(tax_line(end1))),
{
    lemma_names_are_plain_words();
    lemma_plain_folds_to_itself("tax"@);
    lemma_line_of_one_word("tax"@, end1);
    lemma_line_of_one_word("tax"@, end2);
    law_tax_prints_the_rate(shell);
}

/// Idempotence: `tax` after `tax` prints the same value, and the session is
/// still as it was.
pub proof fn law_tax_twice(shell: ShellView)
    requires
        shell.status is Running,
    ensures
        ran(ran(shell, tax()).0, tax()) == ran(shell, tax()),
        ran(shell, tax()).0 == shell,
{
    law_tax_prints_the_rate(shell);
}

/// Only `taxset` changes the tax rate.
pub proof fn law_only_taxset_changes_the_rate(shell: ShellView, command: ParsedCommandView)
    requires
        command.name != "taxset"@,
    ensures
        ran(shell, command).0.tax_rate == shell.tax_rate,
{
    lemma_find_command(standard_commands(), command.name);
}

/// A command that fails leaves the session as it was, and running.
pub proof fn law_errors_change_nothing(shell: ShellView, command: ParsedCommandView)
    requires
        ran(shell, command).1 is Failed,
    ensures
        ran(shell, command).0 == shell,
        shell.status is Running,
{
}

/// A running session ends exactly when the reply is `Exit`, and a command
/// gives that reply exactly when it is `exit` without arguments.
pub proof fn law_session_ends_on_exit(shell: ShellView, command: ParsedCommandView)
    requires
        shell.status is Running,
    ensures
        ran(shell, command).0.status is Terminated <==> ran(shell, command).1 is Exit,
        ran(shell, command).1 is Exit <==> command.name == "exit"@ && command.raw_args.len() == 0,
{
    lemma_find_command(standard_commands(), command.name);
    lemma_standard_lookup();
    lemma_standard_names();
    assert("exit"@[1] != "help"@[1]);
    if command.name == "exit"@ {
        reveal_with_fuel(coerce_all, 2);
    }
}

/// A session that is over stays over: no input changes it, and every reply
/// is `Exit`.
pub proof fn law_terminated_stays_terminated(shell: ShellView, input: InputView)
    requires
        shell.status is Terminated,
    ensures
        stepped(shell, input) == (shell, ReplyView::Exit),
{
}

/// The end of the input ends a running session and leaves the tax rate as
/// it was.
pub proof fn law_end_of_input_ends_the_session(shell: ShellView)
    requires
        shell.status is Running,
    ensures
        stepped(shell, InputView::Closed) == (
            ShellView { tax_rate: shell.tax_rate, status: Status::Terminated },
            ReplyView::Exit,
        ),
{
}

/// Whatever the input, the tax rate of a session is what it was or a
/// canonical numeral.
pub proof fn law_rate_stays_canonical(shell: ShellView, input: InputView)
    requires
        is_canonical(shell.tax_rate),
    ensures
        is_canonical(stepped(shell, input).0.tax_rate),
{
    match (shell.status, input) {
        (Status::Running, InputView::Line(line)) => {
            match command_of(tokens_of(line)) {
                Some(command) => {
                    lemma_command_keeps_rate_canonical(shell.tax_rate, command);
                },
                None => {},
            }
        },
        _ => {},
    }
}

/// Running a command at a canonical tax rate gives a canonical tax rate.
pub proof fn lemma_command_keeps_rate_canonical(rate: Seq<char>, command: ParsedCommandView)
    requires
        is_canonical(rate),
    ensures
        is_canonical(executed(rate, command).0),
{
    lemma_find_command(standard_commands(), command.name);
    match find_command(standard_commands(), command.name) {
        Some(meta) => {
            if meta.name == "taxset"@ {
                lemma_standard_lookup();
                match validated(meta.parameters, command.raw_args) {
                    Ok(values) => {
                        reveal_with_fuel(coerce_all, 2);
                        lemma_canonical_text_is_canonical(command.raw_args[0]);
                    },
                    Err(_) => {},
                }
            }
        },
        None => {},
    }
}

} // verus!
