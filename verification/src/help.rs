//! The help listing: the commands of a registry, grouped by category. The
//! categories come in the order in which the registry first names them, the
//! commands of one category in the order of the registry.

use vstd::prelude::*;
use crate::registry::{command_views, CommandCategory, CommandMeta, CommandView, ParameterView};
use crate::text::{lemma_string_views_push, string_views};

verus! {

/// The commands of one category, by their index in the registry.
#[derive(Debug, PartialEq, Eq)]
pub struct HelpGroup {
    pub category: CommandCategory,
    pub members: Vec<usize>,
}

/// A group, as contracts see it.
pub struct HelpGroupView {
    pub category: CommandCategory,
    pub members: Seq<usize>,
}

impl View for HelpGroup {
    type V = HelpGroupView;

    open spec fn view(&self) -> HelpGroupView {
        HelpGroupView { category: self.category, members: self.members@ }
    }
}

/// The views of `groups`, in order.
pub open spec fn group_views(groups: Seq<HelpGroup>) -> Seq<HelpGroupView> {
    groups.map_values(|g: HelpGroup| g@)
}

/// The index of the first of `groups` that is of `category`, or
/// `groups.len()` when there is none.
pub open spec fn position_of(groups: Seq<HelpGroupView>, category: CommandCategory) -> int
    decreases groups.len(),
{
    if groups.len() == 0 || groups[0].category == category {
        0
    } else {
        1 + position_of(groups.skip(1), category)
    }
}

/// `groups` with `index` added as the last member of the group of
/// `category`; where there is no such group yet, one is added behind the
/// others.
pub open spec fn with_member(
    groups: Seq<HelpGroupView>,
    category: CommandCategory,
    index: usize,
) -> Seq<HelpGroupView> {
    let at = position_of(groups, category);
    if at < groups.len() {
        groups.update(at, HelpGroupView { category, members: groups[at].members.push(index) })
    } else {
        groups.push(HelpGroupView { category, members: seq![index] })
    }
}

/// The groups of `commands`: each command, from first to last, joins the
/// group of its category.
pub open spec fn grouped(commands: Seq<CommandView>) -> Seq<HelpGroupView>
    decreases commands.len(),
{
    if commands.len() == 0 {
        Seq::empty()
    } else {
        with_member(
            grouped(commands.drop_last()),
            commands.last().category,
            (commands.len() - 1) as usize,
        )
    }
}

/// Whether every member of every group is an index below `n`.
pub open spec fn members_below(groups: Seq<HelpGroupView>, n: int) -> bool {
    forall|g: int, k: int|
        0 <= g < groups.len() && 0 <= k < groups[g].members.len() ==> (
        #[trigger] groups[g].members[k]) < n
}

/// The first group of `category` is at `at` when none before it is of that
/// category and the one at `at` is, or there are no more groups.
pub proof fn lemma_position_of(groups: Seq<HelpGroupView>, category: CommandCategory, at: int)
    requires
        0 <= at <= groups.len(),
        forall|g: int| 0 <= g < at ==> (#[trigger] groups[g]).category != category,
        at == groups.len() || groups[at].category == category,
    ensures
        position_of(groups, category) == at,
    decreases groups.len(),
{
    if at > 0 {
        let rest = groups.skip(1);
        assert(groups[0].category != category);
        assert forall|g: int| 0 <= g < at - 1 implies (#[trigger] rest[g]).category != category by {
            assert(rest[g] == groups[g + 1]);
        }
        lemma_position_of(rest, category, at - 1);
    }
}

/// Groups the commands by category.
pub fn group_by_category(commands: &Vec<CommandMeta>) -> (groups: Vec<HelpGroup>)
    ensures
        group_views(groups@) == grouped(command_views(commands@)),
        members_below(group_views(groups@), commands.len() as int),
{
    let ghost all = command_views(commands@);
    let mut groups: Vec<HelpGroup> = Vec::new();
    let mut i: usize = 0;
    assert(group_views(groups@) =~= grouped(all.take(0)));
    while i < commands.len()
        invariant
            i <= commands.len(),
            all == command_views(commands@),
            group_views(groups@) == grouped(all.take(i as int)),
            members_below(group_views(groups@), i as int),
        decreases commands.len() - i,
    {
        let category = commands[i].category;
        let mut at: usize = 0;
        while at < groups.len() && groups[at].category != category
            invariant
                at <= groups.len(),
                forall|g: int|
                    0 <= g < at ==> (#[trigger] group_views(groups@)[g]).category != category,
            decreases groups.len() - at,
        {
            at += 1;
        }
        let ghost before = group_views(groups@);
        proof {
            lemma_position_of(before, category, at as int);
            assert(all.take(i + 1).drop_last() =~= all.take(i as int));
            assert(all.take(i + 1).last().category == category);
        }
        if at < groups.len() {
            let mut group = groups.remove(at);
            group.members.push(i);
            groups.insert(at, group);
            assert(group_views(groups@) =~= with_member(before, category, i));
        } else {
            let mut members: Vec<usize> = Vec::new();
            members.push(i);
            groups.push(HelpGroup { category, members });
            assert(group_views(groups@) =~= with_member(before, category, i));
        }
        i += 1;
    }
    assert(all.take(commands.len() as int) =~= all);
    groups
}

/// Where the first group of `category` stands: among the groups or behind
/// them, behind groups of other categories only, and on a group of
/// `category` unless there is none.
pub proof fn lemma_position_of_is_first(groups: Seq<HelpGroupView>, category: CommandCategory)
    ensures
        0 <= position_of(groups, category) <= groups.len(),
        forall|g: int|
            0 <= g < position_of(groups, category) ==> (#[trigger] groups[g]).category != category,
        position_of(groups, category) < groups.len() ==> groups[position_of(
            groups,
            category,
        )].category == category,
    decreases groups.len(),
{
    if groups.len() == 0 || groups[0].category == category {
    } else {
        let rest = groups.skip(1);
        lemma_position_of_is_first(rest, category);
        assert forall|g: int| 0 <= g < position_of(groups, category) implies (
        #[trigger] groups[g]).category != category by {
            if g > 0 {
                assert(rest[g - 1] == groups[g]);
            }
        }
        if position_of(groups, category) < groups.len() {
            assert(rest[position_of(rest, category)] == groups[position_of(groups, category)]);
        }
    }
}

/// Whether the command at index `i` is a member of one of `groups`.
pub open spec fn is_listed(groups: Seq<HelpGroupView>, i: int) -> bool {
    exists|g: int, k: int|
        0 <= g < groups.len() && 0 <= k < groups[g].members.len() && #[trigger] groups[g].members[k]
            == i
}

/// Whether `groups` list `commands` by category: no two groups are of the
/// same category; every group has members; every member is the index of a
/// command of the group's category; the members of a group ascend; every
/// command is a member of some group; and the groups stand in the order of
/// their first members.
pub open spec fn is_grouping(commands: Seq<CommandView>, groups: Seq<HelpGroupView>) -> bool {
    &&& forall|a: int, b: int|
        0 <= a < b < groups.len() ==> (#[trigger] groups[a]).category != (
        #[trigger] groups[b]).category
    &&& forall|g: int| 0 <= g < groups.len() ==> (#[trigger] groups[g]).members.len() > 0
    &&& forall|g: int, k: int|
        0 <= g < groups.len() && 0 <= k < groups[g].members.len() ==> (
        #[trigger] groups[g].members[k]) < commands.len() && commands[groups[g].members[k] as int].category
            == groups[g].category
    &&& forall|g: int, j: int, k: int|
        0 <= g < groups.len() && 0 <= j < k < groups[g].members.len() ==> (
        #[trigger] groups[g].members[j]) < (#[trigger] groups[g].members[k])
    &&& forall|i: int| 0 <= i < commands.len() ==> #[trigger] is_listed(groups, i)
    &&& forall|a: int, b: int|
        0 <= a < b < groups.len() ==> (#[trigger] groups[a]).members[0] < (
        #[trigger] groups[b]).members[0]
}

/// The groups of `commands` list them by category: every command once, under
/// its own category, in the order of the registry.
pub proof fn law_grouped_lists_by_category(commands: Seq<CommandView>)
    requires
        commands.len() <= usize::MAX,
    ensures
        is_grouping(commands, grouped(commands)),
    decreases commands.len(),
{
    if commands.len() > 0 {
        let before = commands.drop_last();
        let old_groups = grouped(before);
        law_grouped_lists_by_category(before);
        let category = commands.last().category;
        let index = (commands.len() - 1) as usize;
        let at = position_of(old_groups, category);
        lemma_position_of_is_first(old_groups, category);
        let groups = grouped(commands);
        assert(groups == with_member(old_groups, category, index));
        assert forall|g: int, k: int|
            0 <= g < old_groups.len() && 0 <= k < old_groups[g].members.len() implies (
        #[trigger] groups[g].members[k]) == old_groups[g].members[k] && groups[g].category
            == old_groups[g].category by {}
        assert forall|g: int, k: int|
            0 <= g < groups.len() && 0 <= k < groups[g].members.len() implies (
        #[trigger] groups[g].members[k]) < commands.len() && commands[groups[g].members[k] as int].category
            == groups[g].category by {
            if g < old_groups.len() && k < old_groups[g].members.len() {
                let i = old_groups[g].members[k];
                assert(commands[i as int] == before[i as int]);
            }
        }
        assert forall|g: int, j: int, k: int|
            0 <= g < groups.len() && 0 <= j < k < groups[g].members.len() implies (
        #[trigger] groups[g].members[j]) < (#[trigger] groups[g].members[k]) by {
            if g < old_groups.len() && k < old_groups[g].members.len() {
            } else if g < old_groups.len() {
                assert(old_groups[g].members[j] < before.len());
            }
        }
        assert forall|i: int| 0 <= i < commands.len() implies #[trigger] is_listed(groups, i) by {
            if i < before.len() {
                assert(is_listed(old_groups, i));
                let (g, k) = choose|g: int, k: int|
                    0 <= g < old_groups.len() && 0 <= k < old_groups[g].members.len()
                        && #[trigger] old_groups[g].members[k] == i;
                assert(groups[g].members[k] == i);
            } else if at < old_groups.len() {
                assert(groups[at].members[old_groups[at].members.len() as int] == i);
            } else {
                assert(groups[at].members[0] == i);
            }
        }
        assert forall|a: int, b: int| 0 <= a < b < groups.len() implies (
        #[trigger] groups[a]).members[0] < (#[trigger] groups[b]).members[0] by {
            assert(old_groups[a].members.len() > 0);
            assert(groups[a].members[0] == old_groups[a].members[0]);
            if b < old_groups.len() {
                assert(old_groups[b].members.len() > 0);
                assert(groups[b].members[0] == old_groups[b].members[0]);
            } else {
                assert(old_groups[a].members[0] < before.len());
            }
        }
        assert forall|a: int, b: int| 0 <= a < b < groups.len() implies (
        #[trigger] groups[a]).category != (#[trigger] groups[b]).category by {
            assert(old_groups[a].members.len() > 0);
            assert(groups[a].members[0] == old_groups[a].members[0]);
            if b < old_groups.len() {
                assert(old_groups[b].members.len() > 0);
                assert(groups[b].members[0] == old_groups[b].members[0]);
            }
        }
    }
}

/// No command is listed twice: two places in the groups that hold the same
/// index are the same place.
pub proof fn law_listed_once(
    commands: Seq<CommandView>,
    groups: Seq<HelpGroupView>,
    g1: int,
    k1: int,
    g2: int,
    k2: int,
)
    requires
        is_grouping(commands, groups),
        0 <= g1 < groups.len(),
        0 <= k1 < groups[g1].members.len(),
        0 <= g2 < groups.len(),
        0 <= k2 < groups[g2].members.len(),
        groups[g1].members[k1] == groups[g2].members[k2],
    ensures
        g1 == g2,
        k1 == k2,
{
    let i = groups[g1].members[k1];
    assert(commands[i as int].category == groups[g1].category);
    assert(commands[groups[g2].members[k2] as int].category == groups[g2].category);
    if g1 < g2 {
        assert(groups[g1].category != groups[g2].category);
    } else if g2 < g1 {
        assert(groups[g2].category != groups[g1].category);
    } else if k1 < k2 {
        assert(groups[g1].members[k1] < groups[g1].members[k2]);
    } else if k2 < k1 {
        assert(groups[g1].members[k2] < groups[g1].members[k1]);
    }
}

/// The name under which a category is listed.
pub open spec fn category_label(category: CommandCategory) -> Seq<char> {
    match category {
        CommandCategory::General => "General"@,
        CommandCategory::Taxes => "Taxes"@,
    }
}

/// The line that heads the group of `category`.
pub open spec fn header_line(category: CommandCategory) -> Seq<char> {
    category_label(category) + ":"@
}

/// The parameters of a command as they are listed: each name in angle
/// brackets, behind a space.
pub open spec fn parameters_text(parameters: Seq<ParameterView>) -> Seq<char>
    decreases parameters.len(),
{
    if parameters.len() == 0 {
        Seq::empty()
    } else {
        parameters_text(parameters.drop_last()) + " <"@ + parameters.last().name + ">"@
    }
}

/// The line that lists one command: its name, its parameters and its
/// description.
pub open spec fn command_line(command: CommandView) -> Seq<char> {
    "  "@ + command.name + parameters_text(command.parameters) + " - "@ + command.description
}

/// The lines of the commands at `members`, in that order.
pub open spec fn member_lines(commands: Seq<CommandView>, members: Seq<usize>) -> Seq<Seq<char>> {
    members.map_values(|i: usize| command_line(commands[i as int]))
}

/// The lines of `groups`: for each group its header, then its members.
pub open spec fn lines_of(commands: Seq<CommandView>, groups: Seq<HelpGroupView>) -> Seq<
    Seq<char>,
>
    decreases groups.len(),
{
    if groups.len() == 0 {
        Seq::empty()
    } else {
        lines_of(commands, groups.drop_last()) + seq![header_line(groups.last().category)]
            + member_lines(commands, groups.last().members)
    }
}

/// The help listing of `commands`.
pub open spec fn help_lines(commands: Seq<CommandView>) -> Seq<Seq<char>> {
    lines_of(commands, grouped(commands))
}

/// The line that lists `command`.
pub fn describe(command: &CommandMeta) -> (line: String)
    ensures
        line@ == command_line(command@),
{
    let mut line = "  ".to_owned();
    line.append(command.name.as_str());
    let ghost start = line@;
    let mut i: usize = 0;
    assert(command@.parameters.take(0) =~= Seq::empty());
    while i < command.parameters.len()
        invariant
            i <= command.parameters.len(),
            line@ == start + parameters_text(command@.parameters.take(i as int)),
        decreases command.parameters.len() - i,
    {
        line.append(" <");
        line.append(command.parameters[i].name.as_str());
        line.append(">");
        proof {
            let now = command@.parameters.take(i + 1);
            assert(now.drop_last() =~= command@.parameters.take(i as int));
            assert(now.last().name == command.parameters@[i as int].name@);
            assert(line@ =~= start + parameters_text(now));
        }
        i += 1;
    }
    assert(command@.parameters.take(command.parameters.len() as int) =~= command@.parameters);
    line.append(" - ");
    line.append(command.description.as_str());
    assert(line@ =~= command_line(command@));
    line
}

/// The line that heads the group of `category`.
pub fn heading(category: CommandCategory) -> (line: String)
    ensures
        line@ == header_line(category),
{
    let mut line = match category {
        CommandCategory::General => "General".to_owned(),
        CommandCategory::Taxes => "Taxes".to_owned(),
    };
    line.append(":");
    line
}

/// The help listing of `commands`, line by line.
pub fn display_help(commands: &Vec<CommandMeta>) -> (lines: Vec<String>)
    ensures
        string_views(lines@) == help_lines(command_views(commands@)),
{
    let groups = group_by_category(commands);
    let ghost all = command_views(commands@);
    let ghost views = group_views(groups@);
    let mut lines: Vec<String> = Vec::new();
    let mut g: usize = 0;
    assert(string_views(lines@) =~= lines_of(all, views.take(0)));
    while g < groups.len()
        invariant
            g <= groups.len(),
            all == command_views(commands@),
            views == group_views(groups@),
            members_below(views, commands.len() as int),
            string_views(lines@) == lines_of(all, views.take(g as int)),
        decreases groups.len() - g,
    {
        let group = &groups[g];
        assert(views[g as int] == group@);
        let head = heading(group.category);
        proof {
            lemma_string_views_push(lines@, head);
        }
        lines.push(head);
        let ghost base = lines_of(all, views.take(g as int)) + seq![header_line(group.category)];
        let mut k: usize = 0;
        assert(string_views(lines@) =~= base + member_lines(all, group.members@.take(0)));
        while k < group.members.len()
            invariant
                k <= group.members.len(),
                g < groups.len(),
                all == command_views(commands@),
                views == group_views(groups@),
                views[g as int] == group@,
                members_below(views, commands.len() as int),
                string_views(lines@) == base + member_lines(all, group.members@.take(k as int)),
            decreases group.members.len() - k,
        {
            let index = group.members[k];
            assert(views[g as int].members[k as int] == index);
            let line = describe(&commands[index]);
            proof {
                lemma_string_views_push(lines@, line);
                assert(all[index as int] == commands@[index as int]@);
                assert(member_lines(all, group.members@.take(k + 1)) =~= member_lines(
                    all,
                    group.members@.take(k as int),
                ).push(line@));
            }
            lines.push(line);
            k += 1;
        }
        proof {
            assert(group.members@.take(group.members.len() as int) =~= group.members@);
            assert(views.take(g + 1).drop_last() =~= views.take(g as int));
            assert(views.take(g + 1).last() == group@);
        }
        g += 1;
    }
    assert(views.take(groups.len() as int) =~= views);
    lines
}

} // verus!
