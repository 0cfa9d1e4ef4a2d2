//! The table of commands and their subcommands that completion is built from.
use vstd::prelude::*;

verus! {

/// A command and its subcommands, as the command-line definition nests them.
pub struct CommandNode {
    pub name: String,
    pub children: Vec<CommandNode>,
}

/// One row of the completion table: a command, its nesting level and the
/// names of its direct subcommands.
pub struct SubCmd {
    pub level: usize,
    pub command_name: String,
    pub subcommands: Vec<String>,
}

/// Completion over a table of commands.
pub struct CommandCompleter {
    pub subcommands: Vec<SubCmd>,
}

pub open spec fn row_view(r: SubCmd) -> (nat, Seq<char>, Seq<Seq<char>>) {
    (r.level as nat, r.command_name@, r.subcommands@.map_values(|s: String| s@))
}

pub open spec fn rows_view(rs: Seq<SubCmd>) -> Seq<(nat, Seq<char>, Seq<Seq<char>>)> {
    rs.map_values(|r: SubCmd| row_view(r))
}

pub open spec fn child_names(node: CommandNode) -> Seq<Seq<char>> {
    node.children@.map_values(|c: CommandNode| c.name@)
}

pub open spec fn next_level(level: nat) -> nat {
    if level < usize::MAX {
        level + 1
    } else {
        level
    }
}

/// The rows for `node` at `level`: those of its walked children, in order,
/// then its own row.
pub open spec fn node_rows(node: CommandNode, level: nat) -> Seq<(nat, Seq<char>, Seq<Seq<char>>)>
    decreases node, node.children@.len() + 1,
{
    children_rows(node, level, node.children@.len()) + seq![(level, node.name@, child_names(node))]
}

/// The rows of the first `k` children of `node` that are walked. A child is
/// walked when it has subcommands of its own; every child at level 0 is.
pub open spec fn children_rows(node: CommandNode, level: nat, k: nat) -> Seq<(nat, Seq<char>, Seq<Seq<char>>)>
    decreases node, k,
{
    if k == 0 || k > node.children@.len() {
        Seq::empty()
    } else {
        let c = node.children@[k - 1];
        children_rows(node, level, (k - 1) as nat) + if c.children@.len() > 0 || level == 0 {
            node_rows(c, next_level(level))
        } else {
            Seq::empty()
        }
    }
}

/// Appends the rows of `app` and of the commands below it, deepest first.
pub fn all_subcommand(app: &CommandNode, beginlevel: usize, input: &mut Vec<SubCmd>)
    ensures
        rows_view(final(input)@) == rows_view(old(input)@) + node_rows(*app, beginlevel as nat),
    decreases *app, app.children@.len() + 1,
{
    let nextlevel = beginlevel.saturating_add(1);
    let mut subcmds: Vec<String> = Vec::new();
    let mut i: usize = 0;
    while i < app.children.len()
        invariant
            i <= app.children@.len(),
            nextlevel == next_level(beginlevel as nat),
            subcmds@.map_values(|s: String| s@) == child_names(*app).take(i as int),
            rows_view(input@) == rows_view(old(input)@) + children_rows(*app, beginlevel as nat, i as nat),
        decreases app.children@.len() - i,
    {
        let item = &app.children[i];
        let ghost prev = subcmds@;
        subcmds.push(item.name.clone());
        assert(subcmds@.map_values(|s: String| s@) =~= prev.map_values(|s: String| s@).push(item.name@));
        assert(child_names(*app).take(i + 1) =~= child_names(*app).take(i as int).push(item.name@));
        if item.children.len() > 0 || beginlevel == 0 {
            all_subcommand(item, nextlevel, input);
            assert(rows_view(input@) =~= rows_view(old(input)@) + children_rows(*app, beginlevel as nat, (i + 1) as nat));
        } else {
            assert(children_rows(*app, beginlevel as nat, (i + 1) as nat) =~= children_rows(*app, beginlevel as nat, i as nat));
        }
        i = i + 1;
    }
    assert(child_names(*app).take(i as int) =~= child_names(*app));
    let ghost prev = input@;
    input.push(SubCmd { level: beginlevel, command_name: app.name.clone(), subcommands: subcmds });
    assert(rows_view(input@) =~= rows_view(prev).push((beginlevel as nat, app.name@, child_names(*app))));
}

/// The completion table of a command definition, rooted at level 0.
pub fn subcommands(app: &CommandNode) -> (r: Vec<SubCmd>)
    ensures
        rows_view(r@) == node_rows(*app, 0),
{
    let mut subcmds: Vec<SubCmd> = Vec::new();
    all_subcommand(app, 0, &mut subcmds);
    assert(rows_view(Seq::<SubCmd>::empty()) =~= Seq::empty());
    assert(node_rows(*app, 0) =~= Seq::empty() + node_rows(*app, 0));
    subcmds
}

/// A completer over the table of `app`.
pub fn get_command_completer(app: &CommandNode) -> (r: CommandCompleter)
    ensures
        rows_view(r.subcommands@) == node_rows(*app, 0),
{
    CommandCompleter { subcommands: subcommands(app) }
}

} // verus!
