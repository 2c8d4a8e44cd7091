//! The tree of server groups.

use vstd::prelude::*;

use crate::collections::{first_where, lemma_first_where, lemma_is_absent, lemma_is_first};
use crate::config::{
    full_id, full_id_text, group_views, is_short_id, nonempty_texts, server_views, short_id,
    ConfigView, GroupView, RemiaftConfig, ServerConfig, ServerGroup, ServerView,
};
use crate::text::{
    copy_opt, list_contains, opt_text, pieces, same_opt, same_opt_text, same_text, split_on, texts,
    trim, trimmed,
};

verus! {

/// The names along a group path: the trimmed pieces between slashes that are
/// not empty.
pub open spec fn path_names(path: Seq<char>) -> Seq<Seq<char>> {
    pieces(path, '/').map_values(|piece: Seq<char>| trimmed(piece)).filter(
        |part: Seq<char>| part.len() > 0,
    )
}

/// The position of the first group with the given parent and name.
pub open spec fn child_position(
    groups: Seq<GroupView>,
    parent: Option<Seq<char>>,
    name: Seq<char>,
) -> Option<int> {
    first_where(groups, |group: GroupView| group.parent_id == parent && group.name == name)
}

/// The groups after one of the given name has been made sure of, and the
/// identifier of that group. A new group's identifier ends in `suffix`.
pub open spec fn with_group(
    groups: Seq<GroupView>,
    parent: Option<Seq<char>>,
    name: Seq<char>,
    suffix: Seq<char>,
) -> (Seq<GroupView>, Seq<char>) {
    match child_position(groups, parent, name) {
        Some(i) => (groups, groups[i].id),
        None => {
            let id = full_id(name, suffix);
            (groups.push(GroupView { id, name, parent_id: parent }), id)
        },
    }
}

/// The groups after each name along a path has been made sure of, each below
/// the one before, and the identifier of the last.
pub open spec fn with_path(
    groups: Seq<GroupView>,
    names: Seq<Seq<char>>,
    suffixes: Seq<Seq<char>>,
) -> (Seq<GroupView>, Option<Seq<char>>)
    decreases names.len(),
{
    if names.len() == 0 {
        (groups, None)
    } else {
        let (before, parent) = with_path(groups, names.drop_last(), suffixes);
        let (after, id) = with_group(before, parent, names.last(), suffixes[names.len() - 1]);
        (after, Some(id))
    }
}

/// A suffix for every name.
pub open spec fn are_short_ids(suffixes: Seq<Seq<char>>, count: nat) -> bool {
    suffixes.len() == count && forall|i: int| 0 <= i < count ==> is_short_id(#[trigger] suffixes[i])
}

proof fn lemma_with_path_grows(
    groups: Seq<GroupView>,
    names: Seq<Seq<char>>,
    suffixes: Seq<Seq<char>>,
)
    ensures
        groups.is_prefix_of(with_path(groups, names, suffixes).0),
    decreases names.len(),
{
    if names.len() > 0 {
        lemma_with_path_grows(groups, names.drop_last(), suffixes);
        let (before, parent) = with_path(groups, names.drop_last(), suffixes);
        let after = with_path(groups, names, suffixes).0;
        assert(before =~= after.take(before.len() as int));
        assert(groups =~= after.take(groups.len() as int));
    } else {
        assert(groups =~= groups.take(groups.len() as int));
    }
}

proof fn lemma_path_is_found(
    groups: Seq<GroupView>,
    names: Seq<Seq<char>>,
    suffixes: Seq<Seq<char>>,
    later: Seq<GroupView>,
    others: Seq<Seq<char>>,
)
    requires
        with_path(groups, names, suffixes).0.is_prefix_of(later),
    ensures
        with_path(later, names, others) == (later, with_path(groups, names, suffixes).1),
    decreases names.len(),
{
    if names.len() > 0 {
        let head = names.drop_last();
        let (before, parent) = with_path(groups, head, suffixes);
        let after = with_path(groups, names, suffixes).0;
        assert(before =~= later.take(before.len() as int)) by {
            assert(before =~= after.take(before.len() as int));
            assert(after =~= later.take(after.len() as int));
        }
        lemma_path_is_found(groups, head, suffixes, later, others);
        let cond = |group: GroupView| group.parent_id == parent && group.name == names.last();
        lemma_first_where(before, cond);
        let at = match child_position(before, parent, names.last()) {
            Some(i) => i,
            None => before.len() as int,
        };
        assert(after[at] == later[at]) by {
            assert(after =~= later.take(after.len() as int));
        }
        assert forall|k: int| 0 <= k < at implies !cond(#[trigger] later[k]) by {
            assert(later[k] == before[k]) by {
                assert(before =~= later.take(before.len() as int));
            }
        }
        assert(cond(later[at]));
        lemma_is_first(later, cond, at);
    }
}

/// A path that has been made sure of is found from then on: asking for it
/// again adds no group and gives the same identifier.
pub proof fn path_is_made_once(
    groups: Seq<GroupView>,
    names: Seq<Seq<char>>,
    suffixes: Seq<Seq<char>>,
    others: Seq<Seq<char>>,
)
    ensures
        with_path(with_path(groups, names, suffixes).0, names, others) == with_path(
            groups,
            names,
            suffixes,
        ),
{
    let after = with_path(groups, names, suffixes).0;
    assert(after =~= after.take(after.len() as int));
    lemma_path_is_found(groups, names, suffixes, after, others);
}

/// The group that names lead to from the top, each below the one before, if
/// there is one for each name. No name leads to no group.
pub open spec fn led_to(groups: Seq<GroupView>, names: Seq<Seq<char>>) -> Option<Option<Seq<char>>>
    decreases names.len(),
{
    if names.len() == 0 {
        Some(None)
    } else {
        match led_to(groups, names.drop_last()) {
            Some(parent) => match child_position(groups, parent, names.last()) {
                Some(i) => Some(Some(groups[i].id)),
                None => None,
            },
            None => None,
        }
    }
}

proof fn lemma_present_path_is_led_to(
    groups: Seq<GroupView>,
    names: Seq<Seq<char>>,
    suffixes: Seq<Seq<char>>,
)
    requires
        with_path(groups, names, suffixes).0 == groups,
    ensures
        led_to(groups, names) == Some(with_path(groups, names, suffixes).1),
    decreases names.len(),
{
    if names.len() > 0 {
        let (before, parent) = with_path(groups, names.drop_last(), suffixes);
        lemma_with_path_grows(groups, names.drop_last(), suffixes);
        assert(before.len() <= groups.len());
        assert(before =~= groups);
        lemma_present_path_is_led_to(groups, names.drop_last(), suffixes);
    }
}

/// The names of a path that has been made sure of lead to the group whose
/// identifier was given.
pub proof fn path_leads_to_its_group(
    groups: Seq<GroupView>,
    names: Seq<Seq<char>>,
    suffixes: Seq<Seq<char>>,
)
    ensures
        led_to(with_path(groups, names, suffixes).0, names) == Some(
            with_path(groups, names, suffixes).1,
        ),
{
    path_is_made_once(groups, names, suffixes, suffixes);
    lemma_present_path_is_led_to(with_path(groups, names, suffixes).0, names, suffixes);
}

/// Making sure of a path keeps every group that there was, in its place.
pub proof fn making_a_path_keeps_groups(
    groups: Seq<GroupView>,
    names: Seq<Seq<char>>,
    suffixes: Seq<Seq<char>>,
)
    ensures
        groups.is_prefix_of(with_path(groups, names, suffixes).0),
{
    lemma_with_path_grows(groups, names, suffixes);
}

/// The identifiers that a walk down from `id` meets among the first `upto`
/// groups, each followed by those below it, at most `depth` levels down.
pub open spec fn walk_down(groups: Seq<GroupView>, id: Seq<char>, upto: int, depth: nat) -> Seq<
    Seq<char>,
>
    decreases depth, upto,
{
    if upto <= 0 || depth == 0 {
        Seq::empty()
    } else {
        let before = walk_down(groups, id, upto - 1, depth);
        let group = groups[upto - 1];
        if group.parent_id == Some(id) {
            before.push(group.id) + walk_down(
                groups,
                group.id,
                groups.len() as int,
                (depth - 1) as nat,
            )
        } else {
            before
        }
    }
}

/// The identifiers of the groups below `id`, each before those below it. The
/// walk goes down as many levels as there are groups.
pub open spec fn descendants(groups: Seq<GroupView>, id: Seq<char>) -> Seq<Seq<char>> {
    walk_down(groups, id, groups.len() as int, groups.len())
}

/// Whether every way down from `id` ends after at most `depth` groups.
pub open spec fn ends_within(groups: Seq<GroupView>, id: Seq<char>, depth: nat) -> bool
    decreases depth,
{
    forall|i: int|
        0 <= i < groups.len() && (#[trigger] groups[i]).parent_id == Some(id) ==> depth > 0
            && ends_within(groups, groups[i].id, (depth - 1) as nat)
}

/// Whether every way down from `id` ends: no group below it comes round to
/// itself.
pub open spec fn is_well_founded(groups: Seq<GroupView>, id: Seq<char>) -> bool {
    exists|depth: nat| ends_within(groups, id, depth)
}

proof fn lemma_ends_later(groups: Seq<GroupView>, id: Seq<char>, depth: nat, more: nat)
    requires
        ends_within(groups, id, depth),
        depth <= more,
    ensures
        ends_within(groups, id, more),
    decreases depth,
{
    assert forall|i: int|
        0 <= i < groups.len() && (#[trigger] groups[i]).parent_id == Some(id) implies more > 0
        && ends_within(groups, groups[i].id, (more - 1) as nat) by {
        lemma_ends_later(groups, groups[i].id, (depth - 1) as nat, (more - 1) as nat);
    }
}

/// A way down of `depth` groups that cannot be bounded by less gives as many
/// different groups.
proof fn lemma_long_way_down(groups: Seq<GroupView>, id: Seq<char>, depth: nat) -> (chain: Seq<int>)
    requires
        ends_within(groups, id, depth),
        depth > 0 ==> !ends_within(groups, id, (depth - 1) as nat),
    ensures
        chain.len() == depth,
        forall|k: int|
            0 <= k < depth ==> 0 <= #[trigger] chain[k] < groups.len() && ends_within(
                groups,
                groups[chain[k]].id,
                k as nat,
            ) && (k > 0 ==> !ends_within(groups, groups[chain[k]].id, (k - 1) as nat)),
    decreases depth,
{
    if depth == 0 {
        Seq::empty()
    } else {
        let less = (depth - 1) as nat;
        let i = choose|i: int|
            0 <= i < groups.len() && (#[trigger] groups[i]).parent_id == Some(id) && !(less > 0
                && ends_within(groups, groups[i].id, (less - 1) as nat));
        assert(ends_within(groups, groups[i].id, less));
        let rest = lemma_long_way_down(groups, groups[i].id, less);
        let chain = rest.push(i);
        assert forall|k: int| 0 <= k < depth implies 0 <= #[trigger] chain[k] < groups.len()
            && ends_within(groups, groups[chain[k]].id, k as nat) && (k > 0 ==> !ends_within(
            groups,
            groups[chain[k]].id,
            (k - 1) as nat,
        )) by {
            if k < less {
                assert(chain[k] == rest[k]);
            }
        }
        chain
    }
}

proof fn lemma_least_depth(groups: Seq<GroupView>, id: Seq<char>, depth: nat) -> (least: nat)
    requires
        ends_within(groups, id, depth),
    ensures
        least <= depth,
        ends_within(groups, id, least),
        least > 0 ==> !ends_within(groups, id, (least - 1) as nat),
    decreases depth,
{
    if depth > 0 && ends_within(groups, id, (depth - 1) as nat) {
        lemma_least_depth(groups, id, (depth - 1) as nat)
    } else {
        depth
    }
}

proof fn lemma_chain_is_short(groups: Seq<GroupView>, chain: Seq<int>)
    requires
        forall|k: int|
            0 <= k < chain.len() ==> 0 <= #[trigger] chain[k] < groups.len() && ends_within(
                groups,
                groups[chain[k]].id,
                k as nat,
            ) && (k > 0 ==> !ends_within(groups, groups[chain[k]].id, (k - 1) as nat)),
    ensures
        chain.len() <= groups.len(),
{
    assert(chain.no_duplicates()) by {
        assert forall|a: int, b: int|
            0 <= a < chain.len() && 0 <= b < chain.len() && a != b implies chain[a] != chain[b] by {
            if chain[a] == chain[b] {
                let (low, high) = if a < b {
                    (a, b)
                } else {
                    (b, a)
                };
                lemma_ends_later(groups, groups[chain[low]].id, low as nat, (high - 1) as nat);
                assert(chain[low] == chain[high]);
            }
        }
    }
    chain.unique_seq_to_set();
    vstd::set_lib::lemma_int_range(0, groups.len() as int);
    assert(chain.to_set().subset_of(vstd::set_lib::set_int_range(0, groups.len() as int)));
    vstd::set_lib::lemma_len_subset(
        chain.to_set(),
        vstd::set_lib::set_int_range(0, groups.len() as int),
    );
}

/// Where every way down ends, it does so within as many levels as there are
/// groups.
proof fn lemma_depth_is_bounded(groups: Seq<GroupView>, id: Seq<char>)
    requires
        is_well_founded(groups, id),
    ensures
        ends_within(groups, id, groups.len()),
{
    let some = choose|depth: nat| ends_within(groups, id, depth);
    let least = lemma_least_depth(groups, id, some);
    let chain = lemma_long_way_down(groups, id, least);
    lemma_chain_is_short(groups, chain);
    lemma_ends_later(groups, id, least, groups.len());
}

/// Where every way down from a group ends, it does so within as many levels
/// as there are other groups.
pub proof fn lemma_group_depth(groups: Seq<GroupView>, at: int)
    requires
        0 <= at < groups.len(),
        is_well_founded(groups, groups[at].id),
    ensures
        ends_within(groups, groups[at].id, (groups.len() - 1) as nat),
{
    let id = groups[at].id;
    let some = choose|depth: nat| ends_within(groups, id, depth);
    let least = lemma_least_depth(groups, id, some);
    let rest = lemma_long_way_down(groups, id, least);
    let chain = rest.push(at);
    assert forall|k: int| 0 <= k < chain.len() implies 0 <= #[trigger] chain[k] < groups.len()
        && ends_within(groups, groups[chain[k]].id, k as nat) && (k > 0 ==> !ends_within(
        groups,
        groups[chain[k]].id,
        (k - 1) as nat,
    )) by {
        if k < least {
            assert(chain[k] == rest[k]);
        }
    }
    lemma_chain_is_short(groups, chain);
    lemma_ends_later(groups, id, least, (groups.len() - 1) as nat);
}

proof fn lemma_walk_depth(groups: Seq<GroupView>, id: Seq<char>, upto: int, depth: nat, more: nat)
    requires
        ends_within(groups, id, depth),
        depth <= more,
        upto <= groups.len(),
    ensures
        walk_down(groups, id, upto, more) == walk_down(groups, id, upto, depth),
    decreases depth, upto,
{
    if upto > 0 && more > 0 {
        let group = groups[upto - 1];
        if depth > 0 {
            lemma_walk_depth(groups, id, upto - 1, depth, more);
            if group.parent_id == Some(id) {
                lemma_walk_depth(
                    groups,
                    group.id,
                    groups.len() as int,
                    (depth - 1) as nat,
                    (more - 1) as nat,
                );
            }
        } else {
            lemma_no_children(groups, id, upto, more);
        }
    }
}

proof fn lemma_no_children(groups: Seq<GroupView>, id: Seq<char>, upto: int, depth: nat)
    requires
        ends_within(groups, id, 0),
        upto <= groups.len(),
    ensures
        walk_down(groups, id, upto, depth) == Seq::<Seq<char>>::empty(),
    decreases upto,
{
    if upto > 0 && depth > 0 {
        lemma_no_children(groups, id, upto - 1, depth);
        assert(groups[upto - 1].parent_id != Some(id));
    }
}

/// Where no group below `id` comes round to itself, the walk down from it is
/// complete: going further down finds nothing more.
pub proof fn descent_is_complete(groups: Seq<GroupView>, id: Seq<char>, depth: nat)
    requires
        is_well_founded(groups, id),
        depth >= groups.len(),
    ensures
        walk_down(groups, id, groups.len() as int, depth) == descendants(groups, id),
{
    lemma_depth_is_bounded(groups, id);
    lemma_walk_depth(groups, id, groups.len() as int, groups.len(), depth);
}

/// What the walk finds is a child, or is found below a child.
proof fn lemma_found_below(
    groups: Seq<GroupView>,
    id: Seq<char>,
    upto: int,
    depth: nat,
    found: Seq<char>,
) -> (i: int)
    requires
        walk_down(groups, id, upto, depth).contains(found),
        upto <= groups.len(),
    ensures
        0 <= i < upto,
        depth > 0,
        groups[i].parent_id == Some(id),
        groups[i].id == found || walk_down(
            groups,
            groups[i].id,
            groups.len() as int,
            (depth - 1) as nat,
        ).contains(found),
    decreases upto,
{
    let list = walk_down(groups, id, upto, depth);
    let k = choose|k: int| 0 <= k < list.len() && list[k] == found;
    let before = walk_down(groups, id, upto - 1, depth);
    let group = groups[upto - 1];
    if group.parent_id == Some(id) {
        let under = walk_down(groups, group.id, groups.len() as int, (depth - 1) as nat);
        if k < before.len() {
            assert(before[k] == found);
            lemma_found_below(groups, id, upto - 1, depth, found)
        } else {
            if k > before.len() {
                assert(under[k - before.len() - 1] == found);
            }
            upto - 1
        }
    } else {
        lemma_found_below(groups, id, upto - 1, depth, found)
    }
}

/// A child is found, and so is what is found below it.
proof fn lemma_child_is_found(
    groups: Seq<GroupView>,
    id: Seq<char>,
    upto: int,
    depth: nat,
    i: int,
    found: Seq<char>,
)
    requires
        0 <= i < upto <= groups.len(),
        depth > 0,
        groups[i].parent_id == Some(id),
        groups[i].id == found || walk_down(
            groups,
            groups[i].id,
            groups.len() as int,
            (depth - 1) as nat,
        ).contains(found),
    ensures
        walk_down(groups, id, upto, depth).contains(found),
    decreases upto,
{
    let list = walk_down(groups, id, upto, depth);
    let before = walk_down(groups, id, upto - 1, depth);
    let group = groups[upto - 1];
    if i < upto - 1 {
        lemma_child_is_found(groups, id, upto - 1, depth, i, found);
        let k = choose|k: int| 0 <= k < before.len() && before[k] == found;
        assert(list[k] == found);
    } else {
        let under = walk_down(groups, group.id, groups.len() as int, (depth - 1) as nat);
        if group.id == found {
            assert(list[before.len() as int] == found);
        } else {
            let k = choose|k: int| 0 <= k < under.len() && under[k] == found;
            assert(list[before.len() + 1 + k] == found);
        }
    }
}

/// Ways down from what is found are shorter.
proof fn lemma_found_ends_sooner(
    groups: Seq<GroupView>,
    id: Seq<char>,
    depth: nat,
    found: Seq<char>,
)
    requires
        ends_within(groups, id, depth),
        walk_down(groups, id, groups.len() as int, depth).contains(found),
    ensures
        depth > 0,
        ends_within(groups, found, (depth - 1) as nat),
    decreases depth,
{
    let i = lemma_found_below(groups, id, groups.len() as int, depth, found);
    assert(ends_within(groups, groups[i].id, (depth - 1) as nat));
    if groups[i].id != found {
        lemma_found_ends_sooner(groups, groups[i].id, (depth - 1) as nat, found);
        lemma_ends_later(groups, found, (depth - 2) as nat, (depth - 1) as nat);
    }
}

/// The groups below a found one are found too.
proof fn lemma_found_is_closed(
    groups: Seq<GroupView>,
    id: Seq<char>,
    depth: nat,
    found: Seq<char>,
    child: int,
)
    requires
        ends_within(groups, id, depth),
        found == id || walk_down(groups, id, groups.len() as int, depth).contains(found),
        0 <= child < groups.len(),
        groups[child].parent_id == Some(found),
    ensures
        walk_down(groups, id, groups.len() as int, depth).contains(groups[child].id),
    decreases depth,
{
    if walk_down(groups, id, groups.len() as int, depth).contains(found) {
        let i = lemma_found_below(groups, id, groups.len() as int, depth, found);
        assert(ends_within(groups, groups[i].id, (depth - 1) as nat));
        lemma_found_is_closed(groups, groups[i].id, (depth - 1) as nat, found, child);
        lemma_child_is_found(
            groups,
            id,
            groups.len() as int,
            depth,
            i,
            groups[child].id,
        );
    } else {
        assert(depth > 0);
        lemma_child_is_found(
            groups,
            id,
            groups.len() as int,
            depth,
            child,
            groups[child].id,
        );
    }
}

/// The identifiers that go when a group goes: its own and those below it.
pub open spec fn removed_ids(groups: Seq<GroupView>, id: Seq<char>) -> Seq<Seq<char>> {
    seq![id] + descendants(groups, id)
}

/// Whether the server is in one of the groups.
pub open spec fn is_in_groups(server: ServerView, ids: Seq<Seq<char>>) -> bool {
    match server.group_id {
        Some(id) => ids.contains(id),
        None => false,
    }
}

/// The server, moved up where its group goes.
pub open spec fn moved_up(
    server: ServerView,
    ids: Seq<Seq<char>>,
    parent: Option<Seq<char>>,
) -> ServerView {
    if is_in_groups(server, ids) {
        ServerView { group_id: parent, ..server }
    } else {
        server
    }
}

/// The number of servers in the groups.
pub open spec fn count_in_groups(servers: Seq<ServerView>, ids: Seq<Seq<char>>) -> nat {
    servers.filter(|server: ServerView| is_in_groups(server, ids)).len()
}

/// The position of the first group with this identifier.
pub open spec fn group_position(groups: Seq<GroupView>, id: Seq<char>) -> Option<int> {
    first_where(groups, |group: GroupView| group.id == id)
}

/// The settings without the group at `at` and those below it.
pub open spec fn without_group(config: ConfigView, at: int) -> ConfigView {
    let group = config.groups[at];
    let ids = removed_ids(config.groups, group.id);
    ConfigView {
        groups: config.groups.filter(|other: GroupView| !ids.contains(other.id)),
        servers: config.servers.map_values(
            |server: ServerView| moved_up(server, ids, group.parent_id),
        ),
        ..config
    }
}

/// What became of a deleted group.
#[derive(Debug)]
pub struct DeletedGroup {
    pub name: String,
    pub removed_group_ids: Vec<String>,
    pub moved_server_count: usize,
}

/// Deleting a group keeps every server, and changes nothing of it but its
/// group.
pub proof fn deleting_keeps_servers(config: ConfigView, at: int)
    requires
        0 <= at < config.groups.len(),
    ensures
        without_group(config, at).servers.len() == config.servers.len(),
        forall|i: int|
            0 <= i < config.servers.len() ==> (#[trigger] without_group(config, at).servers[i]) == (
            ServerView {
                group_id: without_group(config, at).servers[i].group_id,
                ..config.servers[i]
            }),
{
}

/// Where no group below the deleted one comes round to itself, nothing refers
/// to a group that went: no server is in one, and no group has one as its
/// parent.
pub proof fn deleting_leaves_no_reference(config: ConfigView, at: int)
    requires
        0 <= at < config.groups.len(),
        is_well_founded(config.groups, config.groups[at].id),
    ensures
        ({
            let ids = removed_ids(config.groups, config.groups[at].id);
            let after = without_group(config, at);
            &&& forall|i: int|
                0 <= i < after.servers.len() ==> !is_in_groups(#[trigger] after.servers[i], ids)
            &&& forall|i: int|
                0 <= i < after.groups.len() ==> match (#[trigger] after.groups[i]).parent_id {
                    Some(parent) => !ids.contains(parent),
                    None => true,
                }
        }),
{
    let groups = config.groups;
    let group = groups[at];
    let ids = removed_ids(groups, group.id);
    let below = descendants(groups, group.id);
    let after = without_group(config, at);
    lemma_depth_is_bounded(groups, group.id);
    assert forall|k: int| 0 <= k < ids.len() implies #[trigger] ids[k] == group.id
        || below.contains(ids[k]) by {
        if k > 0 {
            assert(below[k - 1] == ids[k]);
        }
    }
    assert forall|x: Seq<char>| below.contains(x) implies ids.contains(x) by {
        let k = choose|k: int| 0 <= k < below.len() && below[k] == x;
        assert(ids[k + 1] == x);
    }
    assert(ids[0] == group.id);
    if let Some(parent) = group.parent_id {
        if ids.contains(parent) {
            lemma_found_is_closed(groups, group.id, groups.len(), parent, at);
            let least = lemma_least_depth(groups, group.id, groups.len());
            lemma_walk_depth(groups, group.id, groups.len() as int, least, groups.len());
            lemma_found_ends_sooner(groups, group.id, least, group.id);
        }
    }
    assert forall|i: int| 0 <= i < after.servers.len() implies !is_in_groups(
        #[trigger] after.servers[i],
        ids,
    ) by {
        assert(after.servers[i] == moved_up(config.servers[i], ids, group.parent_id));
    }
    let pred = |other: GroupView| !ids.contains(other.id);
    assert forall|i: int| 0 <= i < after.groups.len() implies match (
    #[trigger] after.groups[i]).parent_id {
        Some(parent) => !ids.contains(parent),
        None => true,
    } by {
        groups.lemma_filter_pred(pred, i);
        groups.lemma_filter_contains_rev(pred, after.groups[i]);
        let k = choose|k: int| 0 <= k < groups.len() && groups[k] == after.groups[i];
        if let Some(parent) = groups[k].parent_id {
            if ids.contains(parent) {
                lemma_found_is_closed(groups, group.id, groups.len(), parent, k);
            }
        }
    }
}

fn trimmed_pieces(path: &str) -> (r: Vec<String>)
    ensures
        texts(r@) == pieces(path@, '/').map_values(|piece: Seq<char>| trimmed(piece)),
{
    let raw = split_on(path, '/');
    let ghost all = pieces(path@, '/').map_values(|piece: Seq<char>| trimmed(piece));
    let mut out: Vec<String> = Vec::new();
    let mut i: usize = 0;
    assert(texts(out@) =~= all.take(0));
    while i < raw.len()
        invariant
            i <= raw@.len(),
            texts(raw@) == pieces(path@, '/'),
            all == pieces(path@, '/').map_values(|piece: Seq<char>| trimmed(piece)),
            texts(out@) == all.take(i as int),
        decreases raw@.len() - i,
    {
        let ghost before = out@;
        out.push(trim(raw[i].as_str()).to_owned());
        assert(texts(raw@)[i as int] == raw@[i as int]@);
        assert(texts(out@) =~= texts(before).push(all[i as int]));
        assert(all.take(i + 1) =~= all.take(i as int).push(all[i as int]));
        i = i + 1;
    }
    assert(all.take(i as int) =~= all);
    out
}

impl RemiaftConfig {
    /// The position of the group with the given parent and name.
    pub fn find_child_group(&self, parent: &Option<String>, name: &str) -> (r: Option<usize>)
        ensures
            match r {
                Some(i) => i < self.groups@.len() && child_position(
                    self@.groups,
                    opt_text(*parent),
                    name@,
                ) == Some(i as int),
                None => child_position(self@.groups, opt_text(*parent), name@) == None::<int>,
            },
    {
        let ghost all = self@.groups;
        let ghost cond = |group: GroupView|
            group.parent_id == opt_text(*parent) && group.name == name@;
        let mut i: usize = 0;
        while i < self.groups.len()
            invariant
                i <= self.groups@.len(),
                all == self@.groups,
                cond == (|group: GroupView|
                    group.parent_id == opt_text(*parent) && group.name == name@),
                forall|k: int| 0 <= k < i ==> !cond(#[trigger] all[k]),
            decreases self.groups@.len() - i,
        {
            assert(all[i as int] == self.groups@[i as int]@);
            if same_opt(&self.groups[i].parent_id, parent) && same_text(
                self.groups[i].name.as_str(),
                name,
            ) {
                proof {
                    lemma_is_first(all, cond, i as int);
                }
                return Some(i);
            }
            i = i + 1;
        }
        proof {
            lemma_is_absent(all, cond);
        }
        None
    }

    /// The position of the group with this identifier.
    pub fn find_group(&self, id: &str) -> (r: Option<usize>)
        ensures
            match r {
                Some(i) => i < self.groups@.len() && group_position(self@.groups, id@) == Some(
                    i as int,
                ),
                None => group_position(self@.groups, id@) == None::<int>,
            },
    {
        let ghost all = self@.groups;
        let ghost cond = |group: GroupView| group.id == id@;
        let mut i: usize = 0;
        while i < self.groups.len()
            invariant
                i <= self.groups@.len(),
                all == self@.groups,
                cond == (|group: GroupView| group.id == id@),
                forall|k: int| 0 <= k < i ==> !cond(#[trigger] all[k]),
            decreases self.groups@.len() - i,
        {
            assert(all[i as int] == self.groups@[i as int]@);
            if same_text(self.groups[i].id.as_str(), id) {
                proof {
                    lemma_is_first(all, cond, i as int);
                }
                return Some(i);
            }
            i = i + 1;
        }
        proof {
            lemma_is_absent(all, cond);
        }
        None
    }

    /// Makes sure of a group, giving a new one an identifier that ends in the
    /// given text, and returns its identifier.
    pub fn ensure_group_as(&mut self, parent: &Option<String>, name: &str, suffix: &str) -> (r:
        String)
        ensures
            ({
                let (groups, id) = with_group(old(self)@.groups, opt_text(*parent), name@, suffix@);
                final(self)@ == (ConfigView { groups, ..old(self)@ }) && r@ == id
            }),
    {
        match self.find_child_group(parent, name) {
            Some(i) => {
                assert(self@.groups[i as int] == self.groups@[i as int]@);
                self.groups[i].id.clone()
            },
            None => {
                let id = full_id_text(name, suffix);
                let group = ServerGroup {
                    id: id.clone(),
                    name: name.to_owned(),
                    parent_id: copy_opt(parent),
                };
                self.groups.push(group);
                assert(self@.groups =~= old(self)@.groups.push(group@));
                id
            },
        }
    }

    /// Makes sure of every group along a path, and returns the identifier of
    /// the last one, if the path names any.
    pub fn ensure_group_path(&mut self, path: &str) -> (r: Option<String>)
        ensures
            exists|suffixes: Seq<Seq<char>>|
                are_short_ids(suffixes, path_names(path@).len()) && ({
                    let (groups, last) = #[trigger] with_path(
                        old(self)@.groups,
                        path_names(path@),
                        suffixes,
                    );
                    final(self)@ == (ConfigView { groups, ..old(self)@ }) && opt_text(r) == last
                }),
    {
        let raw = trimmed_pieces(path);
        let parts = nonempty_texts(&raw);
        let ghost names = path_names(path@);
        let ghost mut suffixes: Seq<Seq<char>> = Seq::empty();
        let mut last: Option<String> = None;
        let mut i: usize = 0;
        assert(names.take(0).len() == 0);
        while i < parts.len()
            invariant
                i <= parts@.len(),
                names == texts(parts@),
                suffixes.len() == i,
                forall|k: int| 0 <= k < i ==> is_short_id(#[trigger] suffixes[k]),
                self@.language == old(self)@.language,
                self@.java_path == old(self)@.java_path,
                self@.servers == old(self)@.servers,
                with_path(old(self)@.groups, names.take(i as int), suffixes) == (
                    self@.groups,
                    opt_text(last),
                ),
            decreases parts@.len() - i,
        {
            let ghost before = suffixes;
            assert(names[i as int] == parts@[i as int]@);
            assert(names.take(i + 1).drop_last() =~= names.take(i as int));
            let id = match self.find_child_group(&last, parts[i].as_str()) {
                Some(at) => {
                    proof {
                        let any = Seq::new(8, |k: int| '0');
                        assert(is_short_id(any));
                        suffixes = suffixes.push(any);
                        assert(self@.groups[at as int] == self.groups@[at as int]@);
                    }
                    self.groups[at].id.clone()
                },
                None => {
                    let suffix = short_id();
                    proof {
                        suffixes = suffixes.push(suffix@);
                    }
                    self.ensure_group_as(&last, parts[i].as_str(), suffix.as_str())
                },
            };
            proof {
                lemma_with_path_suffixes(
                    old(self)@.groups,
                    names.take(i as int),
                    before,
                    suffixes,
                );
            }
            last = Some(id);
            i = i + 1;
        }
        assert(names.take(i as int) =~= names);
        last
    }

    /// Appends the identifiers of the groups below one, at most `depth`
    /// levels down.
    pub fn collect_descendant_group_ids(&self, group_id: &str, depth: usize, output: &mut Vec<String>)
        ensures
            texts(final(output)@) == texts(old(output)@) + walk_down(
                self@.groups,
                group_id@,
                self@.groups.len() as int,
                depth as nat,
            ),
        decreases depth,
    {
        let ghost groups = self@.groups;
        if depth == 0 {
            assert(texts(output@) =~= texts(old(output)@) + Seq::<Seq<char>>::empty());
            return;
        }
        let mut i: usize = 0;
        assert(texts(output@) =~= texts(old(output)@) + Seq::<Seq<char>>::empty());
        while i < self.groups.len()
            invariant
                i <= self.groups@.len(),
                groups == self@.groups,
                depth > 0,
                texts(output@) == texts(old(output)@) + walk_down(
                    groups,
                    group_id@,
                    i as int,
                    depth as nat,
                ),
            decreases self.groups@.len() - i,
        {
            let ghost so_far = output@;
            assert(groups[i as int] == self.groups@[i as int]@);
            if same_opt_text(&self.groups[i].parent_id, group_id) {
                output.push(self.groups[i].id.clone());
                assert(texts(output@) =~= texts(so_far).push(groups[i as int].id));
                self.collect_descendant_group_ids(self.groups[i].id.as_str(), depth - 1, output);
                assert(texts(output@) =~= texts(old(output)@) + walk_down(
                    groups,
                    group_id@,
                    i + 1,
                    depth as nat,
                ));
            }
            i = i + 1;
        }
    }

    /// Deletes a group and those below it. Their servers move up to the
    /// parent of the deleted group.
    pub fn delete_group_preserving_servers(&mut self, group_id: &str) -> (r: Option<DeletedGroup>)
        ensures
            match group_position(old(self)@.groups, group_id@) {
                Some(at) => {
                    &&& final(self)@ == without_group(old(self)@, at)
                    &&& r matches Some(deleted)
                    &&& deleted.name@ == old(self)@.groups[at].name
                    &&& texts(deleted.removed_group_ids@) == removed_ids(
                        old(self)@.groups,
                        group_id@,
                    )
                    &&& deleted.moved_server_count == count_in_groups(
                        old(self)@.servers,
                        removed_ids(old(self)@.groups, group_id@),
                    )
                },
                None => r is None && final(self)@ == old(self)@,
            },
    {
        let at: usize = match self.find_group(group_id) {
            Some(at) => at,
            None => return None,
        };
        let ghost config = self@;
        let ghost ids = removed_ids(config.groups, group_id@);
        proof {
            lemma_first_where(config.groups, |group: GroupView| group.id == group_id@);
            assert(config.groups[at as int] == self.groups@[at as int]@);
        }
        let name = self.groups[at].name.clone();
        let parent = copy_opt(&self.groups[at].parent_id);
        let depth: usize = self.groups.len();
        let mut removed: Vec<String> = Vec::new();
        removed.push(group_id.to_owned());
        assert(texts(removed@) =~= seq![group_id@]);
        self.collect_descendant_group_ids(group_id, depth, &mut removed);
        assert(texts(removed@) =~= ids);
        let count = move_servers_up(&mut self.servers, &removed, &parent);
        self.groups = keep_groups(&self.groups, &removed);
        assert(self@ =~= without_group(config, at as int));
        Some(DeletedGroup { name, removed_group_ids: removed, moved_server_count: count })
    }
}

proof fn lemma_with_path_suffixes(
    groups: Seq<GroupView>,
    names: Seq<Seq<char>>,
    some: Seq<Seq<char>>,
    other: Seq<Seq<char>>,
)
    requires
        some.len() >= names.len(),
        some.is_prefix_of(other),
    ensures
        with_path(groups, names, some) == with_path(groups, names, other),
    decreases names.len(),
{
    if names.len() > 0 {
        lemma_with_path_suffixes(groups, names.drop_last(), some, other);
        assert(some =~= other.take(some.len() as int));
        assert(some[names.len() - 1] == other[names.len() - 1]);
    }
}

fn move_servers_up(
    servers: &mut Vec<ServerConfig>,
    removed: &Vec<String>,
    parent: &Option<String>,
) -> (r: usize)
    ensures
        server_views(final(servers)@) == server_views(old(servers)@).map_values(
            |server: ServerView| moved_up(server, texts(removed@), opt_text(*parent)),
        ),
        r == count_in_groups(server_views(old(servers)@), texts(removed@)),
{
    let ghost before = server_views(servers@);
    let ghost ids = texts(removed@);
    let ghost pred = |server: ServerView| is_in_groups(server, ids);
    let mut count: usize = 0;
    let mut i: usize = 0;
    let n: usize = servers.len();
    proof {
        reveal(Seq::filter);
        assert(before.take(0).filter(pred).len() == 0);
    }
    while i < n
        invariant
            i <= n,
            n == before.len(),
            n == servers@.len(),
            ids == texts(removed@),
            pred == (|server: ServerView| is_in_groups(server, ids)),
            count <= i,
            count == before.take(i as int).filter(pred).len(),
            forall|k: int|
                0 <= k < i ==> (#[trigger] servers@[k])@ == moved_up(
                    before[k],
                    ids,
                    opt_text(*parent),
                ),
            forall|k: int| i <= k < n ==> (#[trigger] servers@[k])@ == before[k],
        decreases n - i,
    {
        proof {
            reveal(Seq::filter);
            assert(before.take(i + 1).drop_last() =~= before.take(i as int));
            assert(servers@[i as int]@ == before[i as int]);
        }
        let inside = match &servers[i].group_id {
            Some(id) => list_contains(removed, id.as_str()),
            None => false,
        };
        if inside {
            servers[i].group_id = copy_opt(parent);
            count = count + 1;
        }
        i = i + 1;
    }
    assert(before.take(i as int) =~= before);
    assert(server_views(servers@) =~= before.map_values(
        |server: ServerView| moved_up(server, ids, opt_text(*parent)),
    ));
    count
}

fn keep_groups(groups: &Vec<ServerGroup>, removed: &Vec<String>) -> (r: Vec<ServerGroup>)
    ensures
        group_views(r@) == group_views(groups@).filter(
            |other: GroupView| !texts(removed@).contains(other.id),
        ),
{
    let ghost all = group_views(groups@);
    let ghost ids = texts(removed@);
    let ghost pred = |other: GroupView| !ids.contains(other.id);
    let mut out: Vec<ServerGroup> = Vec::new();
    let mut i: usize = 0;
    proof {
        reveal(Seq::filter);
        assert(group_views(out@) =~= all.take(0).filter(pred));
    }
    while i < groups.len()
        invariant
            i <= groups@.len(),
            all == group_views(groups@),
            ids == texts(removed@),
            pred == (|other: GroupView| !ids.contains(other.id)),
            group_views(out@) == all.take(i as int).filter(pred),
        decreases groups@.len() - i,
    {
        proof {
            reveal(Seq::filter);
            assert(all.take(i + 1).drop_last() =~= all.take(i as int));
            assert(all[i as int] == groups@[i as int]@);
        }
        if !list_contains(removed, groups[i].id.as_str()) {
            let ghost before = out@;
            out.push(groups[i].clone());
            assert(group_views(out@) =~= group_views(before).push(all[i as int]));
        }
        i = i + 1;
    }
    assert(all.take(i as int) =~= all);
    out
}

/// A group is made under its parent by its name, or found there: the identifier
/// that comes back is that of a group of this name and this parent. At most one
/// group is added, at the end.
pub proof fn group_is_made_under_its_parent(
    groups: Seq<GroupView>,
    parent: Option<Seq<char>>,
    name: Seq<char>,
    suffix: Seq<char>,
)
    ensures
        ({
            let (after, id) = with_group(groups, parent, name, suffix);
            let n = groups.len() as int;
            let there = exists|i: int|
                0 <= i < n && (#[trigger] groups[i]).parent_id == parent && groups[i].name == name;
            &&& exists|i: int|
                0 <= i < after.len() && (#[trigger] after[i]).id == id && after[i].name == name
                    && after[i].parent_id == parent
            &&& there ==> after == groups
            &&& !there ==> after.len() == n + 1 && after.take(n) == groups && id == crate::config::slug_of(
                name,
            ) + seq!['-'] + suffix
        }),
{
    let cond = |group: GroupView| group.parent_id == parent && group.name == name;
    let (after, id) = with_group(groups, parent, name, suffix);
    let n = groups.len() as int;
    lemma_first_where(groups, cond);
    reveal_strlit("-");
    assert("-"@ =~= seq!['-']);
    match child_position(groups, parent, name) {
        Some(i) => {
            assert(after[i].id == id);
        },
        None => {
            assert(after[n].id == id);
            assert(after.take(n) =~= groups);
            assert forall|i: int| 0 <= i < n implies !((#[trigger] groups[i]).parent_id == parent
                && groups[i].name == name) by {
                assert(!cond(groups[i]));
            }
        },
    }
}

/// The group that a path leads to has the last name of the path, and its parent
/// is the group that the rest of the path leads to.
pub proof fn path_is_made_step_by_step(
    groups: Seq<GroupView>,
    names: Seq<Seq<char>>,
    suffixes: Seq<Seq<char>>,
)
    requires
        names.len() > 0,
    ensures
        ({
            let (after, last) = with_path(groups, names, suffixes);
            let parent = with_path(groups, names.drop_last(), suffixes).1;
            &&& last matches Some(id) && exists|i: int|
                0 <= i < after.len() && (#[trigger] after[i]).id == id && after[i].name
                    == names.last() && after[i].parent_id == parent
            &&& names.len() == 1 ==> parent is None
            &&& with_path(groups, Seq::empty(), suffixes) == (groups, None::<Seq<char>>)
        }),
{
    let (before, parent) = with_path(groups, names.drop_last(), suffixes);
    group_is_made_under_its_parent(before, parent, names.last(), suffixes[names.len() - 1]);
}

/// Slashes part the names of a path; white space around a name does not count,
/// and a part of nothing else is no name.
pub proof fn slashes_part_the_names(path: Seq<char>, name: Seq<char>)
    requires
        !name.contains('/'),
    ensures
        trimmed(name).len() > 0 ==> path_names(path + seq!['/'] + name) == path_names(path).push(
            trimmed(name),
        ),
        trimmed(name).len() == 0 ==> path_names(path + seq!['/'] + name) == path_names(path),
        trimmed(name).len() > 0 ==> path_names(name) == seq![trimmed(name)],
        trimmed(name).len() == 0 ==> path_names(name).len() == 0,
{
    let cut = |piece: Seq<char>| trimmed(piece);
    let named = |part: Seq<char>| part.len() > 0;
    let head = pieces(path, '/').map_values(cut);
    let one = seq![trimmed(name)];
    let none = Seq::<Seq<char>>::empty();
    crate::text::lemma_pieces_append(path, name, '/');
    crate::text::lemma_pieces_plain(name, '/');
    assert(pieces(path, '/').push(name).map_values(cut) =~= head.push(trimmed(name)));
    assert(seq![name].map_values(cut) =~= one);
    reveal_with_fuel(Seq::filter, 2);
    assert(head.push(trimmed(name)).drop_last() =~= head);
    assert(one.drop_last() =~= none);
    assert(none.filter(named) =~= none);
    assert(trimmed(name).len() > 0 ==> one.filter(named) =~= one);
}

proof fn lemma_child_is_below(groups: Seq<GroupView>, id: Seq<char>, upto: int, depth: nat, i: int)
    requires
        0 <= i < upto <= groups.len(),
        depth > 0,
        groups[i].parent_id == Some(id),
    ensures
        walk_down(groups, id, upto, depth).contains(groups[i].id),
    decreases upto,
{
    let before = walk_down(groups, id, upto - 1, depth);
    let group = groups[upto - 1];
    let all = walk_down(groups, id, upto, depth);
    if i < upto - 1 {
        lemma_child_is_below(groups, id, upto - 1, depth, i);
        let k = before.index_of(groups[i].id);
        assert(all[k] == groups[i].id);
    } else {
        assert(all[before.len() as int] == group.id);
    }
}

/// A group that is deleted takes the groups in it along; the servers of these go
/// to where the group was, and the others stay where they are.
pub proof fn deleted_group_leaves_its_servers_in_its_place(config: ConfigView, at: int, i: int)
    requires
        0 <= at < config.groups.len(),
        0 <= i < config.servers.len(),
    ensures
        ({
            let after = without_group(config, at);
            let group = config.groups[at];
            let old = config.servers[i];
            let new = after.servers[i];
            &&& after.servers.len() == config.servers.len()
            &&& after.language == config.language
            &&& after.java_path == config.java_path
            &&& old.group_id == Some(group.id) ==> new == ServerView {
                group_id: group.parent_id,
                ..old
            }
            &&& old.group_id is None ==> new == old
            &&& forall|k: int|
                0 <= k < config.groups.len() && (#[trigger] config.groups[k]).parent_id == Some(
                    group.id,
                ) && old.group_id == Some(config.groups[k].id) ==> new == ServerView {
                    group_id: group.parent_id,
                    ..old
                }
            &&& forall|k: int|
                0 <= k < after.groups.len() ==> (#[trigger] after.groups[k]).id != group.id
                    && config.groups.contains(after.groups[k])
        }),
{
    let after = without_group(config, at);
    let group = config.groups[at];
    let old = config.servers[i];
    let ids = removed_ids(config.groups, group.id);
    let below = descendants(config.groups, group.id);
    let kept = |other: GroupView| !ids.contains(other.id);
    assert(ids[0] == group.id);
    assert(ids.contains(group.id));
    assert forall|k: int|
        0 <= k < config.groups.len() && (#[trigger] config.groups[k]).parent_id == Some(
            group.id,
        ) implies ids.contains(config.groups[k].id) by {
        lemma_child_is_below(
            config.groups,
            group.id,
            config.groups.len() as int,
            config.groups.len(),
            k,
        );
        let j = below.index_of(config.groups[k].id);
        assert(ids[j + 1] == config.groups[k].id);
    }
    assert forall|k: int| 0 <= k < after.groups.len() implies (#[trigger] after.groups[k]).id
        != group.id && config.groups.contains(after.groups[k]) by {
        assert(after.groups.contains(after.groups[k]));
        config.groups.lemma_filter_contains_rev(kept, after.groups[k]);
        config.groups.lemma_filter_pred(kept, k);
    }
}

/// A group without groups in it goes alone: every other group stays, and every
/// server that was not in it.
pub proof fn empty_group_goes_alone(config: ConfigView, at: int, k: int, i: int)
    requires
        0 <= at < config.groups.len(),
        forall|j: int|
            0 <= j < config.groups.len() ==> (#[trigger] config.groups[j]).parent_id != Some(
                config.groups[at].id,
            ),
        0 <= k < config.groups.len(),
        0 <= i < config.servers.len(),
    ensures
        ({
            let after = without_group(config, at);
            &&& config.groups[k].id != config.groups[at].id ==> after.groups.contains(
                config.groups[k],
            )
            &&& config.servers[i].group_id != Some(config.groups[at].id) ==> after.servers[i]
                == config.servers[i]
        }),
{
    let id = config.groups[at].id;
    let ids = removed_ids(config.groups, id);
    let kept = |other: GroupView| !ids.contains(other.id);
    lemma_no_children(config.groups, id, config.groups.len() as int, config.groups.len());
    assert(ids =~= seq![id]);
    assert forall|x: Seq<char>| ids.contains(x) implies x == id by {
        let j = ids.index_of(x);
        assert(ids[j] == x);
    }
    if config.groups[k].id != id {
        config.groups.lemma_filter_contains(kept, k);
    }
}

} // verus!
