//! The groups and servers as rows of a tree.

use vstd::prelude::*;

use crate::collections::StringSet;
use crate::config::{ConfigView, GroupView, RemiaftConfig, ServerView};
use crate::groups::{
    ends_within, group_position, is_well_founded, lemma_group_depth, removed_ids, walk_down,
};
use crate::text::{opt_text, same_opt, same_opt_text, texts};

verus! {

/// What a row of the tree stands for: a group, by its identifier, or a
/// server, by its position.
#[derive(Debug)]
pub enum TreeItem {
    Group(String),
    Server(usize),
}

pub enum ItemView {
    Group(Seq<char>),
    Server(int),
}

/// A row of the tree.
#[derive(Debug)]
pub struct TreeRow {
    pub depth: usize,
    pub item: TreeItem,
}

#[verifier::ext_equal]
pub struct RowView {
    pub depth: nat,
    pub item: ItemView,
}

impl View for TreeRow {
    type V = RowView;

    open spec fn view(&self) -> RowView {
        RowView {
            depth: self.depth as nat,
            item: match self.item {
                TreeItem::Group(id) => ItemView::Group(id@),
                TreeItem::Server(at) => ItemView::Server(at as int),
            },
        }
    }
}

/// The rows by their views.
pub open spec fn row_views(rows: Seq<TreeRow>) -> Seq<RowView> {
    rows.map_values(|row: TreeRow| row@)
}

/// Whether a server stands directly below a parent. At the root stand also
/// the servers whose group does not exist.
pub open spec fn stands_below(
    config: ConfigView,
    server: ServerView,
    parent: Option<Seq<char>>,
) -> bool {
    server.group_id == parent || (parent is None && match server.group_id {
        Some(id) => group_position(config.groups, id) is None,
        None => true,
    })
}

/// The rows of those of the first `upto` servers that stand directly below a
/// parent.
pub open spec fn server_rows(
    config: ConfigView,
    parent: Option<Seq<char>>,
    upto: int,
    depth: nat,
) -> Seq<RowView>
    decreases upto,
{
    if upto <= 0 {
        Seq::empty()
    } else {
        let before = server_rows(config, parent, upto - 1, depth);
        if stands_below(config, config.servers[upto - 1], parent) {
            before.push(RowView { depth, item: ItemView::Server(upto - 1) })
        } else {
            before
        }
    }
}

/// The rows of those of the first `upto` groups that stand directly below a
/// parent. Below an expanded group come its own groups and then its servers,
/// at most `levels` groups down.
pub open spec fn group_rows(
    config: ConfigView,
    expanded: Set<Seq<char>>,
    parent: Option<Seq<char>>,
    upto: int,
    depth: nat,
    levels: nat,
) -> Seq<RowView>
    decreases levels, upto,
{
    if upto <= 0 || levels == 0 {
        Seq::empty()
    } else {
        let before = group_rows(config, expanded, parent, upto - 1, depth, levels);
        let group = config.groups[upto - 1];
        if group.parent_id == parent {
            let with_group = before.push(RowView { depth, item: ItemView::Group(group.id) });
            if expanded.contains(group.id) {
                with_group + group_rows(
                    config,
                    expanded,
                    Some(group.id),
                    config.groups.len() as int,
                    depth + 1,
                    (levels - 1) as nat,
                ) + server_rows(
                    config,
                    Some(group.id),
                    config.servers.len() as int,
                    depth + 1,
                )
            } else {
                with_group
            }
        } else {
            before
        }
    }
}

/// All rows below a parent: first those of its groups, then its servers.
pub open spec fn rows_below(
    config: ConfigView,
    expanded: Set<Seq<char>>,
    parent: Option<Seq<char>>,
    depth: nat,
    levels: nat,
) -> Seq<RowView> {
    group_rows(config, expanded, parent, config.groups.len() as int, depth, levels) + server_rows(
        config,
        parent,
        config.servers.len() as int,
        depth,
    )
}

/// The rows of the whole tree.
pub open spec fn tree_rows(config: ConfigView, expanded: Set<Seq<char>>) -> Seq<RowView> {
    rows_below(config, expanded, None, 0, config.groups.len())
}

/// Whether no group that the tree reaches comes round to itself.
pub open spec fn is_tree(groups: Seq<GroupView>) -> bool {
    forall|i: int|
        0 <= i < groups.len() && (#[trigger] groups[i]).parent_id is None ==> is_well_founded(
            groups,
            groups[i].id,
        )
}

proof fn lemma_enough_levels(
    config: ConfigView,
    expanded: Set<Seq<char>>,
    parent: Option<Seq<char>>,
    upto: int,
    depth: nat,
    levels: nat,
    more: nat,
)
    requires
        upto <= config.groups.len(),
        levels <= more,
        forall|i: int|
            0 <= i < config.groups.len() && (#[trigger] config.groups[i]).parent_id == parent ==> levels
                > 0 && ends_within(config.groups, config.groups[i].id, (levels - 1) as nat),
    ensures
        group_rows(config, expanded, parent, upto, depth, more) == group_rows(
            config,
            expanded,
            parent,
            upto,
            depth,
            levels,
        ),
    decreases levels, upto,
{
    if upto > 0 && more > 0 {
        let group = config.groups[upto - 1];
        if levels == 0 {
            lemma_no_group_rows(config, expanded, parent, upto, depth, more);
        } else {
            lemma_enough_levels(config, expanded, parent, upto - 1, depth, levels, more);
            if group.parent_id == parent {
                lemma_enough_levels(
                    config,
                    expanded,
                    Some(group.id),
                    config.groups.len() as int,
                    depth + 1,
                    (levels - 1) as nat,
                    (more - 1) as nat,
                );
            }
        }
    }
}

proof fn lemma_no_group_rows(
    config: ConfigView,
    expanded: Set<Seq<char>>,
    parent: Option<Seq<char>>,
    upto: int,
    depth: nat,
    levels: nat,
)
    requires
        upto <= config.groups.len(),
        forall|i: int|
            0 <= i < config.groups.len() ==> (#[trigger] config.groups[i]).parent_id != parent,
    ensures
        group_rows(config, expanded, parent, upto, depth, levels) == Seq::<RowView>::empty(),
    decreases upto,
{
    if upto > 0 && levels > 0 {
        lemma_no_group_rows(config, expanded, parent, upto - 1, depth, levels);
        assert(config.groups[upto - 1].parent_id != parent);
    }
}

/// Where no group comes round to itself, the tree is complete: going further
/// down finds no more rows.
pub proof fn tree_is_complete(config: ConfigView, expanded: Set<Seq<char>>, levels: nat)
    requires
        is_tree(config.groups),
        levels >= config.groups.len(),
    ensures
        rows_below(config, expanded, None, 0, levels) == tree_rows(config, expanded),
{
    let groups = config.groups;
    assert forall|i: int|
        0 <= i < groups.len() && (#[trigger] groups[i]).parent_id == None::<
            Seq<char>,
        > implies groups.len() > 0 && ends_within(groups, groups[i].id, (groups.len() - 1) as nat) by {
        lemma_group_depth(groups, i);
    }
    lemma_enough_levels(
        config,
        expanded,
        None,
        groups.len() as int,
        0,
        groups.len(),
        levels,
    );
}

proof fn lemma_server_row(
    config: ConfigView,
    parent: Option<Seq<char>>,
    upto: int,
    depth: nat,
    at: int,
)
    requires
        0 <= at < upto <= config.servers.len(),
        stands_below(config, config.servers[at], parent),
    ensures
        server_rows(config, parent, upto, depth).contains(
            RowView { depth, item: ItemView::Server(at) },
        ),
    decreases upto,
{
    let row = RowView { depth, item: ItemView::Server(at) };
    let rows = server_rows(config, parent, upto, depth);
    if upto - 1 == at {
        assert(rows.last() == row);
        assert(rows[rows.len() - 1] == row);
    } else {
        lemma_server_row(config, parent, upto - 1, depth, at);
        let before = server_rows(config, parent, upto - 1, depth);
        let k = choose|k: int| 0 <= k < before.len() && before[k] == row;
        assert(rows[k] == row);
    }
}

/// A server in no group, or in one that does not exist, is a row at the root,
/// whatever is expanded.
pub proof fn stray_server_is_shown(config: ConfigView, expanded: Set<Seq<char>>, at: int)
    requires
        0 <= at < config.servers.len(),
        match config.servers[at].group_id {
            Some(id) => group_position(config.groups, id) is None,
            None => true,
        },
    ensures
        tree_rows(config, expanded).contains(RowView { depth: 0, item: ItemView::Server(at) }),
{
    let row = RowView { depth: 0, item: ItemView::Server(at) };
    lemma_server_row(config, None, config.servers.len() as int, 0, at);
    let groups = group_rows(config, expanded, None, config.groups.len() as int, 0, config.groups.len());
    let servers = server_rows(config, None, config.servers.len() as int, 0);
    let k = choose|k: int| 0 <= k < servers.len() && servers[k] == row;
    assert((groups + servers)[groups.len() + k] == row);
}

/// The servers that rows stand for exist.
pub open spec fn names_servers(rows: Seq<RowView>, count: int) -> bool {
    forall|i: int|
        0 <= i < rows.len() ==> match (#[trigger] rows[i]).item {
            ItemView::Server(at) => 0 <= at < count,
            ItemView::Group(_) => true,
        }
}

proof fn lemma_server_rows_exist(
    config: ConfigView,
    parent: Option<Seq<char>>,
    upto: int,
    depth: nat,
)
    requires
        upto <= config.servers.len(),
    ensures
        names_servers(server_rows(config, parent, upto, depth), config.servers.len() as int),
    decreases upto,
{
    if upto > 0 {
        lemma_server_rows_exist(config, parent, upto - 1, depth);
    }
}

proof fn lemma_group_rows_exist(
    config: ConfigView,
    expanded: Set<Seq<char>>,
    parent: Option<Seq<char>>,
    upto: int,
    depth: nat,
    levels: nat,
)
    requires
        upto <= config.groups.len(),
    ensures
        names_servers(
            group_rows(config, expanded, parent, upto, depth, levels),
            config.servers.len() as int,
        ),
    decreases levels, upto,
{
    if upto > 0 && levels > 0 {
        lemma_group_rows_exist(config, expanded, parent, upto - 1, depth, levels);
        let group = config.groups[upto - 1];
        lemma_group_rows_exist(
            config,
            expanded,
            Some(group.id),
            config.groups.len() as int,
            depth + 1,
            (levels - 1) as nat,
        );
        lemma_server_rows_exist(
            config,
            Some(group.id),
            config.servers.len() as int,
            depth + 1,
        );
    }
}

/// Every row that stands for a server stands for one that exists.
pub proof fn rows_name_servers(config: ConfigView, expanded: Set<Seq<char>>)
    ensures
        names_servers(tree_rows(config, expanded), config.servers.len() as int),
{
    lemma_group_rows_exist(
        config,
        expanded,
        None,
        config.groups.len() as int,
        0,
        config.groups.len(),
    );
    lemma_server_rows_exist(config, None, config.servers.len() as int, 0);
}

proof fn lemma_same_server_rows(
    a: ConfigView,
    b: ConfigView,
    parent: Option<Seq<char>>,
    upto: int,
    depth: nat,
)
    requires
        same_places(a, b),
        upto <= a.servers.len(),
    ensures
        server_rows(a, parent, upto, depth) == server_rows(b, parent, upto, depth),
    decreases upto,
{
    if upto > 0 {
        lemma_same_server_rows(a, b, parent, upto - 1, depth);
        assert(a.servers[upto - 1].group_id == b.servers[upto - 1].group_id);
    }
}

proof fn lemma_same_group_rows(
    a: ConfigView,
    b: ConfigView,
    expanded: Set<Seq<char>>,
    parent: Option<Seq<char>>,
    upto: int,
    depth: nat,
    levels: nat,
)
    requires
        same_places(a, b),
        upto <= a.groups.len(),
    ensures
        group_rows(a, expanded, parent, upto, depth, levels) == group_rows(
            b,
            expanded,
            parent,
            upto,
            depth,
            levels,
        ),
    decreases levels, upto,
{
    if upto > 0 && levels > 0 {
        let group = a.groups[upto - 1];
        let below = (levels - 1) as nat;
        let all = a.groups.len() as int;
        lemma_same_group_rows(a, b, expanded, parent, upto - 1, depth, levels);
        lemma_same_group_rows(a, b, expanded, Some(group.id), all, depth + 1, below);
        lemma_same_server_rows(a, b, Some(group.id), a.servers.len() as int, depth + 1);
    }
}

/// Whether two settings have the same groups, and their servers in the same
/// places.
pub open spec fn same_places(a: ConfigView, b: ConfigView) -> bool {
    a.groups == b.groups && a.servers.len() == b.servers.len() && forall|i: int|
        0 <= i < a.servers.len() ==> (#[trigger] a.servers[i]).group_id == b.servers[i].group_id
}

/// The tree depends only on the groups and on the servers' places in them.
pub proof fn tree_shows_places(a: ConfigView, b: ConfigView, expanded: Set<Seq<char>>)
    requires
        same_places(a, b),
    ensures
        tree_rows(a, expanded) == tree_rows(b, expanded),
{
    lemma_same_group_rows(a, b, expanded, None, a.groups.len() as int, 0, a.groups.len());
    lemma_same_server_rows(a, b, None, a.servers.len() as int, 0);
}

fn push_server_rows(
    config: &RemiaftConfig,
    parent: &Option<String>,
    depth: usize,
    rows: &mut Vec<TreeRow>,
)
    ensures
        row_views(final(rows)@) == row_views(old(rows)@) + server_rows(
            config@,
            opt_text(*parent),
            config@.servers.len() as int,
            depth as nat,
        ),
{
    let mut i: usize = 0;
    assert(row_views(rows@) =~= row_views(old(rows)@) + Seq::<RowView>::empty());
    while i < config.servers.len()
        invariant
            i <= config.servers@.len(),
            row_views(rows@) == row_views(old(rows)@) + server_rows(
                config@,
                opt_text(*parent),
                i as int,
                depth as nat,
            ),
        decreases config.servers@.len() - i,
    {
        let ghost before = rows@;
        assert(config@.servers[i as int] == config.servers@[i as int]@);
        let stray = match &config.servers[i].group_id {
            Some(id) => config.find_group(id.as_str()).is_none(),
            None => true,
        };
        if same_opt(&config.servers[i].group_id, parent) || (parent.is_none() && stray) {
            rows.push(TreeRow { depth, item: TreeItem::Server(i) });
            assert(row_views(rows@) =~= row_views(before).push(
                RowView { depth: depth as nat, item: ItemView::Server(i as int) },
            ));
            assert(row_views(rows@) =~= row_views(old(rows)@) + server_rows(
                config@,
                opt_text(*parent),
                i + 1,
                depth as nat,
            ));
        }
        i = i + 1;
    }
}

/// Appends the rows below a parent, at most `levels` groups down.
pub fn push_tree_children(
    config: &RemiaftConfig,
    expanded: &StringSet,
    parent: &Option<String>,
    depth: usize,
    levels: usize,
    rows: &mut Vec<TreeRow>,
)
    requires
        depth + levels <= usize::MAX,
    ensures
        row_views(final(rows)@) == row_views(old(rows)@) + rows_below(
            config@,
            expanded@,
            opt_text(*parent),
            depth as nat,
            levels as nat,
        ),
    decreases levels,
{
    let ghost start = row_views(rows@);
    let mut i: usize = 0;
    assert(row_views(rows@) =~= start + Seq::<RowView>::empty());
    while levels > 0 && i < config.groups.len()
        invariant
            i <= config.groups@.len(),
            levels == 0 ==> i == 0,
            depth + levels <= usize::MAX,
            row_views(rows@) == start + group_rows(
                config@,
                expanded@,
                opt_text(*parent),
                i as int,
                depth as nat,
                levels as nat,
            ),
        decreases config.groups@.len() - i,
    {
        let ghost before = rows@;
        let ghost group = config@.groups[i as int];
        assert(group == config.groups@[i as int]@);
        if same_opt(&config.groups[i].parent_id, parent) {
            let id = config.groups[i].id.clone();
            rows.push(TreeRow { depth, item: TreeItem::Group(id) });
            assert(row_views(rows@) =~= row_views(before).push(
                RowView { depth: depth as nat, item: ItemView::Group(group.id) },
            ));
            if expanded.contains(config.groups[i].id.as_str()) {
                let below = Some(config.groups[i].id.clone());
                push_tree_children(config, expanded, &below, depth + 1, levels - 1, rows);
            }
            assert(row_views(rows@) =~= start + group_rows(
                config@,
                expanded@,
                opt_text(*parent),
                i + 1,
                depth as nat,
                levels as nat,
            ));
        }
        i = i + 1;
    }
    push_server_rows(config, parent, depth, rows);
    assert(row_views(rows@) =~= start + rows_below(
        config@,
        expanded@,
        opt_text(*parent),
        depth as nat,
        levels as nat,
    ));
}

/// The rows of the tree.
pub fn visible_tree(config: &RemiaftConfig, expanded: &StringSet) -> (r: Vec<TreeRow>)
    ensures
        row_views(r@) == tree_rows(config@, expanded@),
{
    let mut rows: Vec<TreeRow> = Vec::new();
    push_tree_children(config, expanded, &None, 0, config.groups.len(), &mut rows);
    assert(row_views(rows@) =~= tree_rows(config@, expanded@));
    rows
}

/// The identifiers of the servers directly in a group.
pub open spec fn own_ids(servers: Seq<ServerView>, id: Seq<char>) -> Seq<Seq<char>> {
    servers.filter(|server: ServerView| server.group_id == Some(id)).map_values(
        |server: ServerView| server.id,
    )
}

/// The identifiers of the servers directly in each of the groups.
pub open spec fn ids_in_groups(servers: Seq<ServerView>, ids: Seq<Seq<char>>) -> Seq<Seq<char>>
    decreases ids.len(),
{
    if ids.len() == 0 {
        Seq::empty()
    } else {
        ids_in_groups(servers, ids.drop_last()) + own_ids(servers, ids.last())
    }
}

/// The identifiers of the servers in a group and in the groups below it.
pub open spec fn group_members(config: ConfigView, id: Seq<char>) -> Seq<Seq<char>> {
    ids_in_groups(config.servers, removed_ids(config.groups, id))
}

proof fn lemma_ids_in_groups_concat(
    servers: Seq<ServerView>,
    a: Seq<Seq<char>>,
    b: Seq<Seq<char>>,
)
    ensures
        ids_in_groups(servers, a + b) == ids_in_groups(servers, a) + ids_in_groups(servers, b),
    decreases b.len(),
{
    if b.len() == 0 {
        assert(a + b =~= a);
        assert(ids_in_groups(servers, a) + ids_in_groups(servers, b) =~= ids_in_groups(servers, a));
    } else {
        assert((a + b).drop_last() =~= a + b.drop_last());
        lemma_ids_in_groups_concat(servers, a, b.drop_last());
        assert(ids_in_groups(servers, a + b) =~= ids_in_groups(servers, a) + ids_in_groups(
            servers,
            b,
        ));
    }
}

proof fn lemma_own_id(servers: Seq<ServerView>, id: Seq<char>, x: Seq<char>)
    ensures
        own_ids(servers, id).contains(x) <==> exists|i: int|
            0 <= i < servers.len() && (#[trigger] servers[i]).group_id == Some(id) && servers[i].id
                == x,
{
    let cond = |server: ServerView| server.group_id == Some(id);
    let kept = servers.filter(cond);
    let own = own_ids(servers, id);
    if own.contains(x) {
        let k = choose|k: int| 0 <= k < own.len() && own[k] == x;
        assert(kept[k].id == x);
        servers.lemma_filter_pred(cond, k);
        servers.lemma_filter_contains_rev(cond, kept[k]);
        let i = choose|i: int| 0 <= i < servers.len() && servers[i] == kept[k];
        assert(servers[i].group_id == Some(id) && servers[i].id == x);
    }
    if exists|i: int|
        0 <= i < servers.len() && (#[trigger] servers[i]).group_id == Some(id) && servers[i].id
            == x {
        let i = choose|i: int|
            0 <= i < servers.len() && (#[trigger] servers[i]).group_id == Some(id) && servers[i].id
                == x;
        servers.lemma_filter_contains(cond, i);
        let k = choose|k: int| 0 <= k < kept.len() && kept[k] == servers[i];
        assert(own[k] == x);
    }
}

/// The members of some groups are the servers that are in one of them.
pub proof fn members_are_in_the_groups(
    servers: Seq<ServerView>,
    ids: Seq<Seq<char>>,
    x: Seq<char>,
)
    ensures
        ids_in_groups(servers, ids).contains(x) <==> exists|i: int|
            0 <= i < servers.len() && crate::groups::is_in_groups(#[trigger] servers[i], ids)
                && servers[i].id == x,
    decreases ids.len(),
{
    if ids.len() > 0 {
        let front = ids.drop_last();
        members_are_in_the_groups(servers, front, x);
        lemma_own_id(servers, ids.last(), x);
        let a = ids_in_groups(servers, front);
        let b = own_ids(servers, ids.last());
        let all = ids_in_groups(servers, ids);
        assert(all == a + b);
        if all.contains(x) {
            let k = choose|k: int| 0 <= k < all.len() && all[k] == x;
            if k < a.len() {
                assert(a[k] == x);
                let i = choose|i: int|
                    0 <= i < servers.len() && crate::groups::is_in_groups(
                        #[trigger] servers[i],
                        front,
                    ) && servers[i].id == x;
                let id = servers[i].group_id->0;
                let j = choose|j: int| 0 <= j < front.len() && front[j] == id;
                assert(ids[j] == id);
                assert(crate::groups::is_in_groups(servers[i], ids));
            } else {
                assert(b[k - a.len()] == x);
                let i = choose|i: int|
                    0 <= i < servers.len() && (#[trigger] servers[i]).group_id == Some(ids.last())
                        && servers[i].id == x;
                assert(ids[ids.len() - 1] == ids.last());
                assert(crate::groups::is_in_groups(servers[i], ids));
            }
        }
        if exists|i: int|
            0 <= i < servers.len() && crate::groups::is_in_groups(#[trigger] servers[i], ids)
                && servers[i].id == x {
            let i = choose|i: int|
                0 <= i < servers.len() && crate::groups::is_in_groups(#[trigger] servers[i], ids)
                    && servers[i].id == x;
            let id = servers[i].group_id->0;
            let j = choose|j: int| 0 <= j < ids.len() && ids[j] == id;
            if j == ids.len() - 1 {
                assert(servers[i].group_id == Some(ids.last()));
                let k = choose|k: int| 0 <= k < b.len() && b[k] == x;
                assert(all[a.len() + k] == x);
            } else {
                assert(front[j] == id);
                assert(crate::groups::is_in_groups(servers[i], front));
                let k = choose|k: int| 0 <= k < a.len() && a[k] == x;
                assert(all[k] == x);
            }
        }
    } else {
        assert forall|i: int| 0 <= i < servers.len() implies !crate::groups::is_in_groups(
            #[trigger] servers[i],
            ids,
        ) by {}
    }
}

fn push_own_ids(config: &RemiaftConfig, group_id: &str, ids: &mut Vec<String>)
    ensures
        texts(final(ids)@) == texts(old(ids)@) + own_ids(config@.servers, group_id@),
{
    let ghost servers = config@.servers;
    let ghost cond = |server: ServerView| server.group_id == Some(group_id@);
    let ghost start = texts(ids@);
    let mut i: usize = 0;
    proof {
        reveal(Seq::filter);
        assert(texts(ids@) =~= start + own_ids(servers.take(0), group_id@));
    }
    while i < config.servers.len()
        invariant
            i <= config.servers@.len(),
            servers == config@.servers,
            cond == (|server: ServerView| server.group_id == Some(group_id@)),
            texts(ids@) == start + own_ids(servers.take(i as int), group_id@),
        decreases config.servers@.len() - i,
    {
        let ghost before = ids@;
        proof {
            reveal(Seq::filter);
            assert(servers.take(i + 1).drop_last() =~= servers.take(i as int));
            assert(servers[i as int] == config.servers@[i as int]@);
        }
        if same_opt_text(&config.servers[i].group_id, group_id) {
            ids.push(config.servers[i].id.clone());
            assert(texts(ids@) =~= texts(before).push(servers[i as int].id));
            assert(own_ids(servers.take(i + 1), group_id@) =~= own_ids(
                servers.take(i as int),
                group_id@,
            ).push(servers[i as int].id));
            assert(texts(ids@) =~= start + own_ids(servers.take(i + 1), group_id@));
        }
        i = i + 1;
    }
    assert(servers.take(i as int) =~= servers);
}

/// Appends the identifiers of the servers in a group and in the groups below
/// it, at most `levels` groups down.
pub fn collect_server_ids_in_group(
    config: &RemiaftConfig,
    group_id: &str,
    levels: usize,
    ids: &mut Vec<String>,
)
    ensures
        texts(final(ids)@) == texts(old(ids)@) + ids_in_groups(
            config@.servers,
            seq![group_id@] + walk_down(
                config@.groups,
                group_id@,
                config@.groups.len() as int,
                levels as nat,
            ),
        ),
    decreases levels,
{
    let ghost servers = config@.servers;
    let ghost groups = config@.groups;
    let ghost start = texts(ids@);
    let ghost one = seq![group_id@];
    push_own_ids(config, group_id, ids);
    let mut i: usize = 0;
    proof {
        assert(one + walk_down(groups, group_id@, 0, levels as nat) =~= one);
        assert(one.drop_last() =~= Seq::<Seq<char>>::empty());
        assert(ids_in_groups(servers, one.drop_last()).len() == 0);
        assert(ids_in_groups(servers, one) =~= own_ids(servers, group_id@));
    }
    while levels > 0 && i < config.groups.len()
        invariant
            i <= config.groups@.len(),
            levels == 0 ==> i == 0,
            servers == config@.servers,
            groups == config@.groups,
            one == seq![group_id@],
            texts(ids@) == start + ids_in_groups(
                servers,
                one + walk_down(groups, group_id@, i as int, levels as nat),
            ),
        decreases config.groups@.len() - i,
    {
        assert(groups[i as int] == config.groups@[i as int]@);
        let ghost before = walk_down(groups, group_id@, i as int, levels as nat);
        let ghost child = groups[i as int].id;
        if same_opt_text(&config.groups[i].parent_id, group_id) {
            collect_server_ids_in_group(config, config.groups[i].id.as_str(), levels - 1, ids);
            proof {
                let below = walk_down(groups, child, groups.len() as int, (levels - 1) as nat);
                lemma_ids_in_groups_concat(servers, one + before, seq![child] + below);
                assert((one + before) + (seq![child] + below) =~= one + walk_down(
                    groups,
                    group_id@,
                    i + 1,
                    levels as nat,
                ));
                assert(texts(ids@) =~= start + ids_in_groups(
                    servers,
                    one + walk_down(groups, group_id@, i + 1, levels as nat),
                ));
            }
        }
        i = i + 1;
    }
    proof {
        if levels == 0 {
            assert(walk_down(groups, group_id@, 0, 0) == walk_down(
                groups,
                group_id@,
                groups.len() as int,
                0,
            ));
        }
    }
}

/// The identifiers of the servers in a group and in the groups below it.
pub fn server_ids_in_group(config: &RemiaftConfig, group_id: &str) -> (r: Vec<String>)
    ensures
        texts(r@) == group_members(config@, group_id@),
{
    let mut ids: Vec<String> = Vec::new();
    collect_server_ids_in_group(config, group_id, config.groups.len(), &mut ids);
    assert(texts(ids@) =~= group_members(config@, group_id@));
    ids
}

proof fn lemma_server_rows(config: ConfigView, parent: Option<Seq<char>>, upto: int, depth: nat)
    requires
        0 <= upto <= config.servers.len(),
    ensures
        forall|k: int|
            0 <= k < server_rows(config, parent, upto, depth).len() ==> {
                let row = #[trigger] server_rows(config, parent, upto, depth)[k];
                row.depth == depth && (row.item matches ItemView::Server(at) && 0 <= at < upto
                    && stands_below(config, config.servers[at], parent))
            },
        forall|at: int|
            0 <= at < upto && stands_below(config, #[trigger] config.servers[at], parent)
                ==> server_rows(config, parent, upto, depth).contains(
                RowView { depth, item: ItemView::Server(at) },
            ),
    decreases upto,
{
    if upto > 0 {
        let before = server_rows(config, parent, upto - 1, depth);
        let rows = server_rows(config, parent, upto, depth);
        lemma_server_rows(config, parent, upto - 1, depth);
        assert forall|at: int|
            0 <= at < upto && stands_below(
                config,
                #[trigger] config.servers[at],
                parent,
            ) implies rows.contains(RowView { depth, item: ItemView::Server(at) }) by {
            let row = RowView { depth, item: ItemView::Server(at) };
            if at < upto - 1 {
                let i = before.index_of(row);
                assert(rows[i] == row);
            } else {
                assert(rows[before.len() as int] == row);
            }
        }
    }
}

proof fn lemma_group_rows(
    config: ConfigView,
    expanded: Set<Seq<char>>,
    parent: Option<Seq<char>>,
    upto: int,
    depth: nat,
    levels: nat,
)
    requires
        0 <= upto <= config.groups.len(),
    ensures
        forall|k: int|
            0 <= k < group_rows(config, expanded, parent, upto, depth, levels).len() ==> {
                let row = #[trigger] group_rows(config, expanded, parent, upto, depth, levels)[k];
                &&& row.depth >= depth
                &&& row.depth == depth ==> row.item is Group
                &&& row.item matches ItemView::Server(at) ==> 0 <= at < config.servers.len() && (
                config.servers[at].group_id matches Some(id) && expanded.contains(id))
            },
        forall|i: int|
            0 <= i < upto && levels > 0 && (#[trigger] config.groups[i]).parent_id == parent
                ==> group_rows(config, expanded, parent, upto, depth, levels).contains(
                RowView { depth, item: ItemView::Group(config.groups[i].id) },
            ),
        forall|i: int, at: int|
            0 <= i < upto && levels > 0 && (#[trigger] config.groups[i]).parent_id == parent
                && expanded.contains(config.groups[i].id) && 0 <= at < config.servers.len() && (
            #[trigger] config.servers[at]).group_id == Some(config.groups[i].id) ==> group_rows(
                config,
                expanded,
                parent,
                upto,
                depth,
                levels,
            ).contains(RowView { depth: depth + 1, item: ItemView::Server(at) }),
    decreases levels, upto,
{
    if upto > 0 && levels > 0 {
        let before = group_rows(config, expanded, parent, upto - 1, depth, levels);
        let group = config.groups[upto - 1];
        let rows = group_rows(config, expanded, parent, upto, depth, levels);
        lemma_group_rows(config, expanded, parent, upto - 1, depth, levels);
        let n = config.servers.len() as int;
        let below = group_rows(
            config,
            expanded,
            Some(group.id),
            config.groups.len() as int,
            depth + 1,
            (levels - 1) as nat,
        );
        let own = server_rows(config, Some(group.id), n, depth + 1);
        let opened = group.parent_id == parent && expanded.contains(group.id);
        let with_group = before.push(RowView { depth, item: ItemView::Group(group.id) });
        if opened {
            lemma_group_rows(
                config,
                expanded,
                Some(group.id),
                config.groups.len() as int,
                depth + 1,
                (levels - 1) as nat,
            );
            lemma_server_rows(config, Some(group.id), n, depth + 1);
            assert(rows == with_group + below + own);
        }
        assert forall|k: int| 0 <= k < rows.len() implies {
            let row = #[trigger] rows[k];
            &&& row.depth >= depth
            &&& row.depth == depth ==> row.item is Group
            &&& row.item matches ItemView::Server(at) ==> 0 <= at < config.servers.len() && (
            config.servers[at].group_id matches Some(id) && expanded.contains(id))
        } by {
            if k < before.len() {
                assert(rows[k] == before[k]);
            } else if k == before.len() {
            } else if k < with_group.len() + below.len() {
                assert(rows[k] == below[k - with_group.len()]);
            } else {
                assert(rows[k] == own[k - with_group.len() - below.len()]);
            }
        }
        assert forall|i: int|
            0 <= i < upto && levels > 0 && (#[trigger] config.groups[i]).parent_id
                == parent implies rows.contains(
            RowView { depth, item: ItemView::Group(config.groups[i].id) },
        ) by {
            let row = RowView { depth, item: ItemView::Group(config.groups[i].id) };
            if i < upto - 1 {
                let k = before.index_of(row);
                assert(rows[k] == row);
            } else {
                assert(rows[before.len() as int] == row);
            }
        }
        assert forall|i: int, at: int|
            0 <= i < upto && levels > 0 && (#[trigger] config.groups[i]).parent_id == parent
                && expanded.contains(config.groups[i].id) && 0 <= at < config.servers.len() && (
            #[trigger] config.servers[at]).group_id == Some(
                config.groups[i].id,
            ) implies rows.contains(
            RowView { depth: depth + 1, item: ItemView::Server(at) },
        ) by {
            let row = RowView { depth: depth + 1, item: ItemView::Server(at) };
            if i < upto - 1 {
                let k = before.index_of(row);
                assert(rows[k] == row);
            } else {
                assert(stands_below(config, config.servers[at], Some(group.id)));
                let k = own.index_of(row);
                assert(rows[with_group.len() + below.len() + k] == row);
            }
        }
    }
}

/// The tree shows each top group and each server that is in no group, at the
/// left; the servers of a top group that is open stand one step to the right, and
/// those of a group that is closed are not shown. No group follows a server at
/// the left.
pub proof fn tree_shows_what_is_open(
    config: ConfigView,
    expanded: Set<Seq<char>>,
    i: int,
    at: int,
    k: int,
    later: int,
)
    requires
        0 <= i < config.groups.len(),
        0 <= at < config.servers.len(),
        0 <= k <= later < tree_rows(config, expanded).len(),
    ensures
        ({
            let rows = tree_rows(config, expanded);
            let top = config.groups[i].parent_id is None;
            &&& top ==> rows.contains(
                RowView { depth: 0, item: ItemView::Group(config.groups[i].id) },
            )
            &&& config.servers[at].group_id is None ==> rows.contains(
                RowView { depth: 0, item: ItemView::Server(at) },
            )
            &&& top && expanded.contains(config.groups[i].id) && config.servers[at].group_id == Some(
                config.groups[i].id,
            ) ==> rows.contains(RowView { depth: 1, item: ItemView::Server(at) })
            &&& rows[k].item matches ItemView::Server(shown) ==> 0 <= shown < config.servers.len() && (
            config.servers[shown].group_id matches Some(id) ==> expanded.contains(id)
                || group_position(config.groups, id) is None)
            &&& rows[k].depth == 0 && rows[k].item is Server ==> rows[later].depth == 0
                && rows[later].item is Server
        }),
{
    let g = config.groups.len() as int;
    let n = config.servers.len() as int;
    let rows = tree_rows(config, expanded);
    let groups = group_rows(config, expanded, None, g, 0, config.groups.len());
    let servers = server_rows(config, None, n, 0);
    lemma_group_rows(config, expanded, None, g, 0, config.groups.len());
    lemma_server_rows(config, None, n, 0);
    assert(rows == groups + servers);
    if config.groups[i].parent_id is None {
        let row = RowView { depth: 0, item: ItemView::Group(config.groups[i].id) };
        let j = groups.index_of(row);
        assert(rows[j] == row);
        if expanded.contains(config.groups[i].id) && config.servers[at].group_id == Some(
            config.groups[i].id,
        ) {
            let row = RowView { depth: 1, item: ItemView::Server(at) };
            assert(groups.contains(row));
            let j = groups.index_of(row);
            assert(rows[j] == row);
        }
    }
    if config.servers[at].group_id is None {
        let row = RowView { depth: 0, item: ItemView::Server(at) };
        assert(stands_below(config, config.servers[at], None));
        let j = servers.index_of(row);
        assert(rows[groups.len() + j] == row);
    }
    if k < groups.len() {
        assert(rows[k] == groups[k]);
    } else {
        assert(rows[k] == servers[k - groups.len()]);
        assert(rows[later] == servers[later - groups.len()]);
    }
}

} // verus!
