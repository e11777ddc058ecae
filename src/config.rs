use vstd::prelude::*;

use crate::spec::{GameSpec, GameView, RegionSpec, RegionView, ServerSpec, ServerView};
use crate::text::{parse_u8, parse_u8_spec, split_on, split_str};

verus! {

/// The protocol tag of a directory read from the descriptor documents.
pub const DIRECTORY_PROTOCOL: u8 = 8;

/// Why the descriptor documents were refused as a whole.
#[derive(Clone, Copy, Debug, PartialEq, Eq, Structural)]
pub enum ParseError {
    /// A non-empty line of the region table has no `|`.
    MalformedRegionRecord,
    /// A non-empty line of the server table has fewer than seven fields, or a
    /// type code that is not a `u8` in decimal.
    MalformedServerRecord,
    /// A server names a region id that the region table does not hold.
    UnknownRegion,
}

/// Why a refresh of the directory produced nothing.
#[derive(Clone, Copy, Debug, PartialEq, Eq, Structural)]
pub enum RefreshError {
    /// One of the two descriptor documents could not be fetched.
    Fetch,
    /// The documents were fetched but refused.
    Parse(ParseError),
}

/// A region-table line read as `(id, name)`: its first two `|`-separated
/// fields; further fields are ignored.
pub open spec fn region_entry(line: Seq<char>) -> Option<(Seq<char>, Seq<char>)> {
    let f = split_on(line, '|');
    if f.len() >= 2 {
        Some((f[0], f[1]))
    } else {
        None
    }
}

/// The region table read from its lines, empty lines skipped; `None` when a
/// line is malformed.
pub open spec fn region_table(lines: Seq<Seq<char>>) -> Option<Seq<(Seq<char>, Seq<char>)>>
    decreases lines.len(),
{
    if lines.len() == 0 {
        Some(Seq::empty())
    } else {
        match region_table(lines.drop_last()) {
            None => None,
            Some(t) => if lines.last().len() == 0 {
                Some(t)
            } else {
                match region_entry(lines.last()) {
                    None => None,
                    Some(e) => Some(t.push(e)),
                }
            },
        }
    }
}

/// The name that the table gives to `id`; a later line overrides an earlier one.
pub open spec fn lookup(t: Seq<(Seq<char>, Seq<char>)>, id: Seq<char>) -> Option<Seq<char>>
    decreases t.len(),
{
    if t.len() == 0 {
        None
    } else if t.last().0 == id {
        Some(t.last().1)
    } else {
        lookup(t.drop_last(), id)
    }
}

/// A server-table line read as its region id and the server it describes:
/// `regionId|type|serverId|name|shortName|host|path`, further fields ignored.
pub open spec fn server_entry(line: Seq<char>) -> Option<(Seq<char>, ServerView)> {
    let f = split_on(line, '|');
    if f.len() >= 7 && parse_u8_spec(f[1]) is Some {
        Some(
            (
                f[0],
                ServerView {
                    url: Seq::empty(),
                    ty: parse_u8_spec(f[1])->0,
                    id: f[2],
                    name: f[3],
                    name_short: f[4],
                    players: None,
                    host: f[5],
                    path: f[6],
                },
            ),
        )
    } else {
        None
    }
}

/// The position of the region with id `id`, or -1.
pub open spec fn find_region(gs: Seq<RegionView>, id: Seq<char>) -> int
    decreases gs.len(),
{
    if gs.len() == 0 {
        -1
    } else if gs.last().id == id {
        gs.len() - 1
    } else {
        find_region(gs.drop_last(), id)
    }
}

/// Adds a server to the region `id`, opening that region at the end when it
/// is not there yet.
pub open spec fn add_to_region(
    gs: Seq<RegionView>,
    id: Seq<char>,
    name: Seq<char>,
    s: ServerView,
) -> Seq<RegionView> {
    let k = find_region(gs, id);
    if k >= 0 {
        gs.update(k, RegionView { games: gs[k].games.push(s), ..gs[k] })
    } else {
        gs.push(RegionView { name, id, games: seq![s] })
    }
}

/// The regions that the server lines give, empty lines skipped, or the error
/// of the first line that fails.
pub open spec fn group_servers(
    lines: Seq<Seq<char>>,
    t: Seq<(Seq<char>, Seq<char>)>,
) -> Result<Seq<RegionView>, ParseError>
    decreases lines.len(),
{
    if lines.len() == 0 {
        Ok(Seq::empty())
    } else {
        match group_servers(lines.drop_last(), t) {
            Err(e) => Err(e),
            Ok(gs) => if lines.last().len() == 0 {
                Ok(gs)
            } else {
                match server_entry(lines.last()) {
                    None => Err(ParseError::MalformedServerRecord),
                    Some(e) => match lookup(t, e.0) {
                        None => Err(ParseError::UnknownRegion),
                        Some(name) => Ok(add_to_region(gs, e.0, name, e.1)),
                    },
                }
            },
        }
    }
}

/// The directory that the two descriptor documents describe.
pub open spec fn parse_config_spec(config: Seq<char>, regions: Seq<char>) -> Result<
    GameView,
    ParseError,
> {
    match region_table(split_on(regions, '\n')) {
        None => Err(ParseError::MalformedRegionRecord),
        Some(t) => match group_servers(split_on(config, '\n'), t) {
            Err(e) => Err(e),
            Ok(gs) => Ok(GameView { protocol: DIRECTORY_PROTOCOL, country: Seq::empty(), data: gs }),
        },
    }
}

pub open spec fn game_result_view(r: Result<GameSpec, ParseError>) -> Result<GameView, ParseError> {
    match r {
        Ok(g) => Ok(g@),
        Err(e) => Err(e),
    }
}

proof fn lemma_region_table_fails_on(lines: Seq<Seq<char>>, i: int)
    requires
        0 <= i <= lines.len(),
        region_table(lines.take(i)) is None,
    ensures
        region_table(lines) is None,
    decreases lines.len() - i,
{
    if i < lines.len() {
        assert(lines.take(i + 1).drop_last() == lines.take(i));
        lemma_region_table_fails_on(lines, i + 1);
    } else {
        assert(lines.take(i) == lines);
    }
}

proof fn lemma_group_servers_fails_on(
    lines: Seq<Seq<char>>,
    t: Seq<(Seq<char>, Seq<char>)>,
    i: int,
    e: ParseError,
)
    requires
        0 <= i <= lines.len(),
        group_servers(lines.take(i), t) == Err::<Seq<RegionView>, ParseError>(e),
    ensures
        group_servers(lines, t) == Err::<Seq<RegionView>, ParseError>(e),
    decreases lines.len() - i,
{
    if i < lines.len() {
        assert(lines.take(i + 1).drop_last() == lines.take(i));
        lemma_group_servers_fails_on(lines, t, i + 1, e);
    } else {
        assert(lines.take(i) == lines);
    }
}

/// The number of non-empty lines, that is, of records.
pub open spec fn record_count(lines: Seq<Seq<char>>) -> nat
    decreases lines.len(),
{
    if lines.len() == 0 {
        0
    } else {
        record_count(lines.drop_last()) + if lines.last().len() == 0 {
            0nat
        } else {
            1nat
        }
    }
}

/// The number of servers over all regions.
pub open spec fn server_total(gs: Seq<RegionView>) -> nat
    decreases gs.len(),
{
    if gs.len() == 0 {
        0
    } else {
        server_total(gs.drop_last()) + gs.last().games.len()
    }
}

/// The name that the region table `regions` gives to `id`.
pub open spec fn region_name(regions: Seq<char>, id: Seq<char>) -> Option<Seq<char>> {
    match region_table(split_on(regions, '\n')) {
        Some(t) => lookup(t, id),
        None => None,
    }
}

/// No two regions share an id.
pub open spec fn region_ids_distinct(gs: Seq<RegionView>) -> bool {
    forall|a: int, b: int|
        0 <= a < gs.len() && 0 <= b < gs.len() && a != b ==> #[trigger] gs[a].id
            != #[trigger] gs[b].id
}

proof fn lemma_find_region(gs: Seq<RegionView>, id: Seq<char>)
    ensures
        find_region(gs, id) >= 0 ==> find_region(gs, id) < gs.len() && gs[find_region(
            gs,
            id,
        )].id == id,
        find_region(gs, id) < 0 ==> find_region(gs, id) == -1 && forall|k: int|
            0 <= k < gs.len() ==> #[trigger] gs[k].id != id,
    decreases gs.len(),
{
    if gs.len() > 0 {
        lemma_find_region(gs.drop_last(), id);
        if gs.last().id != id && find_region(gs, id) < 0 {
            assert forall|k: int| 0 <= k < gs.len() implies #[trigger] gs[k].id != id by {
                if k < gs.len() - 1 {
                    assert(gs[k] == gs.drop_last()[k]);
                }
            }
        }
    }
}

proof fn lemma_server_total_update(gs: Seq<RegionView>, k: int, r: RegionView)
    requires
        0 <= k < gs.len(),
    ensures
        server_total(gs.update(k, r)) + gs[k].games.len() == server_total(gs) + r.games.len(),
    decreases gs.len(),
{
    if k < gs.len() - 1 {
        assert(gs.update(k, r).drop_last() == gs.drop_last().update(k, r));
        lemma_server_total_update(gs.drop_last(), k, r);
    } else {
        assert(gs.update(k, r).drop_last() == gs.drop_last());
    }
}

proof fn lemma_group_servers_shape(lines: Seq<Seq<char>>, t: Seq<(Seq<char>, Seq<char>)>)
    requires
        group_servers(lines, t) is Ok,
    ensures
        ({
            let gs = group_servers(lines, t)->Ok_0;
            &&& server_total(gs) == record_count(lines)
            &&& region_ids_distinct(gs)
            &&& forall|k: int| 0 <= k < gs.len() ==> lookup(t, #[trigger] gs[k].id) == Some(gs[k].name)
        }),
    decreases lines.len(),
{
    if lines.len() > 0 {
        lemma_group_servers_shape(lines.drop_last(), t);
        let gs = group_servers(lines.drop_last(), t)->Ok_0;
        if lines.last().len() > 0 {
            let e = server_entry(lines.last())->0;
            let name = lookup(t, e.0)->0;
            lemma_find_region(gs, e.0);
            let k = find_region(gs, e.0);
            let ng = add_to_region(gs, e.0, name, e.1);
            if k >= 0 {
                lemma_server_total_update(gs, k, RegionView { games: gs[k].games.push(e.1), ..gs[k] });
                assert forall|a: int| 0 <= a < ng.len() implies lookup(t, #[trigger] ng[a].id) == Some(ng[a].name) by {
                    if a != k {
                        assert(ng[a] == gs[a]);
                    }
                }
                assert forall|a: int, b: int| 0 <= a < ng.len() && 0 <= b < ng.len() && a != b implies #[trigger] ng[a].id != #[trigger] ng[b].id by {
                    assert(ng[a].id == gs[a].id);
                    assert(ng[b].id == gs[b].id);
                }
            } else {
                assert(ng.drop_last() == gs);
                assert forall|a: int| 0 <= a < ng.len() implies lookup(t, #[trigger] ng[a].id) == Some(ng[a].name) by {
                    if a < gs.len() {
                        assert(ng[a] == gs[a]);
                    }
                }
                assert forall|a: int, b: int| 0 <= a < ng.len() && 0 <= b < ng.len() && a != b implies #[trigger] ng[a].id != #[trigger] ng[b].id by {
                    if a < gs.len() {
                        assert(ng[a] == gs[a]);
                    }
                    if b < gs.len() {
                        assert(ng[b] == gs[b]);
                    }
                }
            }
        }
    }
}

/// Some line of `lines` is the record of server `s` in region `id`.
pub open spec fn from_line(lines: Seq<Seq<char>>, id: Seq<char>, s: ServerView) -> bool {
    exists|k: int| 0 <= k < lines.len() && #[trigger] server_entry(lines[k]) == Some((id, s))
}

proof fn lemma_group_servers_origin(lines: Seq<Seq<char>>, t: Seq<(Seq<char>, Seq<char>)>)
    requires
        group_servers(lines, t) is Ok,
    ensures
        ({
            let gs = group_servers(lines, t)->Ok_0;
            forall|a: int, b: int|
                0 <= a < gs.len() && 0 <= b < gs[a].games.len() ==> from_line(
                    lines,
                    gs[a].id,
                    #[trigger] gs[a].games[b],
                )
        }),
    decreases lines.len(),
{
    if lines.len() > 0 {
        let prev = lines.drop_last();
        lemma_group_servers_origin(prev, t);
        let gs = group_servers(prev, t)->Ok_0;
        let last = lines.len() - 1;
        assert forall|a: int, b: int|
            0 <= a < gs.len() && 0 <= b < gs[a].games.len() && from_line(
                prev,
                gs[a].id,
                gs[a].games[b],
            ) implies from_line(lines, gs[a].id, #[trigger] gs[a].games[b]) by {
            let k = choose|k: int|
                0 <= k < prev.len() && #[trigger] server_entry(prev[k]) == Some(
                    (gs[a].id, gs[a].games[b]),
                );
            assert(lines[k] == prev[k]);
        }
        if lines.last().len() > 0 {
            let e = server_entry(lines.last())->0;
            let name = lookup(t, e.0)->0;
            lemma_find_region(gs, e.0);
            let k = find_region(gs, e.0);
            let ng = add_to_region(gs, e.0, name, e.1);
            assert(server_entry(lines[last]) == Some((e.0, e.1)));
            assert forall|a: int, b: int|
                0 <= a < ng.len() && 0 <= b < ng[a].games.len() implies from_line(
                lines,
                ng[a].id,
                #[trigger] ng[a].games[b],
            ) by {
                if k >= 0 {
                    if a == k && b == gs[k].games.len() {
                        assert(ng[a].games[b] == e.1);
                    } else {
                        assert(ng[a].games[b] == gs[a].games[b]);
                        assert(ng[a].id == gs[a].id);
                    }
                } else {
                    if a == gs.len() {
                        assert(ng[a].games[b] == e.1);
                    } else {
                        assert(ng[a] == gs[a]);
                    }
                }
            }
        }
    }
}

/// Every server of a directory read from the two descriptor documents was
/// read from a server line whose region id is the id of the region that
/// holds it.
pub proof fn lemma_parse_config_places_servers(config: Seq<char>, regions: Seq<char>)
    requires
        parse_config_spec(config, regions) is Ok,
    ensures
        ({
            let g = parse_config_spec(config, regions)->Ok_0;
            forall|a: int, b: int|
                0 <= a < g.data.len() && 0 <= b < g.data[a].games.len() ==> from_line(
                    split_on(config, '\n'),
                    g.data[a].id,
                    #[trigger] g.data[a].games[b],
                )
        }),
{
    let t = region_table(split_on(regions, '\n'))->0;
    lemma_group_servers_origin(split_on(config, '\n'), t);
}

/// A directory read from the two descriptor documents holds exactly one
/// server per server record, names every region as the region table names
/// its id, and holds each region id once.
pub proof fn lemma_parse_config_conserves(config: Seq<char>, regions: Seq<char>)
    requires
        parse_config_spec(config, regions) is Ok,
    ensures
        ({
            let g = parse_config_spec(config, regions)->Ok_0;
            &&& server_total(g.data) == record_count(split_on(config, '\n'))
            &&& region_ids_distinct(g.data)
            &&& forall|k: int|
                0 <= k < g.data.len() ==> region_name(regions, #[trigger] g.data[k].id) == Some(
                    g.data[k].name,
                )
        }),
{
    let t = region_table(split_on(regions, '\n'))->0;
    lemma_group_servers_shape(split_on(config, '\n'), t);
}

/// A server record whose region id the region table does not hold makes
/// the whole read fail: no directory comes out.
pub proof fn lemma_parse_config_rejects_unknown_region(
    config: Seq<char>,
    regions: Seq<char>,
    k: int,
)
    requires
        0 <= k < split_on(config, '\n').len(),
        server_entry(split_on(config, '\n')[k]) is Some,
        region_name(regions, (server_entry(split_on(config, '\n')[k])->0).0) is None,
    ensures
        parse_config_spec(config, regions) is Err,
{
    let ls = split_on(config, '\n');
    if let Some(t) = region_table(split_on(regions, '\n')) {
        assert(ls.take(k + 1).drop_last() == ls.take(k));
        assert(ls.take(k + 1).last() == ls[k]);
        assert(ls[k].len() > 0) by {
            if ls[k].len() == 0 {
                assert(split_on(ls[k], '|') == seq![Seq::<char>::empty()]);
            }
        }
        let r = group_servers(ls.take(k + 1), t);
        assert(r is Err);
        lemma_group_servers_fails_on(ls, t, k + 1, r->Err_0);
    }
}

fn lookup_name(t: &Vec<(String, String)>, id: &String) -> (r: Option<String>)
    ensures
        match r {
            Some(n) => lookup(t@.map_values(|p: (String, String)| (p.0@, p.1@)), id@) == Some(n@),
            None => lookup(t@.map_values(|p: (String, String)| (p.0@, p.1@)), id@) is None,
        },
{
    let ghost tv = t@.map_values(|p: (String, String)| (p.0@, p.1@));
    let mut found: Option<String> = None;
    let mut i: usize = 0;
    while i < t.len()
        invariant
            i <= t.len(),
            tv == t@.map_values(|p: (String, String)| (p.0@, p.1@)),
            match found {
                Some(n) => lookup(tv.take(i as int), id@) == Some(n@),
                None => lookup(tv.take(i as int), id@) is None,
            },
        decreases t.len() - i,
    {
        assert(tv.take(i + 1).drop_last() == tv.take(i as int));
        if t[i].0 == *id {
            found = Some(t[i].1.clone());
        }
        i = i + 1;
    }
    assert(tv.take(i as int) == tv);
    found
}

fn find_region_index(gs: &Vec<RegionSpec>, id: &String) -> (r: Option<usize>)
    ensures
        match r {
            Some(k) => find_region(gs@.map_values(|g: RegionSpec| g@), id@) == k as int && k
                < gs@.len(),
            None => find_region(gs@.map_values(|g: RegionSpec| g@), id@) == -1,
        },
{
    let ghost gv = gs@.map_values(|g: RegionSpec| g@);
    let mut found: Option<usize> = None;
    let mut i: usize = 0;
    while i < gs.len()
        invariant
            i <= gs.len(),
            gv == gs@.map_values(|g: RegionSpec| g@),
            match found {
                Some(k) => find_region(gv.take(i as int), id@) == k as int && k < i,
                None => find_region(gv.take(i as int), id@) == -1,
            },
        decreases gs.len() - i,
    {
        assert(gv.take(i + 1).drop_last() == gv.take(i as int));
        if gs[i].id == *id {
            found = Some(i);
        }
        i = i + 1;
    }
    assert(gv.take(i as int) == gv);
    found
}

fn read_region_table(regions: &str) -> (r: Result<Vec<(String, String)>, ParseError>)
    ensures
        match r {
            Ok(t) => region_table(split_on(regions@, '\n')) == Some(
                t@.map_values(|p: (String, String)| (p.0@, p.1@)),
            ),
            Err(e) => region_table(split_on(regions@, '\n')) is None && e
                == ParseError::MalformedRegionRecord,
        },
{
    let lines = split_str(regions, '\n');
    let ghost ls = split_on(regions@, '\n');
    let mut t: Vec<(String, String)> = Vec::new();
    let mut i: usize = 0;
    while i < lines.len()
        invariant
            i <= lines@.len(),
            lines@.len() == ls.len(),
            forall|k: int| 0 <= k < lines@.len() ==> #[trigger] lines@[k]@ == ls[k],
            ls == split_on(regions@, '\n'),
            region_table(ls.take(i as int)) == Some(
                t@.map_values(|p: (String, String)| (p.0@, p.1@)),
            ),
        decreases lines.len() - i,
    {
        assert(ls.take(i + 1).drop_last() == ls.take(i as int));
        assert(ls.take(i + 1).last() == lines@[i as int]@);
        if !lines[i].as_str().is_empty() {
            let fields = split_str(lines[i].as_str(), '|');
            if fields.len() < 2 {
                proof {
                    lemma_region_table_fails_on(ls, i + 1);
                }
                return Err(ParseError::MalformedRegionRecord);
            }
            let ghost before = t@.map_values(|p: (String, String)| (p.0@, p.1@));
            t.push((fields[0].clone(), fields[1].clone()));
            assert(t@.map_values(|p: (String, String)| (p.0@, p.1@)) =~= before.push(
                (fields@[0]@, fields@[1]@),
            ));
        }
        i = i + 1;
    }
    assert(ls.take(i as int) == ls);
    Ok(t)
}

fn read_server(line: &str) -> (r: Option<(String, ServerSpec)>)
    ensures
        match r {
            Some(p) => server_entry(line@) == Some((p.0@, p.1@)),
            None => server_entry(line@) is None,
        },
{
    let f = split_str(line, '|');
    if f.len() < 7 {
        return None;
    }
    let ty = match parse_u8(f[1].as_str()) {
        Some(ty) => ty,
        None => {
            return None;
        },
    };
    let s = ServerSpec {
        url: String::new(),
        ty,
        id: f[2].clone(),
        name: f[3].clone(),
        name_short: f[4].clone(),
        players: None,
        host: f[5].clone(),
        path: f[6].clone(),
    };
    assert(s@.url =~= Seq::<char>::empty());
    Some((f[0].clone(), s))
}

/// Reads the directory from the server table `config` and the region table
/// `regions`; the whole directory is refused on the first failing record.
pub fn parse_config(config: &str, regions: &str) -> (r: Result<GameSpec, ParseError>)
    ensures
        game_result_view(r) == parse_config_spec(config@, regions@),
{
    let table = match read_region_table(regions) {
        Ok(t) => t,
        Err(e) => {
            return Err(e);
        },
    };
    let ghost tv = table@.map_values(|p: (String, String)| (p.0@, p.1@));
    let lines = split_str(config, '\n');
    let ghost ls = split_on(config@, '\n');
    let mut groups: Vec<RegionSpec> = Vec::new();
    let mut i: usize = 0;
    assert(ls.take(0) =~= Seq::<Seq<char>>::empty());
    assert(groups@.map_values(|g: RegionSpec| g@) =~= Seq::<RegionView>::empty());
    while i < lines.len()
        invariant
            i <= lines@.len(),
            lines@.len() == ls.len(),
            forall|k: int| 0 <= k < lines@.len() ==> #[trigger] lines@[k]@ == ls[k],
            ls == split_on(config@, '\n'),
            tv == table@.map_values(|p: (String, String)| (p.0@, p.1@)),
            region_table(split_on(regions@, '\n')) == Some(tv),
            group_servers(ls.take(i as int), tv) == Ok::<Seq<RegionView>, ParseError>(
                groups@.map_values(|g: RegionSpec| g@),
            ),
        decreases lines.len() - i,
    {
        assert(ls.take(i + 1).drop_last() == ls.take(i as int));
        assert(ls.take(i + 1).last() == lines@[i as int]@);
        if !lines[i].as_str().is_empty() {
            let (region, server) = match read_server(lines[i].as_str()) {
                Some(p) => p,
                None => {
                    proof {
                        lemma_group_servers_fails_on(
                            ls,
                            tv,
                            i + 1,
                            ParseError::MalformedServerRecord,
                        );
                    }
                    return Err(ParseError::MalformedServerRecord);
                },
            };
            let name = match lookup_name(&table, &region) {
                Some(n) => n,
                None => {
                    proof {
                        lemma_group_servers_fails_on(ls, tv, i + 1, ParseError::UnknownRegion);
                    }
                    return Err(ParseError::UnknownRegion);
                },
            };
            let ghost before = groups@.map_values(|g: RegionSpec| g@);
            let ghost sv = server@;
            match find_region_index(&groups, &region) {
                Some(k) => {
                    let ghost old_games = groups@[k as int].games@;
                    groups[k].games.push(server);
                    assert(groups@[k as int].games@.map_values(|s: ServerSpec| s@)
                        =~= old_games.map_values(|s: ServerSpec| s@).push(sv));
                    assert(groups@.map_values(|g: RegionSpec| g@) =~= before.update(
                        k as int,
                        RegionView { games: before[k as int].games.push(sv), ..before[k as int] },
                    ));
                },
                None => {
                    let mut games: Vec<ServerSpec> = Vec::new();
                    games.push(server);
                    assert(games@.map_values(|s: ServerSpec| s@) =~= seq![sv]);
                    groups.push(RegionSpec { name, id: region, games });
                    assert(groups@.map_values(|g: RegionSpec| g@) =~= before.push(
                        RegionView { name: name@, id: region@, games: seq![sv] },
                    ));
                },
            }
        }
        i = i + 1;
    }
    assert(ls.take(i as int) == ls);
    Ok(GameSpec { protocol: DIRECTORY_PROTOCOL, country: String::new(), data: groups })
}

/// Reads a new directory from the two descriptor documents as fetched:
/// `None` where a document could not be fetched.
pub fn fetch_config(config: Option<String>, regions: Option<String>) -> (r: Result<
    GameSpec,
    RefreshError,
>)
    ensures
        match (config, regions) {
            (Some(c), Some(g)) => match parse_config_spec(c@, g@) {
                Ok(v) => r is Ok && r->Ok_0@ == v,
                Err(e) => r == Err::<GameSpec, RefreshError>(RefreshError::Parse(e)),
            },
            _ => r == Err::<GameSpec, RefreshError>(RefreshError::Fetch),
        },
{
    match (config, regions) {
        (Some(c), Some(g)) => match parse_config(c.as_str(), g.as_str()) {
            Ok(v) => Ok(v),
            Err(e) => Err(RefreshError::Parse(e)),
        },
        _ => Err(RefreshError::Fetch),
    }
}

} // verus!
