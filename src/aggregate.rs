use vstd::prelude::*;

use crate::config::server_total;
use crate::encode::{encode_payload, payload_json};
use crate::fetch::FetchOutcome;
use crate::official::{official_regions, official_regions_spec};
use crate::spec::{server_url, GameSpec, GameView, RegionSpec, RegionView, ServerSpec, ServerView};

verus! {

/// The protocol tag of the payload sent to clients.
pub const PAYLOAD_PROTOCOL: u8 = 5;

/// The servers of all regions, region after region.
pub open spec fn flat_servers(data: Seq<RegionView>) -> Seq<ServerView>
    decreases data.len(),
{
    if data.len() == 0 {
        Seq::empty()
    } else {
        flat_servers(data.drop_last()) + data.last().games
    }
}

/// The address that a server's status is read from.
pub open spec fn status_url(s: ServerView) -> Seq<char> {
    "https://"@ + server_url(s)
}

/// The position, among all servers, of the first server of region `i`.
pub open spec fn offset(data: Seq<RegionView>, i: int) -> int {
    server_total(data.take(i)) as int
}

/// The result at position `k`; none where there is no such result.
pub open spec fn count_at(counts: Seq<Option<u32>>, k: int) -> Option<u32> {
    if 0 <= k < counts.len() {
        counts[k]
    } else {
        None
    }
}

/// A server as a client sees it: its game address and this request's count.
pub open spec fn live_server(s: ServerView, count: Option<u32>) -> ServerView {
    ServerView { url: "wss://"@ + server_url(s), players: count, ..s }
}

/// The regions with each server's count taken from its own position in
/// `counts`.
pub open spec fn with_counts(data: Seq<RegionView>, counts: Seq<Option<u32>>) -> Seq<RegionView> {
    Seq::new(
        data.len(),
        |i: int|
            RegionView {
                games: Seq::new(
                    data[i].games.len(),
                    |j: int| live_server(data[i].games[j], count_at(counts, offset(data, i) + j)),
                ),
                ..data[i]
            },
    )
}

/// The payload for one request: the directory's regions with this request's
/// counts, then the official feed's regions as they came.
pub open spec fn payload_spec(
    snapshot: GameView,
    counts: Seq<Option<u32>>,
    official: Seq<RegionView>,
    country: Seq<char>,
) -> GameView {
    GameView {
        protocol: PAYLOAD_PROTOCOL,
        country,
        data: with_counts(snapshot.data, counts) + official,
    }
}

/// Each server of the payload carries the result of its own query, and a
/// query that fails (gives no count) leaves its own server without a count
/// while every other server, and every region of the official feed, stays
/// as it would otherwise be.
pub proof fn lemma_failed_query_is_isolated(
    snapshot: GameView,
    counts: Seq<Option<u32>>,
    k: int,
    official: Seq<RegionView>,
    country: Seq<char>,
)
    requires
        0 <= k < counts.len(),
    ensures
        ({
            let data = snapshot.data;
            let a = payload_spec(snapshot, counts, official, country);
            let b = payload_spec(snapshot, counts.update(k, None), official, country);
            &&& a.data.len() == b.data.len() == data.len() + official.len()
            &&& forall|i: int, j: int|
                0 <= i < data.len() && 0 <= j < data[i].games.len() ==> #[trigger] a.data[i].games[j].players
                    == count_at(counts, offset(data, i) + j)
            &&& forall|i: int, j: int|
                0 <= i < data.len() && 0 <= j < data[i].games.len() && offset(data, i) + j == k
                    ==> #[trigger] b.data[i].games[j].players is None
            &&& forall|i: int, j: int|
                0 <= i < data.len() && 0 <= j < data[i].games.len() && offset(data, i) + j != k
                    ==> #[trigger] b.data[i].games[j] == a.data[i].games[j]
            &&& forall|i: int|
                0 <= i < data.len() ==> #[trigger] b.data[i].games.len() == a.data[i].games.len()
            &&& forall|i: int| data.len() <= i < b.data.len() ==> #[trigger] b.data[i] == a.data[i]
        }),
{
    let data = snapshot.data;
    let a = payload_spec(snapshot, counts, official, country);
    let b = payload_spec(snapshot, counts.update(k, None), official, country);
    assert forall|i: int, j: int|
        0 <= i < data.len() && 0 <= j < data[i].games.len() && offset(data, i) + j != k
            implies #[trigger] b.data[i].games[j] == a.data[i].games[j] by {
        assert(b.data[i] == with_counts(data, counts.update(k, None))[i]);
        assert(a.data[i] == with_counts(data, counts)[i]);
    }
    assert forall|i: int, j: int|
        0 <= i < data.len() && 0 <= j < data[i].games.len() implies #[trigger] a.data[i].games[j].players
            == count_at(counts, offset(data, i) + j) by {
        assert(a.data[i] == with_counts(data, counts)[i]);
    }
    assert forall|i: int, j: int|
        0 <= i < data.len() && 0 <= j < data[i].games.len() && offset(data, i) + j == k
            implies #[trigger] b.data[i].games[j].players is None by {
        assert(b.data[i] == with_counts(data, counts.update(k, None))[i]);
    }
    assert forall|i: int| 0 <= i < data.len() implies #[trigger] b.data[i].games.len() == a.data[i].games.len() by {
        assert(b.data[i] == with_counts(data, counts.update(k, None))[i]);
        assert(a.data[i] == with_counts(data, counts)[i]);
    }
}

/// The query at position `offset(data, i) + j` of `status_targets` is the
/// one for server `j` of region `i`: results are matched to servers by
/// position, whatever order the queries finish in.
pub proof fn lemma_positions_agree(data: Seq<RegionView>, i: int, j: int)
    requires
        0 <= i < data.len(),
        0 <= j < data[i].games.len(),
    ensures
        flat_servers(data).len() == server_total(data),
        0 <= offset(data, i) + j < flat_servers(data).len(),
        flat_servers(data)[offset(data, i) + j] == data[i].games[j],
    decreases data.len(),
{
    let prev = data.drop_last();
    lemma_flat_len(data);
    lemma_flat_len(prev);
    assert(data.take(data.len() - 1) == prev);
    if i < data.len() - 1 {
        lemma_positions_agree(prev, i, j);
        assert(data.take(i) == prev.take(i));
        assert(prev[i] == data[i]);
    }
}

proof fn lemma_flat_len(data: Seq<RegionView>)
    ensures
        flat_servers(data).len() == server_total(data),
    decreases data.len(),
{
    if data.len() > 0 {
        lemma_flat_len(data.drop_last());
    }
}

proof fn lemma_server_total_step(data: Seq<RegionView>, i: int)
    requires
        0 <= i < data.len(),
    ensures
        server_total(data.take(i + 1)) == server_total(data.take(i)) + data[i].games.len(),
{
    assert(data.take(i + 1).drop_last() == data.take(i));
}

proof fn lemma_flat_servers_step(data: Seq<RegionView>, i: int)
    requires
        0 <= i < data.len(),
    ensures
        flat_servers(data.take(i + 1)) == flat_servers(data.take(i)) + data[i].games,
{
    assert(data.take(i + 1).drop_last() == data.take(i));
}

/// The addresses to query, one per server, region after region.
pub fn status_targets(snapshot: &GameSpec) -> (r: Vec<String>)
    ensures
        r@.map_values(|u: String| u@) == flat_servers(snapshot@.data).map_values(
            |s: ServerView| status_url(s),
        ),
{
    let ghost data = snapshot@.data;
    let mut r: Vec<String> = Vec::new();
    let mut i: usize = 0;
    while i < snapshot.data.len()
        invariant
            i <= data.len(),
            data == snapshot@.data,
            r@.map_values(|u: String| u@) =~= flat_servers(data.take(i as int)).map_values(
                |s: ServerView| status_url(s),
            ),
        decreases snapshot.data.len() - i,
    {
        proof {
            lemma_flat_servers_step(data, i as int);
        }
        let region = &snapshot.data[i];
        let ghost games = region@.games;
        let ghost base = r@.map_values(|u: String| u@);
        let mut j: usize = 0;
        while j < region.games.len()
            invariant
                j <= games.len(),
                games == region@.games,
                r@.map_values(|u: String| u@) =~= base + games.take(j as int).map_values(
                    |s: ServerView| status_url(s),
                ),
            decreases region.games.len() - j,
        {
            let ghost before = r@.map_values(|u: String| u@);
            let mut u = String::new();
            u.append("https://");
            let a = region.games[j].url();
            u.append(a.as_str());
            assert(games[j as int] == region.games@[j as int]@);
            r.push(u);
            assert(r@.map_values(|u: String| u@) =~= before.push(u@));
            assert(games.take(j + 1).map_values(|s: ServerView| status_url(s)) =~= games.take(
                j as int,
            ).map_values(|s: ServerView| status_url(s)).push(status_url(games[j as int])));
            j = j + 1;
        }
        assert(games.take(j as int) == games);
        assert(flat_servers(data.take(i + 1)).map_values(|s: ServerView| status_url(s))
            =~= flat_servers(data.take(i as int)).map_values(|s: ServerView| status_url(s))
            + games.map_values(|s: ServerView| status_url(s)));
        i = i + 1;
    }
    assert(data.take(i as int) == data);
    r
}

/// Builds the payload for one request from the directory, the result of
/// each server's query in the order of `status_targets`, the official
/// feed's regions and the client's country code. A server whose query gave
/// nothing, or that has no result in `counts`, carries no count.
pub fn assemble(
    snapshot: &GameSpec,
    counts: &Vec<Option<u32>>,
    official: Vec<RegionSpec>,
    country: String,
) -> (r: GameSpec)
    ensures
        r@ == payload_spec(snapshot@, counts@, official@.map_values(|g: RegionSpec| g@), country@),
{
    let ghost data = snapshot@.data;
    let mut out: Vec<RegionSpec> = Vec::new();
    let mut k: usize = 0;
    let mut i: usize = 0;
    while i < snapshot.data.len()
        invariant
            i <= data.len(),
            data == snapshot@.data,
            k as int == if offset(data, i as int) < counts@.len() {
                offset(data, i as int)
            } else {
                counts@.len() as int
            },
            out@.len() == i,
            forall|a: int| 0 <= a < i ==> #[trigger] out@[a]@ == with_counts(data, counts@)[a],
        decreases snapshot.data.len() - i,
    {
        proof {
            lemma_server_total_step(data, i as int);
        }
        let region = &snapshot.data[i];
        let ghost games = region@.games;
        let mut live: Vec<ServerSpec> = Vec::new();
        let mut j: usize = 0;
        while j < region.games.len()
            invariant
                j <= games.len(),
                games == region@.games,
                games == data[i as int].games,
                k as int == if offset(data, i as int) + j < counts@.len() {
                    offset(data, i as int) + j
                } else {
                    counts@.len() as int
                },
                live@.len() == j,
                forall|b: int|
                    0 <= b < j ==> #[trigger] live@[b]@ == live_server(
                        games[b],
                        count_at(counts@, offset(data, i as int) + b),
                    ),
            decreases region.games.len() - j,
        {
            let count = if k < counts.len() {
                counts[k]
            } else {
                None
            };
            if k < counts.len() {
                k = k + 1;
            }
            let s = &region.games[j];
            let mut url = String::new();
            url.append("wss://");
            let a = s.url();
            url.append(a.as_str());
            let mut c = s.duplicate();
            c.url = url;
            c.players = count;
            assert(games[j as int] == region.games@[j as int]@);
            assert(c@ == live_server(games[j as int], count_at(counts@, offset(data, i as int) + j)));
            live.push(c);
            j = j + 1;
        }
        let g = RegionSpec { name: region.name.clone(), id: region.id.clone(), games: live };
        assert(g@.games =~= with_counts(data, counts@)[i as int].games);
        out.push(g);
        i = i + 1;
    }
    let ghost native = out@.map_values(|g: RegionSpec| g@);
    assert(native =~= with_counts(data, counts@));
    let ghost extra = official@.map_values(|g: RegionSpec| g@);
    let mut official = official;
    out.append(&mut official);
    assert(out@.map_values(|g: RegionSpec| g@) =~= native + extra);
    GameSpec { protocol: PAYLOAD_PROTOCOL, country, data: out }
}

/// The country code sent back: the request's header value, or `XX` where
/// it had none that could be read.
pub open spec fn country_of(header: Option<Seq<char>>) -> Seq<char> {
    match header {
        Some(h) => h,
        None => "XX"@,
    }
}

pub fn country_code(header: Option<String>) -> (r: String)
    ensures
        r@ == country_of(
            match header {
                Some(h) => Some(h@),
                None => None,
            },
        ),
{
    match header {
        Some(h) => h,
        None => String::from_str("XX"),
    }
}

pub open spec fn outcome_players(o: FetchOutcome) -> Option<u32> {
    match o {
        FetchOutcome::Players(n) => Some(n),
        FetchOutcome::Unavailable(_) => None,
    }
}

/// The counts that the queries gave, in their order.
pub fn counts_of(outcomes: &Vec<FetchOutcome>) -> (r: Vec<Option<u32>>)
    ensures
        r@ == outcomes@.map_values(|o: FetchOutcome| outcome_players(o)),
{
    let mut r: Vec<Option<u32>> = Vec::new();
    let mut i: usize = 0;
    while i < outcomes.len()
        invariant
            i <= outcomes@.len(),
            r@ =~= outcomes@.take(i as int).map_values(|o: FetchOutcome| outcome_players(o)),
        decreases outcomes.len() - i,
    {
        r.push(outcomes[i].players());
        assert(outcomes@.take(i + 1).map_values(|o: FetchOutcome| outcome_players(o))
            =~= outcomes@.take(i as int).map_values(|o: FetchOutcome| outcome_players(o)).push(
            outcome_players(outcomes@[i as int]),
        ));
        i = i + 1;
    }
    assert(outcomes@.take(i as int) == outcomes@);
    r
}

/// The regions of the official feed's body, none where the feed could not
/// be fetched.
pub open spec fn official_of(body: Option<Seq<char>>) -> Seq<RegionView> {
    match body {
        Some(b) => official_regions_spec(b),
        None => Seq::empty(),
    }
}

/// The text of the reply to one status request: the directory `snapshot`,
/// the outcome of each server's query in the order of `status_targets`, the
/// official feed's body where it could be fetched, and the request's
/// country header where it had one.
pub fn games_payload(
    snapshot: &GameSpec,
    outcomes: &Vec<FetchOutcome>,
    official_body: Option<String>,
    country_header: Option<String>,
) -> (r: String)
    ensures
        r@ == payload_json(
            payload_spec(
                snapshot@,
                outcomes@.map_values(|o: FetchOutcome| outcome_players(o)),
                official_of(
                    match official_body {
                        Some(b) => Some(b@),
                        None => None,
                    },
                ),
                country_of(
                    match country_header {
                        Some(h) => Some(h@),
                        None => None,
                    },
                ),
            ),
        ),
{
    let counts = counts_of(outcomes);
    let official = match official_body {
        Some(b) => official_regions(b.as_str()),
        None => Vec::new(),
    };
    assert(official@.map_values(|g: RegionSpec| g@) =~= official_of(
        match official_body {
            Some(b) => Some(b@),
            None => None,
        },
    ));
    let country = country_code(country_header);
    let payload = assemble(snapshot, &counts, official, country);
    encode_payload(&payload)
}

} // verus!
