use vstd::prelude::*;

use crate::json::{json_quote, json_quoted};
use crate::spec::{server_url, GameSpec, GameView, RegionSpec, RegionView, ServerSpec, ServerView};

verus! {

pub open spec fn digit_text(d: nat) -> Seq<char> {
    if d == 0 {
        "0"@
    } else if d == 1 {
        "1"@
    } else if d == 2 {
        "2"@
    } else if d == 3 {
        "3"@
    } else if d == 4 {
        "4"@
    } else if d == 5 {
        "5"@
    } else if d == 6 {
        "6"@
    } else if d == 7 {
        "7"@
    } else if d == 8 {
        "8"@
    } else {
        "9"@
    }
}

/// `n` in decimal, without leading zeros.
pub open spec fn decimal(n: nat) -> Seq<char>
    decreases n,
{
    if n < 10 {
        digit_text(n)
    } else {
        decimal(n / 10) + digit_text(n % 10)
    }
}

/// The items separated by commas.
pub open spec fn joined(items: Seq<Seq<char>>) -> Seq<char>
    decreases items.len(),
{
    if items.len() == 0 {
        Seq::empty()
    } else if items.len() == 1 {
        items[0]
    } else {
        joined(items.drop_last()) + ","@ + items.last()
    }
}

/// A JSON array of already encoded items.
pub open spec fn json_list(items: Seq<Seq<char>>) -> Seq<char> {
    "["@ + joined(items) + "]"@
}

/// A server as a JSON object, fields in the order `url`, `type`, `id`,
/// `name`, `nameShort`, `players` (`null` when unknown), `host`, `path`.
pub open spec fn server_json(s: ServerView) -> Seq<char> {
    "{\"url\":"@ + json_quoted(server_url(s)) + ",\"type\":"@ + decimal(s.ty as nat)
        + ",\"id\":"@ + json_quoted(s.id) + ",\"name\":"@ + json_quoted(s.name)
        + ",\"nameShort\":"@ + json_quoted(s.name_short) + ",\"players\":"@ + match s.players {
        Some(n) => decimal(n as nat),
        None => "null"@,
    } + ",\"host\":"@ + json_quoted(s.host) + ",\"path\":"@ + json_quoted(s.path) + "}"@
}

/// A region as a JSON object: `name`, `id`, then the array `games`.
pub open spec fn region_json(r: RegionView) -> Seq<char> {
    "{\"name\":"@ + json_quoted(r.name) + ",\"id\":"@ + json_quoted(r.id) + ",\"games\":"@
        + json_list(r.games.map_values(|s: ServerView| server_json(s))) + "}"@
}

/// The regions as one JSON array.
pub open spec fn regions_json_spec(data: Seq<RegionView>) -> Seq<char> {
    json_list(data.map_values(|r: RegionView| region_json(r)))
}

/// The payload on the wire: `protocol`, `country`, and `data`, which holds
/// the regions' JSON array as a JSON string.
pub open spec fn payload_json(g: GameView) -> Seq<char> {
    "{\"protocol\":"@ + decimal(g.protocol as nat) + ",\"country\":"@ + json_quoted(g.country)
        + ",\"data\":"@ + json_quoted(regions_json_spec(g.data)) + "}"@
}

fn push_digit(out: &mut String, d: u32)
    requires
        d < 10,
    ensures
        final(out)@ == old(out)@ + digit_text(d as nat),
{
    if d == 0 {
        out.append("0");
    } else if d == 1 {
        out.append("1");
    } else if d == 2 {
        out.append("2");
    } else if d == 3 {
        out.append("3");
    } else if d == 4 {
        out.append("4");
    } else if d == 5 {
        out.append("5");
    } else if d == 6 {
        out.append("6");
    } else if d == 7 {
        out.append("7");
    } else if d == 8 {
        out.append("8");
    } else {
        out.append("9");
    }
}

/// Appends `n` in decimal.
fn push_decimal(out: &mut String, n: u32)
    ensures
        final(out)@ == old(out)@ + decimal(n as nat),
    decreases n,
{
    let ghost start = out@;
    if n >= 10 {
        push_decimal(out, n / 10);
    }
    push_digit(out, n % 10);
    if n >= 10 {
        assert(out@ =~= start + decimal(n as nat));
    }
}

fn push_quoted(out: &mut String, s: &str)
    ensures
        final(out)@ == old(out)@ + json_quoted(s@),
{
    let q = json_quote(s);
    out.append(q.as_str());
}

fn server_text(s: &ServerSpec) -> (r: String)
    ensures
        r@ == server_json(s@),
{
    let mut out = String::new();
    out.append("{\"url\":");
    let url = s.url();
    push_quoted(&mut out, url.as_str());
    out.append(",\"type\":");
    push_decimal(&mut out, s.ty as u32);
    out.append(",\"id\":");
    push_quoted(&mut out, s.id.as_str());
    out.append(",\"name\":");
    push_quoted(&mut out, s.name.as_str());
    out.append(",\"nameShort\":");
    push_quoted(&mut out, s.name_short.as_str());
    out.append(",\"players\":");
    match s.players {
        Some(n) => push_decimal(&mut out, n),
        None => out.append("null"),
    }
    out.append(",\"host\":");
    push_quoted(&mut out, s.host.as_str());
    out.append(",\"path\":");
    push_quoted(&mut out, s.path.as_str());
    out.append("}");
    assert(out@ =~= server_json(s@));
    out
}

proof fn lemma_joined_step(items: Seq<Seq<char>>, i: int)
    requires
        0 <= i < items.len(),
    ensures
        joined(items.take(i + 1)) == joined(items.take(i)) + (if i == 0 {
            Seq::<char>::empty()
        } else {
            ","@
        }) + items[i],
{
    assert(items.take(i + 1).drop_last() == items.take(i));
    if i == 0 {
        assert(items.take(1)[0] == items[0]);
        assert(joined(items.take(i)) + Seq::<char>::empty() + items[i] =~= items[i]);
    }
}

fn region_text(g: &RegionSpec) -> (r: String)
    ensures
        r@ == region_json(g@),
{
    let ghost items = g@.games.map_values(|s: ServerView| server_json(s));
    let mut out = String::new();
    out.append("{\"name\":");
    push_quoted(&mut out, g.name.as_str());
    out.append(",\"id\":");
    push_quoted(&mut out, g.id.as_str());
    out.append(",\"games\":");
    out.append("[");
    let ghost head = out@;
    let mut j: usize = 0;
    while j < g.games.len()
        invariant
            j <= g.games@.len(),
            items == g@.games.map_values(|s: ServerView| server_json(s)),
            items.len() == g.games@.len(),
            out@ == head + joined(items.take(j as int)),
        decreases g.games.len() - j,
    {
        proof {
            lemma_joined_step(items, j as int);
        }
        let ghost before = out@;
        if j > 0 {
            out.append(",");
        }
        let t = server_text(&g.games[j]);
        out.append(t.as_str());
        assert(items[j as int] == server_json(g.games@[j as int]@));
        assert(out@ =~= head + joined(items.take(j + 1)));
        j = j + 1;
    }
    assert(items.take(j as int) == items);
    out.append("]");
    out.append("}");
    assert(out@ =~= region_json(g@));
    out
}

/// The regions as one JSON array, the text that the payload's `data`
/// string holds.
pub fn regions_json(data: &Vec<RegionSpec>) -> (r: String)
    ensures
        r@ == regions_json_spec(data@.map_values(|g: RegionSpec| g@)),
{
    let ghost items = data@.map_values(|g: RegionSpec| g@).map_values(|r: RegionView| region_json(r));
    let mut out = String::new();
    out.append("[");
    let ghost head = out@;
    let mut i: usize = 0;
    while i < data.len()
        invariant
            i <= data@.len(),
            items == data@.map_values(|g: RegionSpec| g@).map_values(|r: RegionView| region_json(r)),
            items.len() == data@.len(),
            out@ == head + joined(items.take(i as int)),
        decreases data.len() - i,
    {
        proof {
            lemma_joined_step(items, i as int);
        }
        if i > 0 {
            out.append(",");
        }
        let t = region_text(&data[i]);
        out.append(t.as_str());
        assert(items[i as int] == region_json(data@[i as int]@));
        assert(out@ =~= head + joined(items.take(i + 1)));
        i = i + 1;
    }
    assert(items.take(i as int) == items);
    out.append("]");
    assert(out@ =~= regions_json_spec(data@.map_values(|g: RegionSpec| g@)));
    out
}

/// The payload as it goes on the wire.
pub fn encode_payload(p: &GameSpec) -> (r: String)
    ensures
        r@ == payload_json(p@),
{
    let mut out = String::new();
    out.append("{\"protocol\":");
    push_decimal(&mut out, p.protocol as u32);
    out.append(",\"country\":");
    push_quoted(&mut out, p.country.as_str());
    out.append(",\"data\":");
    let inner = regions_json(&p.data);
    push_quoted(&mut out, inner.as_str());
    out.append("}");
    assert(out@ =~= payload_json(p@));
    out
}

} // verus!
