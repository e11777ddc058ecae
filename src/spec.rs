use vstd::prelude::*;

verus! {

/// What a server record says, as mathematical values.
pub struct ServerView {
    pub url: Seq<char>,
    pub ty: u8,
    pub id: Seq<char>,
    pub name: Seq<char>,
    pub name_short: Seq<char>,
    pub players: Option<u32>,
    pub host: Seq<char>,
    pub path: Seq<char>,
}

/// What a region says, as mathematical values.
pub struct RegionView {
    pub name: Seq<char>,
    pub id: Seq<char>,
    pub games: Seq<ServerView>,
}

/// What a whole directory or payload says, as mathematical values.
pub struct GameView {
    pub protocol: u8,
    pub country: Seq<char>,
    pub data: Seq<RegionView>,
}

/// One game server. An empty `url` means that the address is derived from
/// `host` and `path`; `players` is `None` until a count is known.
#[derive(Clone, Debug)]
pub struct ServerSpec {
    pub url: String,
    pub ty: u8,
    pub id: String,
    pub name: String,
    pub name_short: String,
    pub players: Option<u32>,
    pub host: String,
    pub path: String,
}

impl View for ServerSpec {
    type V = ServerView;

    open spec fn view(&self) -> ServerView {
        ServerView {
            url: self.url@,
            ty: self.ty,
            id: self.id@,
            name: self.name@,
            name_short: self.name_short@,
            players: self.players,
            host: self.host@,
            path: self.path@,
        }
    }
}

/// The address of a server: the stored one, or `host/path` when none is stored.
pub open spec fn server_url(s: ServerView) -> Seq<char> {
    if s.url.len() == 0 {
        s.host + "/"@ + s.path
    } else {
        s.url
    }
}

impl ServerSpec {
    pub fn url(&self) -> (r: String)
        ensures
            r@ == server_url(self@),
    {
        if self.url.as_str().is_empty() {
            let mut r = self.host.clone();
            r.append("/");
            r.append(self.path.as_str());
            r
        } else {
            self.url.clone()
        }
    }
}

/// A named group of servers.
#[derive(Clone, Debug)]
pub struct RegionSpec {
    pub name: String,
    pub id: String,
    pub games: Vec<ServerSpec>,
}

impl View for RegionSpec {
    type V = RegionView;

    open spec fn view(&self) -> RegionView {
        RegionView {
            name: self.name@,
            id: self.id@,
            games: self.games@.map_values(|s: ServerSpec| s@),
        }
    }
}

/// The server directory, or a payload built from it: a protocol tag, the
/// client's country code and the regions.
#[derive(Clone, Debug)]
pub struct GameSpec {
    pub protocol: u8,
    pub country: String,
    pub data: Vec<RegionSpec>,
}

impl View for GameSpec {
    type V = GameView;

    open spec fn view(&self) -> GameView {
        GameView {
            protocol: self.protocol,
            country: self.country@,
            data: self.data@.map_values(|r: RegionSpec| r@),
        }
    }
}

/// A server record of the legacy bulk feed; its player count is always given.
#[derive(Clone, Debug)]
pub struct AltServerSpec {
    pub ty: u8,
    pub id: String,
    pub name: String,
    pub name_short: String,
    pub players: u32,
    pub host: String,
}

/// What a legacy server record says, as mathematical values.
pub struct AltServerView {
    pub ty: u8,
    pub id: Seq<char>,
    pub name: Seq<char>,
    pub name_short: Seq<char>,
    pub players: u32,
    pub host: Seq<char>,
}

impl View for AltServerSpec {
    type V = AltServerView;

    open spec fn view(&self) -> AltServerView {
        AltServerView {
            ty: self.ty,
            id: self.id@,
            name: self.name@,
            name_short: self.name_short@,
            players: self.players,
            host: self.host@,
        }
    }
}

/// A region of the legacy bulk feed.
#[derive(Clone, Debug)]
pub struct AltRegionSpec {
    pub name: String,
    pub id: String,
    pub games: Vec<AltServerSpec>,
}

/// What a legacy region says, as mathematical values.
pub struct AltRegionView {
    pub name: Seq<char>,
    pub id: Seq<char>,
    pub games: Seq<AltServerView>,
}

impl View for AltRegionSpec {
    type V = AltRegionView;

    open spec fn view(&self) -> AltRegionView {
        AltRegionView {
            name: self.name@,
            id: self.id@,
            games: self.games@.map_values(|s: AltServerSpec| s@),
        }
    }
}

/// The envelope of the legacy bulk feed; `data` holds the regions as JSON text.
#[derive(Clone, Debug)]
pub struct AltGameSpec {
    pub protocol: u8,
    pub country: String,
    pub data: String,
}

/// What the legacy envelope says, as mathematical values.
pub struct AltGameView {
    pub protocol: u8,
    pub country: Seq<char>,
    pub data: Seq<char>,
}

impl View for AltGameSpec {
    type V = AltGameView;

    open spec fn view(&self) -> AltGameView {
        AltGameView { protocol: self.protocol, country: self.country@, data: self.data@ }
    }
}

/// The reply of one server's status endpoint.
#[derive(Clone, Debug)]
pub struct ServerResponse {
    pub players: u32,
}

impl ServerSpec {
    /// A copy with the same view.
    pub fn duplicate(&self) -> (r: ServerSpec)
        ensures
            r@ == self@,
    {
        ServerSpec {
            url: self.url.clone(),
            ty: self.ty,
            id: self.id.clone(),
            name: self.name.clone(),
            name_short: self.name_short.clone(),
            players: self.players,
            host: self.host.clone(),
            path: self.path.clone(),
        }
    }
}

} // verus!
