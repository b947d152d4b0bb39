//! Nexus Mods: download servers, their selection, and the requests the provider makes.
use vstd::prelude::*;

use crate::provider::Limits;
use crate::text::{contains_seq, i32_to_decimal, int_decimal, occurs_at, str_contains};

verus! {

/// One download server that Nexus Mods offers for a file.
#[derive(Debug)]
#[allow(non_snake_case)]
pub struct NexusServer {
    pub name: String,
    pub short_name: String,
    pub URI: String,
}

/// The download servers that Nexus Mods answered for a file, in the order it gave them.
#[derive(Debug)]
pub struct NexusDownloadEndpoints<T = NexusServer> {
    data: Vec<T>,
}

impl<T> NexusDownloadEndpoints<T> {
    /// The servers, in order.
    pub closed spec fn servers(&self) -> Vec<T> {
        self.data
    }

    /// The endpoints made of `data`.
    pub fn new(data: Vec<T>) -> (r: Self)
        ensures
            r.servers() == data,
    {
        NexusDownloadEndpoints { data }
    }

    /// The servers, in order.
    pub fn as_vec(&self) -> (r: &Vec<T>)
        ensures
            *r == self.servers(),
    {
        &self.data
    }
}

impl<T> From<NexusDownloadEndpoints<T>> for Vec<T> {
    fn from(endpoints: NexusDownloadEndpoints<T>) -> (r: Vec<T>) {
        endpoints.data
    }
}

impl<T> vstd::std_specs::convert::FromSpecImpl<NexusDownloadEndpoints<T>> for Vec<T> {
    open spec fn obeys_from_spec() -> bool {
        true
    }

    open spec fn from_spec(endpoints: NexusDownloadEndpoints<T>) -> Vec<T> {
        endpoints.servers()
    }
}

/// Server `s` is one that `name` asks for: its short name contains `name`.
pub open spec fn server_matches(s: NexusServer, name: Seq<char>) -> bool {
    contains_seq(s.short_name@, name)
}

/// Server `i` is the first of `servers` that `name` asks for.
pub open spec fn is_first_match(servers: Seq<NexusServer>, name: Seq<char>, i: int) -> bool {
    &&& 0 <= i < servers.len()
    &&& server_matches(servers[i], name)
    &&& forall|j: int| 0 <= j < i ==> !server_matches(#[trigger] servers[j], name)
}

/// The address of the first server that `name` asks for, if any.
pub open spec fn server_for(servers: Seq<NexusServer>, name: Seq<char>) -> Option<String> {
    if exists|i: int| is_first_match(servers, name, i) {
        Some(servers[choose|i: int| is_first_match(servers, name, i)].URI)
    } else {
        None
    }
}

/// `name` stands in `short` as a contiguous run of characters starting at position `k`.
pub open spec fn appears_at(short: Seq<char>, name: Seq<char>, k: int) -> bool {
    0 <= k && k + name.len() <= short.len() && short.subrange(k, k + name.len()) == name
}

/// The server picked for `name` is the first one whose short name holds `name` at some
/// position: if server `i` holds it (at `k`) and no earlier server holds it anywhere,
/// server `i`'s address is the answer.
pub proof fn lemma_server_for_first_containing(
    servers: Seq<NexusServer>,
    name: Seq<char>,
    i: int,
    k: int,
)
    requires
        0 <= i < servers.len(),
        appears_at(servers[i].short_name@, name, k),
        forall|j: int, m: int|
            0 <= j < i ==> !#[trigger] appears_at(servers[j].short_name@, name, m),
    ensures
        server_for(servers, name) == Some(servers[i].URI),
{
    assert(occurs_at(servers[i].short_name@, name, k));
    assert forall|j: int| 0 <= j < i implies !server_matches(#[trigger] servers[j], name) by {
        assert forall|m: int| !occurs_at(servers[j].short_name@, name, m) by {
            assert(!appears_at(servers[j].short_name@, name, m));
        }
    }
    assert(is_first_match(servers, name, i));
    let c = choose|c: int| is_first_match(servers, name, c);
    if c < i {
        assert(!server_matches(servers[c], name));
    } else if c > i {
        assert(!server_matches(servers[i], name));
    }
}

/// No server is picked when no short name holds `name` anywhere.
pub proof fn lemma_server_for_none(servers: Seq<NexusServer>, name: Seq<char>)
    requires
        forall|j: int, m: int|
            0 <= j < servers.len() ==> !#[trigger] appears_at(servers[j].short_name@, name, m),
    ensures
        server_for(servers, name) is None,
{
    assert forall|i: int| !is_first_match(servers, name, i) by {
        if 0 <= i < servers.len() {
            assert forall|m: int| !occurs_at(servers[i].short_name@, name, m) by {
                assert(!appears_at(servers[i].short_name@, name, m));
            }
        }
    }
}

/// Whatever server is picked holds `name` in its short name, and every earlier server
/// does not.
pub proof fn lemma_server_for_sound(servers: Seq<NexusServer>, name: Seq<char>)
    ensures
        server_for(servers, name) matches Some(u) ==> exists|i: int, k: int|
            0 <= i < servers.len() && appears_at(servers[i].short_name@, name, k) && u
                == servers[i].URI && (forall|j: int, m: int|
                0 <= j < i ==> !#[trigger] appears_at(servers[j].short_name@, name, m)),
{
    if server_for(servers, name) is Some {
        let i = choose|c: int| is_first_match(servers, name, c);
        let k = choose|k: int| occurs_at(servers[i].short_name@, name, k);
        assert(appears_at(servers[i].short_name@, name, k));
        assert forall|j: int, m: int|
            0 <= j < i implies !#[trigger] appears_at(servers[j].short_name@, name, m) by {
            assert(!server_matches(servers[j], name));
            if appears_at(servers[j].short_name@, name, m) {
                assert(occurs_at(servers[j].short_name@, name, m));
            }
        }
    }
}

impl NexusDownloadEndpoints<NexusServer> {
    /// The address of the first server whose short name contains `server_name`.
    pub fn get_server(&self, server_name: &str) -> (r: Option<String>)
        ensures
            r == server_for(self.servers()@, server_name@),
    {
        let servers = &self.data;
        let n = servers.len();
        let mut i: usize = 0;
        while i < n
            invariant
                n == servers@.len(),
                *servers == self.servers(),
                i <= n,
                forall|j: int| 0 <= j < i ==> !server_matches(#[trigger] servers@[j], server_name@),
            decreases n - i,
        {
            if str_contains(servers[i].short_name.as_str(), server_name) {
                assert(is_first_match(servers@, server_name@, i as int));
                proof {
                    let k = choose|k: int| is_first_match(servers@, server_name@, k);
                    if k < i {
                    } else if k > i {
                        assert(!server_matches(servers@[i as int], server_name@));
                    }
                }
                return Some(servers[i].URI.clone());
            }
            i = i + 1;
        }
        assert forall|k: int| !is_first_match(servers@, server_name@, k) by {
            if 0 <= k < n {
                assert(!server_matches(servers@[k], server_name@));
            }
        }
        None
    }

    /// The address of the first server whose short name contains `server_name`, or else
    /// what `closure` makes of the server list.
    pub fn get_server_or<F: Fn(&Vec<NexusServer>) -> String>(
        &self,
        server_name: &str,
        closure: F,
    ) -> (r: String)
        requires
            closure.requires((&self.servers(),)),
        ensures
            match server_for(self.servers()@, server_name@) {
                Some(url) => r == url,
                None => closure.ensures((&self.servers(),), r),
            },
    {
        if let Some(url) = self.get_server(server_name) {
            url
        } else {
            closure(&self.data)
        }
    }
}

/// The request allowances of Nexus Mods: per day and per hour.
#[derive(Debug)]
pub struct NexusLimits {
    pub daily: Limits,
    pub hourly: Limits,
}

/// The host that Nexus Mods answers its API on.
pub open spec fn nexus_api_host() -> Seq<char> {
    "api.nexusmods.com"@
}

/// What the provider assumes of each allowance before Nexus Mods reports one.
pub open spec fn initial_nexus_limits() -> Limits {
    Limits { limit: 2500, remaining: 2500, reset: 0 }
}

/// The key chosen for the provider: the one given, else the one the environment holds,
/// else the empty key.
pub open spec fn chosen_api_key(api_key: Option<String>, env_api_key: Option<String>) -> Seq<char> {
    match api_key {
        Some(k) => k@,
        None => match env_api_key {
            Some(k) => k@,
            None => Seq::empty(),
        },
    }
}

/// A key that is given is always the one chosen, whatever the environment holds; the
/// environment's key is chosen only when none is given; with neither, the key is empty.
pub proof fn lemma_chosen_api_key(api_key: Option<String>, env_api_key: Option<String>)
    ensures
        api_key matches Some(k) ==> chosen_api_key(api_key, env_api_key) == k@,
        api_key is None ==> (env_api_key matches Some(e) ==> chosen_api_key(api_key, env_api_key)
            == e@),
        api_key is None && env_api_key is None ==> chosen_api_key(api_key, env_api_key)
            == Seq::<char>::empty(),
{
}

/// The settings of the Nexus Mods provider: where its API lies, the key it sends, and
/// the allowances it assumes.
#[derive(Debug)]
pub struct NexusProvider {
    pub api_base_url: String,
    pub api_key: String,
    pub limits: NexusLimits,
}

impl NexusProvider {
    /// A provider with the key `api_key`, or `env_api_key` (the value of the
    /// `NEXUS_API_KEY` variable) when none is given, or the empty key.
    pub fn new(api_key: Option<String>, env_api_key: Option<String>) -> (r: Self)
        ensures
            r.api_base_url@ == nexus_api_host(),
            r.api_key@ == chosen_api_key(api_key, env_api_key),
            api_key matches Some(k) ==> r.api_key@ == k@,
            api_key is None ==> (env_api_key matches Some(e) ==> r.api_key@ == e@),
            api_key is None && env_api_key is None ==> r.api_key@ == Seq::<char>::empty(),
            r.limits.daily == initial_nexus_limits(),
            r.limits.hourly == initial_nexus_limits(),
    {
        let key = match api_key {
            Some(k) => k,
            None => match env_api_key {
                Some(k) => k,
                None => String::new(),
            },
        };
        NexusProvider {
            limits: NexusLimits {
                daily: Limits { limit: 2500, remaining: 2500, reset: 0 },
                hourly: Limits { limit: 2500, remaining: 2500, reset: 0 },
            },
            api_key: key,
            api_base_url: String::from_str("api.nexusmods.com"),
        }
    }

    /// The address a request for `endpoint` goes to: `https://`, the API host, then the
    /// endpoint.
    pub fn request_url(&self, endpoint: &str) -> (r: String)
        ensures
            r@ == "https://"@ + self.api_base_url@ + endpoint@,
    {
        let mut r = String::from_str("https://");
        r.append(self.api_base_url.as_str());
        r.append(endpoint);
        r
    }
}

/// The endpoint that lists the download links of a file of a mod of a game.
pub open spec fn download_link_path(game: Seq<char>, mod_id: i32, file_id: i32) -> Seq<char> {
    "/v1/games/"@ + game + "/mods/"@ + int_decimal(mod_id as int) + "/files/"@ + int_decimal(
        file_id as int,
    ) + "/download_link.json"@
}

/// The endpoint reads, in order: `/v1/games/`, the game name verbatim, `/mods/`, the
/// decimal mod id, `/files/`, the decimal file id, and `/download_link.json`, with
/// nothing before, between or after.
pub proof fn lemma_download_link_path_parts(game: Seq<char>, mod_id: i32, file_id: i32)
    ensures
        ({
            let p = download_link_path(game, mod_id, file_id);
            let o1 = "/v1/games/"@.len() as int;
            let o2 = o1 + game.len();
            let o3 = o2 + "/mods/"@.len();
            let o4 = o3 + int_decimal(mod_id as int).len();
            let o5 = o4 + "/files/"@.len();
            let o6 = o5 + int_decimal(file_id as int).len();
            &&& p.subrange(0, o1) == "/v1/games/"@
            &&& p.subrange(o1, o2) == game
            &&& p.subrange(o2, o3) == "/mods/"@
            &&& p.subrange(o3, o4) == int_decimal(mod_id as int)
            &&& p.subrange(o4, o5) == "/files/"@
            &&& p.subrange(o5, o6) == int_decimal(file_id as int)
            &&& p.subrange(o6, p.len() as int) == "/download_link.json"@
            &&& p.len() == o6 + "/download_link.json"@.len()
        }),
{
    let p = download_link_path(game, mod_id, file_id);
    let a = "/v1/games/"@;
    let m = "/mods/"@;
    let dm = int_decimal(mod_id as int);
    let f = "/files/"@;
    let df = int_decimal(file_id as int);
    let d = "/download_link.json"@;
    let o1 = a.len() as int;
    let o2 = o1 + game.len();
    let o3 = o2 + m.len();
    let o4 = o3 + dm.len();
    let o5 = o4 + f.len();
    let o6 = o5 + df.len();
    assert(p.subrange(0, o1) =~= a);
    assert(p.subrange(o1, o2) =~= game);
    assert(p.subrange(o2, o3) =~= m);
    assert(p.subrange(o3, o4) =~= dm);
    assert(p.subrange(o4, o5) =~= f);
    assert(p.subrange(o5, o6) =~= df);
    assert(p.subrange(o6, p.len() as int) =~= d);
}

/// The endpoint that lists the download links of file `file_id` of mod `mod_id` of the
/// game `game_domain_name`.
pub fn download_link_endpoint(game_domain_name: &str, mod_id: i32, file_id: i32) -> (r: String)
    ensures
        r@ == download_link_path(game_domain_name@, mod_id, file_id),
{
    let mut r = String::from_str("/v1/games/");
    r.append(game_domain_name);
    r.append("/mods/");
    let m = i32_to_decimal(mod_id);
    r.append(m.as_str());
    r.append("/files/");
    let f = i32_to_decimal(file_id);
    r.append(f.as_str());
    r.append("/download_link.json");
    r
}

/// The requests that list the download links of a file.
pub trait NexusEndpoints {
    fn make_download_links(
        &self,
        game_domain_name: String,
        mod_id: i32,
        file_id: i32,
    ) -> Result<NexusDownloadEndpoints, ()>;
}

} // verus!
