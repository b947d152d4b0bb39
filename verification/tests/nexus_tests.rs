use nmm_cli::nexus::{download_link_endpoint, NexusDownloadEndpoints, NexusProvider, NexusServer};
use nmm_cli::query::Query;

fn server(name: &str, short: &str, uri: &str) -> NexusServer {
    NexusServer { name: name.to_string(), short_name: short.to_string(), URI: uri.to_string() }
}

fn endpoints() -> NexusDownloadEndpoints {
    NexusDownloadEndpoints::new(vec![
        server("Nexus Global Content Delivery Network", "Nexus CDN", "https://cdn/a"),
        server("Paris", "Paris", "https://paris/a"),
        server("Paris 2", "Paris2", "https://paris2/a"),
    ])
}

#[test]
fn get_server_first_match() {
    let e = endpoints();
    assert_eq!(e.get_server("CDN"), Some("https://cdn/a".to_string()));
    assert_eq!(e.get_server("Paris"), Some("https://paris/a".to_string()));
    assert_eq!(e.get_server("Paris2"), Some("https://paris2/a".to_string()));
    assert_eq!(e.get_server("Amsterdam"), None);
    assert_eq!(e.get_server(""), Some("https://cdn/a".to_string()));
}

#[test]
fn get_server_on_empty_list() {
    let e: NexusDownloadEndpoints = NexusDownloadEndpoints::new(vec![]);
    assert_eq!(e.get_server("CDN"), None);
}

#[test]
fn get_server_or_falls_back() {
    let e = endpoints();
    let url = e.get_server_or("Tokyo", |servers: &Vec<NexusServer>| servers[1].URI.clone());
    assert_eq!(url, "https://paris/a");
    let url = e.get_server_or("CDN", |_servers: &Vec<NexusServer>| "unused".to_string());
    assert_eq!(url, "https://cdn/a");
}

#[test]
fn endpoints_into_vec() {
    let e = endpoints();
    assert_eq!(e.as_vec().len(), 3);
    let v: Vec<NexusServer> = e.into();
    assert_eq!(v.len(), 3);
    assert_eq!(v[2].short_name, "Paris2");
}

#[test]
fn provider_key_choice() {
    let p = NexusProvider::new(Some("given".to_string()), Some("env".to_string()));
    assert_eq!(p.api_key, "given");
    let p = NexusProvider::new(None, Some("env".to_string()));
    assert_eq!(p.api_key, "env");
    let p = NexusProvider::new(None, None);
    assert_eq!(p.api_key, "");
    assert_eq!(p.api_base_url, "api.nexusmods.com");
    assert_eq!(p.limits.daily.limit, 2500);
    assert_eq!(p.limits.daily.remaining, 2500);
    assert_eq!(p.limits.daily.reset, 0);
    assert_eq!(p.limits.hourly.limit, 2500);
    assert_eq!(p.limits.hourly.reset, 0);
}

#[test]
fn download_link_endpoint_format() {
    let file_id = 7364;
    let mod_id = 112;
    let game_domain_name = "monsterhunterworld";
    let endpoint = download_link_endpoint(game_domain_name, mod_id, file_id);
    assert_eq!(
        endpoint,
        format!("/v1/games/{}/mods/{}/files/{}/download_link.json", game_domain_name, mod_id, file_id)
    );
    let p = NexusProvider::new(Some("k".to_string()), None);
    assert_eq!(
        p.request_url(&endpoint),
        "https://api.nexusmods.com/v1/games/monsterhunterworld/mods/112/files/7364/download_link.json"
    );
}

#[test]
fn query_new_has_no_params() {
    let q = Query::new("https://x".to_string());
    assert_eq!(q.url, "https://x");
    assert!(q.params.is_empty());
}
