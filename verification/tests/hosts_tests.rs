use freenet_lib::hosts::{
    builtin_hosts_providers, get_blocked_domains, get_hosts_path, hosts_bypass_content,
    hosts_bypass_message, hosts_markers_ordered, hosts_status, parse_hosts_entries,
    provider_source, static_hosts_block, ProviderSource,
};
use freenet_lib::types::AppConfig;

const START: &str = "# === FREENET BLOCK BYPASS START ===";
const END: &str = "# === FREENET BLOCK BYPASS END ===";

#[test]
fn hosts_path() {
    assert_eq!(get_hosts_path(), "C:\\Windows\\System32\\drivers\\etc\\hosts");
}

#[test]
fn providers_table() {
    let p = builtin_hosts_providers();
    assert_eq!(p.len(), 4);
    assert_eq!(p[0].key, "geohidedns");
    assert_eq!(p[1].name, "StevenBlack Unified");
    assert_eq!(p[2].url, Some("https://someonewhocares.org/hosts/hosts/".to_string()));
    assert_eq!(p[3].key, "custom");
    assert!(p[3].custom);
    assert_eq!(p[3].url, None);
}

#[test]
fn blocked_domains_and_static_block() {
    let d = get_blocked_domains();
    assert_eq!(d.len(), 10);
    assert_eq!(d[0], ("soundcloud.com", "149.154.167.99"));
    assert_eq!(d[9], ("telegram.org", "149.154.167.99"));
    let block = static_hosts_block();
    assert!(block.starts_with("149.154.167.99 soundcloud.com\n142.250.74.78 gemini.google.com\n"));
    assert!(block.ends_with("149.154.167.99 telegram.org\n"));
    assert_eq!(block.lines().count(), 10);
}

#[test]
fn provider_sources() {
    let mut c = AppConfig::default();
    assert_eq!(provider_source("custom", &c), Err("Custom hosts URL is not set".to_string()));
    c.custom_hosts_url = Some("https://example.org/hosts".to_string());
    assert_eq!(
        provider_source("custom", &c),
        Ok(ProviderSource::Url("https://example.org/hosts".to_string()))
    );
    assert_eq!(provider_source("geohidedns", &c), Ok(ProviderSource::Entries(static_hosts_block())));
    assert_eq!(
        provider_source("stevenblack", &c),
        Ok(ProviderSource::Url("https://raw.githubusercontent.com/StevenBlack/hosts/master/hosts".to_string()))
    );
    assert_eq!(provider_source("nope", &c), Err("Unknown hosts provider".to_string()));
}

#[test]
fn entries_of_a_hosts_file() {
    let text = "# comment\n0.0.0.0 Ads.Example.com tracker.net # trailing\n::1 localhost.v6\n\n127.0.0.1 localhost\n0.0.0.0 ads.example.com *.wild.com other.org\n";
    assert_eq!(
        parse_hosts_entries(text),
        Ok("0.0.0.0 ads.example.com\n0.0.0.0 tracker.net\n0.0.0.0 other.org\n".to_string())
    );
    assert_eq!(
        parse_hosts_entries("# nothing\n127.0.0.1 localhost\n"),
        Err("No hosts entries found in the file".to_string())
    );
}

#[test]
fn enabling_and_disabling_the_block() {
    let plain = "127.0.0.1 localhost\n";
    let providers = vec!["stevenblack".to_string(), "custom".to_string()];
    let entries = vec!["0.0.0.0 a.com\n".to_string(), "0.0.0.0 b.com\n".to_string()];
    assert!(hosts_markers_ordered(plain));
    let on = hosts_bypass_content(plain, true, &providers, &entries).unwrap();
    assert_eq!(
        on,
        format!(
            "127.0.0.1 localhost\n\n# FREENET hosts providers: stevenblack, custom\n{}\n0.0.0.0 a.com\n\n0.0.0.0 b.com\n\n{}\n",
            START, END
        )
    );
    assert!(hosts_status(&on));
    assert!(hosts_markers_ordered(&on));
    let off = hosts_bypass_content(&on, false, &providers, &entries).unwrap();
    assert_eq!(off, "127.0.0.1 localhost\n\n# FREENET hosts providers: stevenblack, custom\n\n");
    assert!(!hosts_status(&off));
    let again = hosts_bypass_content(&on, true, &providers, &entries).unwrap();
    assert_eq!(again.matches(START).count(), 1);
}

#[test]
fn enabling_without_providers_fails() {
    assert_eq!(
        hosts_bypass_content("x\n", true, &vec![], &vec![]),
        Err("No hosts providers selected".to_string())
    );
    assert_eq!(hosts_bypass_content("x\n", false, &vec![], &vec![]), Ok("x\n".to_string()));
}

#[test]
fn markers_out_of_order() {
    let c = format!("{}\nfoo\n{}\n", END, START);
    assert!(!hosts_markers_ordered(&c));
}

#[test]
fn messages() {
    let p = vec!["geohidedns".to_string(), "custom".to_string()];
    assert_eq!(hosts_bypass_message(true, &p), "Hosts bypass enabled (providers: geohidedns, custom)");
    assert_eq!(hosts_bypass_message(false, &p), "Hosts bypass disabled");
}
