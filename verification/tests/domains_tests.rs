use freenet_lib::domains::{add_user_domain, parse_user_domains, remove_user_domain, render_user_domains};

fn list(a: &[&str]) -> Vec<String> {
    a.iter().map(|s| s.to_string()).collect()
}

#[test]
fn reading_the_user_list() {
    let content = "# Never leave this file empty\n youtube.com \n\n#comment\ndiscord.gg\r\n";
    assert_eq!(parse_user_domains(content), list(&["youtube.com", "discord.gg"]));
    assert_eq!(parse_user_domains(""), Vec::<String>::new());
}

#[test]
fn writing_the_user_list() {
    let text = render_user_domains(&list(&["a.com", "b.org"]));
    assert_eq!(text, "# Never leave this file empty\na.com\nb.org\n");
    assert_eq!(parse_user_domains(&text), list(&["a.com", "b.org"]));
    assert_eq!(render_user_domains(&vec![]), "# Never leave this file empty\n");
}

#[test]
fn adding_domains() {
    let added = add_user_domain(list(&["a.com"]), "  B.Org ").unwrap();
    assert!(added.changed);
    assert_eq!(added.domains, list(&["a.com", "b.org"]));
    let again = add_user_domain(added.domains, "b.org").unwrap();
    assert!(!again.changed);
    assert_eq!(again.domains, list(&["a.com", "b.org"]));
}

#[test]
fn refused_domains() {
    let msg = |r: Result<freenet_lib::domains::AddedDomains, String>| match r {
        Ok(_) => String::new(),
        Err(e) => e,
    };
    assert_eq!(msg(add_user_domain(vec![], "   ")), "Domain cannot be empty");
    assert_eq!(msg(add_user_domain(vec![], "a b.com")), "Invalid domain");
    assert_eq!(msg(add_user_domain(vec![], "#x.com")), "Invalid domain");
    assert_eq!(msg(add_user_domain(vec![], "a\tb")), "Invalid domain");
}

#[test]
fn removing_domains() {
    assert_eq!(remove_user_domain(&list(&["a.com", "b.org", "a.com"]), " A.COM"), list(&["b.org"]));
    assert_eq!(remove_user_domain(&list(&["a.com"]), "c.com"), list(&["a.com"]));
}

#[test]
fn removed_domain_stays_gone_after_writing() {
    let content = "# Never leave this file empty\na.com\nb.org\na.com\n";
    let after = remove_user_domain(&parse_user_domains(content), "a.com");
    let written = render_user_domains(&after);
    assert_eq!(parse_user_domains(&written), list(&["b.org"]));
}

#[test]
fn added_domain_read_back_after_writing() {
    let content = "# Never leave this file empty\nyoutube.com\n";
    let added = add_user_domain(parse_user_domains(content), " Discord.GG ").unwrap();
    let written = render_user_domains(&added.domains);
    assert_eq!(parse_user_domains(&written), list(&["youtube.com", "discord.gg"]));
}
