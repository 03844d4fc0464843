use pact_broker_cli::config::{
    choose_broker_url, env_requests_dry_run, ignore_entries_from, resolve_auth, HttpAuth,
};
use pact_broker_cli::errors::UsageError;
use pact_broker_cli::link::{resolve_template, Link};
use pact_broker_cli::patterns::glob_value;
use pact_broker_cli::query::{build_matrix_query, parse_matrix_query};
use pact_broker_cli::selector::{
    fold_tokens, resolve_target, MainBranchMode, Selector, SelectorToken, Target,
};
use pact_broker_cli::strutil::parse_dec_u32;

fn pinned(pacticipant: &str, version: &str) -> Selector {
    Selector {
        pacticipant: pacticipant.to_string(),
        version: Some(version.to_string()),
        latest: false,
        branch: None,
        main_branch: MainBranchMode::Omit,
        tag: None,
    }
}

#[test]
fn a_pinned_selector_with_an_environment_builds_the_classic_query() {
    let selectors = vec![pinned("Foo", "1.0")];
    let target = Some(Target::Environment("prod".to_string()));
    assert_eq!(
        build_matrix_query(&selectors, &target),
        "/matrix?q[][pacticipant]=Foo&q[][version]=1.0&environment=prod&latestby=cvp"
    );
}

#[test]
fn values_are_percent_encoded() {
    let selectors = vec![pinned("Example App", "1.0+build/7")];
    assert_eq!(
        build_matrix_query(&selectors, &None),
        "/matrix?q[][pacticipant]=Example%20App&q[][version]=1.0%2Bbuild%2F7&latestby=cvp"
    );
}

#[test]
fn non_ascii_values_encode_their_utf8_bytes() {
    let selectors = vec![pinned("caf\u{e9}", "1")];
    assert_eq!(
        build_matrix_query(&selectors, &None),
        "/matrix?q[][pacticipant]=caf%C3%A9&q[][version]=1&latestby=cvp"
    );
}

#[test]
fn latest_and_branch_selectors_emit_their_own_pairs() {
    let selectors = vec![
        Selector {
            pacticipant: "Foo".to_string(),
            version: None,
            latest: true,
            branch: None,
            main_branch: MainBranchMode::Omit,
            tag: None,
        },
        Selector {
            pacticipant: "Bar".to_string(),
            version: None,
            latest: false,
            branch: Some("main".to_string()),
            main_branch: MainBranchMode::Omit,
            tag: None,
        },
    ];
    let target = Some(Target::Tag("prod".to_string()));
    assert_eq!(
        build_matrix_query(&selectors, &target),
        "/matrix?q[][pacticipant]=Foo&latest=true&q[][pacticipant]=Bar&q[][branch]=main&tag=prod&latestby=cvp"
    );
}

#[test]
fn an_empty_selector_list_still_names_the_aggregation_mode() {
    assert_eq!(build_matrix_query(&Vec::new(), &None), "/matrix?latestby=cvp");
}

#[test]
fn template_expansion_keeps_unresolved_placeholders() {
    let vars = vec![("a".to_string(), "1".to_string())];
    assert_eq!(resolve_template("/x/{a}/{b}", &vars), "/x/1/{b}");
}

#[test]
fn template_expansion_replaces_every_bound_placeholder() {
    let vars = vec![
        ("pacticipant".to_string(), "Foo".to_string()),
        ("version".to_string(), "1.0".to_string()),
    ];
    assert_eq!(
        resolve_template("/pacticipants/{pacticipant}/versions/{version}", &vars),
        "/pacticipants/Foo/versions/1.0"
    );
}

#[test]
fn template_expansion_keeps_a_lone_open_brace() {
    let vars = vec![("a".to_string(), "1".to_string())];
    assert_eq!(resolve_template("/x/{a", &vars), "/x/{a");
    assert_eq!(resolve_template("", &vars), "");
}

#[test]
fn template_links_carry_their_flag() {
    let link = Link {
        name: "pb:pacticipant".to_string(),
        href: Some("/pacticipants/{pacticipant}".to_string()),
        templated: true,
        title: None,
    };
    assert!(link.templated);
    let vars = vec![("pacticipant".to_string(), "Foo".to_string())];
    assert_eq!(
        resolve_template(link.href.as_deref().unwrap(), &vars),
        "/pacticipants/Foo"
    );
}

#[test]
fn pacticipant_tokens_open_selectors_positionally() {
    let tokens = vec![
        SelectorToken::Pacticipant("Foo".to_string()),
        SelectorToken::Version("1.0".to_string()),
        SelectorToken::Pacticipant("Bar".to_string()),
        SelectorToken::Latest,
        SelectorToken::Branch("main".to_string()),
    ];
    let sels = fold_tokens(tokens).unwrap();
    assert_eq!(sels.len(), 2);
    assert_eq!(sels[0].pacticipant, "Foo");
    assert_eq!(sels[0].version.as_deref(), Some("1.0"));
    assert!(!sels[0].latest);
    assert_eq!(sels[1].pacticipant, "Bar");
    assert_eq!(sels[1].version, None);
    assert!(sels[1].latest);
    assert_eq!(sels[1].branch.as_deref(), Some("main"));
}

#[test]
fn a_version_before_any_pacticipant_is_a_usage_error() {
    let tokens = vec![SelectorToken::Version("1.0".to_string())];
    match fold_tokens(tokens) {
        Err(UsageError::SelectorWithoutPacticipant) => {}
        other => panic!("expected a usage error, got {:?}", other),
    }
}

#[test]
fn main_branch_tokens_set_the_tri_state() {
    let tokens = vec![
        SelectorToken::Pacticipant("Foo".to_string()),
        SelectorToken::MainBranch,
        SelectorToken::Pacticipant("Bar".to_string()),
        SelectorToken::SkipMainBranch,
        SelectorToken::Pacticipant("Baz".to_string()),
    ];
    let sels = fold_tokens(tokens).unwrap();
    assert_eq!(sels[0].main_branch, MainBranchMode::Use);
    assert_eq!(sels[1].main_branch, MainBranchMode::Skip);
    assert_eq!(sels[2].main_branch, MainBranchMode::Omit);
}

#[test]
fn both_targets_at_once_are_a_usage_error() {
    match resolve_target(Some("prod".to_string()), Some("tagged".to_string())) {
        Err(UsageError::ConflictingTargets) => {}
        other => panic!("expected a usage error, got {:?}", other),
    }
    assert!(matches!(
        resolve_target(Some("prod".to_string()), None),
        Ok(Some(Target::Environment(_)))
    ));
    assert!(matches!(resolve_target(None, None), Ok(None)));
}

#[test]
fn auth_precedence_is_token_then_user_then_nothing() {
    assert!(matches!(
        resolve_auth(
            Some("t".to_string()),
            Some("u".to_string()),
            Some("p".to_string())
        ),
        HttpAuth::Token(_)
    ));
    match resolve_auth(None, Some("u".to_string()), Some("p".to_string())) {
        HttpAuth::User(u, Some(p)) => {
            assert_eq!(u, "u");
            assert_eq!(p, "p");
        }
        other => panic!("expected basic credentials, got {:?}", other),
    }
    assert!(matches!(resolve_auth(None, None, None), HttpAuth::NoAuth));
}

#[test]
fn dry_run_environment_values_must_be_the_word_true() {
    assert!(env_requests_dry_run(&Some("true".to_string())));
    assert!(!env_requests_dry_run(&Some("TRUE".to_string())));
    assert!(!env_requests_dry_run(&Some("1".to_string())));
    assert!(!env_requests_dry_run(&None));
}

#[test]
fn the_argument_beats_the_environment_for_the_base_url() {
    assert_eq!(
        choose_broker_url(Some("http://a".to_string()), Some("http://b".to_string())),
        Some("http://a".to_string())
    );
    assert_eq!(
        choose_broker_url(None, Some("http://b".to_string())),
        Some("http://b".to_string())
    );
    assert_eq!(choose_broker_url(None, None), None);
}

#[test]
fn ignore_lists_split_on_commas_and_drop_empty_pieces() {
    let entries = ignore_entries_from("Foo,Bar,,Baz,");
    let names: Vec<&str> = entries.iter().map(|e| e.pacticipant.as_str()).collect();
    assert_eq!(names, vec!["Foo", "Bar", "Baz"]);
    assert!(entries.iter().all(|e| e.version.is_none()));
    assert!(ignore_entries_from("").is_empty());
}

#[test]
fn glob_patterns_are_validated_with_a_named_message() {
    assert!(glob_value("**/*.json".to_string()).is_ok());
    let err = glob_value("a**b[".to_string()).unwrap_err();
    assert!(err.starts_with("'a**b[' is not a valid glob pattern - "));
    assert!(err.len() > "'a**b[' is not a valid glob pattern - ".len());
}

#[test]
fn decimal_parsing_is_exact_at_the_boundary() {
    assert_eq!(parse_dec_u32("0"), Some(0));
    assert_eq!(parse_dec_u32("4294967295"), Some(u32::MAX));
    assert_eq!(parse_dec_u32("4294967296"), None);
    assert_eq!(parse_dec_u32(""), None);
    assert_eq!(parse_dec_u32("12a"), None);
    assert_eq!(parse_dec_u32("-1"), None);
}

#[test]
fn a_built_query_parses_back_to_its_selectors() {
    let selectors = vec![
        pinned("Example App", "1.0+build/7"),
        Selector {
            pacticipant: "Bar".to_string(),
            version: None,
            latest: true,
            branch: None,
            main_branch: MainBranchMode::Omit,
            tag: None,
        },
        Selector {
            pacticipant: "caf\u{e9}".to_string(),
            version: None,
            latest: false,
            branch: Some("release/1".to_string()),
            main_branch: MainBranchMode::Omit,
            tag: None,
        },
    ];
    let target = Some(Target::Environment("prod env".to_string()));
    let query = build_matrix_query(&selectors, &target);
    let (parsed, parsed_target) = parse_matrix_query(&query).unwrap();
    assert_eq!(parsed.len(), selectors.len());
    for (p, s) in parsed.iter().zip(selectors.iter()) {
        assert_eq!(p.pacticipant, s.pacticipant);
        assert_eq!(p.version, s.version);
        assert_eq!(p.latest, s.latest);
        assert_eq!(p.branch, s.branch);
        assert_eq!(p.main_branch, MainBranchMode::Omit);
        assert_eq!(p.tag, None);
    }
    match parsed_target {
        Some(Target::Environment(e)) => assert_eq!(e, "prod env"),
        other => panic!("expected the environment target, got {:?}", other),
    }
}

#[test]
fn the_reader_rejects_what_the_builder_cannot_produce() {
    assert!(parse_matrix_query("/matrix?latestby=cvp").is_some());
    assert!(parse_matrix_query("/other?latestby=cvp").is_none());
    assert!(parse_matrix_query("/matrix?").is_none());
    assert!(parse_matrix_query("/matrix?q[][version]=1&latestby=cvp").is_none());
    assert!(parse_matrix_query("/matrix?q[][pacticipant]=Foo").is_none());
    assert!(parse_matrix_query("/matrix?latestby=cvp&q[][pacticipant]=Foo").is_none());
    assert!(parse_matrix_query("/matrix?q[][pacticipant]=Foo bar&latestby=cvp").is_none());
    assert!(parse_matrix_query(
        "/matrix?environment=a&tag=b&latestby=cvp"
    )
    .is_none());
}
