use crypt::{
    confirm_purge_phrase, database_path_action, directive_for, extract_access_token, parse_bool,
    purge_target, CloudService, CommandLineArgs, Commands, Config, ConfigCommand, DbPathAction,
    Directive, PurgeTarget, UserToken,
};

#[test]
fn zstd_level_is_range_checked() {
    let mut config = Config::new();
    assert_eq!(config.zstd_level, 3);
    assert!(config.set_zstd_level(22));
    assert_eq!(config.zstd_level, 22);
    assert!(config.set_zstd_level(-7));
    assert_eq!(config.zstd_level, -7);
    assert!(!config.set_zstd_level(23));
    assert_eq!(config.zstd_level, -7);
    assert!(!config.set_zstd_level(-8));
    assert_eq!(config.zstd_level, -7);
}

#[test]
fn config_flags_and_defaults() {
    let mut config = Config::new();
    assert!(config.set_retain(true));
    assert!(config.retain);
    assert!(config.set_backup(false));
    assert!(!config.backup);
    assert!(config.set_database_path("/elsewhere.db".to_owned()));
    assert_eq!(config.database_path, "/elsewhere.db");
    assert!(config.restore_default());
    assert_eq!(config.database_path, "crypt_keeper.db");
    assert!(!config.retain);
    assert!(config.backup);
    assert_eq!(config.zstd_level, 3);
}

#[test]
fn ignore_list_add_and_remove() {
    let mut config = Config::new();
    config.append_ignore_items(&"target".to_owned());
    config.append_ignore_items(&"logs".to_owned());
    config.append_ignore_items(&"target".to_owned());
    assert_eq!(config.ignore_items.len(), 3);
    config.remove_ignore_item(&"target".to_owned());
    assert_eq!(config.ignore_items, vec!["logs".to_owned()]);
}

#[test]
fn booleans_parse_exactly() {
    assert_eq!(parse_bool(&"true".to_owned()), Some(true));
    assert_eq!(parse_bool(&"false".to_owned()), Some(false));
    assert_eq!(parse_bool(&"True".to_owned()), None);
    assert_eq!(parse_bool(&"".to_owned()), None);
}

#[test]
fn purge_targets_resolve() {
    assert!(matches!(purge_target(&"database".to_owned()), PurgeTarget::Database));
    assert!(matches!(purge_target(&"db".to_owned()), PurgeTarget::Database));
    assert!(matches!(purge_target(&"t".to_owned()), PurgeTarget::Tokens));
    assert!(matches!(purge_target(&"token".to_owned()), PurgeTarget::Tokens));
    assert!(matches!(purge_target(&"tokens".to_owned()), PurgeTarget::Tokens));
    assert!(matches!(purge_target(&"everything".to_owned()), PurgeTarget::Invalid));
}

#[test]
fn purge_needs_the_exact_phrase() {
    assert!(confirm_purge_phrase(&"delete database".to_owned()));
    assert!(!confirm_purge_phrase(&"delete".to_owned()));
    assert!(!confirm_purge_phrase(&"DELETE DATABASE".to_owned()));
}

#[test]
fn command_lines_resolve_to_directives() {
    let args = CommandLineArgs {
        debug: false,
        tui: false,
        command: Some(Commands::Encrypt { path: "/p".to_owned(), in_place: true }),
    };
    assert!(matches!(
        directive_for(args),
        Directive::Encrypt { path, in_place: true } if path == "/p"
    ));

    let args = CommandLineArgs {
        debug: false,
        tui: false,
        command: Some(Commands::Keeper {
            import: true,
            export: false,
            csv_path: String::new(),
        }),
    };
    assert!(matches!(directive_for(args), Directive::Usage));

    let args = CommandLineArgs {
        debug: false,
        tui: false,
        command: Some(Commands::Keeper {
            import: false,
            export: true,
            csv_path: String::new(),
        }),
    };
    assert!(matches!(directive_for(args), Directive::KeeperExport));

    let args = CommandLineArgs {
        debug: false,
        tui: false,
        command: Some(Commands::Config {
            category: Some(ConfigCommand::ZstdLevel { value: "9".to_owned() }),
        }),
    };
    assert!(matches!(
        directive_for(args),
        Directive::SetZstdLevel { value } if value == "9"
    ));

    let args = CommandLineArgs { debug: true, tui: false, command: None };
    assert!(matches!(directive_for(args), Directive::NoOp));
}

#[test]
fn access_token_is_extracted_from_redirect_body() {
    let body = b"token_type=Bearer&access_token=ya29.a0Af&expires_in=3599".to_vec();
    let value = extract_access_token(&body).unwrap();
    assert_eq!(value, b"ya29.a0Af".to_vec());

    let at_front = b"access_token=abc".to_vec();
    assert_eq!(extract_access_token(&at_front).unwrap(), b"abc".to_vec());

    let absent = b"token_type=Bearer&expires_in=3599".to_vec();
    assert!(extract_access_token(&absent).is_none());

    // A parameter merely ending in the name does not count.
    let lookalike = b"xaccess_token=nope".to_vec();
    assert!(extract_access_token(&lookalike).is_none());
}

#[test]
fn user_token_wraps_the_credential() {
    let token = UserToken::new(CloudService::Google, 1700000000, "bearer-value".to_owned());
    assert_eq!(token.access_token, "bearer-value");
    assert_eq!(token.time_stamp, 1700000000);
    assert_eq!(token.key_seed.len(), 32);
    assert_eq!(token.nonce_seed.len(), 12);
    assert!(matches!(token.service, CloudService::Google));
}

#[test]
fn empty_database_path_means_show() {
    assert!(matches!(
        database_path_action(&String::new()),
        DbPathAction::ShowPath
    ));
    assert!(matches!(
        database_path_action(&"/elsewhere.db".to_owned()),
        DbPathAction::SetPath
    ));
}
