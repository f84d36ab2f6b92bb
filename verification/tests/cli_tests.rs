use ngit::cli::{extract_signer_cli_arguments, Cli, Commands, SignerInfo};

fn cli(nsec: Option<&str>, bunker_uri: Option<&str>, bunker_app_key: Option<&str>) -> Cli {
    Cli {
        command: Commands::List,
        bunker_uri: bunker_uri.map(|s| s.to_string()),
        bunker_app_key: bunker_app_key.map(|s| s.to_string()),
        nsec: nsec.map(|s| s.to_string()),
        password: None,
        disable_cli_spinners: false,
    }
}

#[test]
fn nsec_argument_wins() {
    let r = extract_signer_cli_arguments(&cli(Some("nsec1xyz"), None, None)).unwrap();
    match r {
        Some(SignerInfo::Nsec {
            nsec,
            password,
            npub,
        }) => {
            assert_eq!(nsec, "nsec1xyz");
            assert!(password.is_none());
            assert!(npub.is_none());
        }
        _ => panic!("expected an nsec signer"),
    }
}

#[test]
fn bunker_needs_both_parts() {
    let r =
        extract_signer_cli_arguments(&cli(None, Some("bunker://x"), Some("appkey"))).unwrap();
    match r {
        Some(SignerInfo::Bunker {
            bunker_uri,
            bunker_app_key,
            npub,
        }) => {
            assert_eq!(bunker_uri, "bunker://x");
            assert_eq!(bunker_app_key, "appkey");
            assert!(npub.is_none());
        }
        _ => panic!("expected a bunker signer"),
    }
    assert_eq!(
        extract_signer_cli_arguments(&cli(None, Some("bunker://x"), None)).unwrap_err(),
        "cli argument bunker-app-key must be supplied when bunker-uri is"
    );
    assert_eq!(
        extract_signer_cli_arguments(&cli(None, None, Some("appkey"))).unwrap_err(),
        "cli argument bunker-uri must be supplied when bunker-app-key is"
    );
}

#[test]
fn no_signer_arguments_mean_no_signer() {
    assert!(extract_signer_cli_arguments(&cli(None, None, None))
        .unwrap()
        .is_none());
}
