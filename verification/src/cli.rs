//! The command-line surface: the global arguments, the subcommands, and
//! extracting the signer settings from them.
use vstd::prelude::*;

use crate::send::SubCommandArgs;

verus! {

/// How the user supplied a signer: a private key, or a remote signer
/// address with its application key.
#[derive(Debug)]
pub enum SignerInfo {
    Nsec { nsec: String, password: Option<String>, npub: Option<String> },
    Bunker { bunker_uri: String, bunker_app_key: String, npub: Option<String> },
}

/// The subcommands of the tool.
pub enum Commands {
    Fetch,
    Init,
    Send(SubCommandArgs),
    List,
    Push,
    Pull,
    Login,
}

/// The global command line: a subcommand plus signer and display
/// settings.
pub struct Cli {
    pub command: Commands,
    pub bunker_uri: Option<String>,
    pub bunker_app_key: Option<String>,
    pub nsec: Option<String>,
    pub password: Option<String>,
    pub disable_cli_spinners: bool,
}

/// Reads the signer settings out of the global arguments: an `nsec` wins;
/// a bunker URI requires its app key and vice versa; nothing given means
/// no signer.
pub fn extract_signer_cli_arguments(args: &Cli) -> (r: Result<Option<SignerInfo>, String>)
    ensures
        match r {
            Ok(si) => match si {
                Some(info) => (args.nsec is Some && (info matches SignerInfo::Nsec {
                    nsec,
                    password,
                    npub,
                } && nsec@ == args.nsec.unwrap()@ && password is None && npub is None)) || (
                args.nsec is None && args.bunker_uri is Some && args.bunker_app_key is Some && (info
                    matches SignerInfo::Bunker { bunker_uri, bunker_app_key, npub } && bunker_uri@
                    == args.bunker_uri.unwrap()@ && bunker_app_key@ == args.bunker_app_key.unwrap()@
                    && npub is None)),
                None => args.nsec is None && args.bunker_uri is None && args.bunker_app_key
                    is None,
            },
            Err(m) => args.nsec is None && ((args.bunker_uri is Some && args.bunker_app_key is None
                && m@ == "cli argument bunker-app-key must be supplied when bunker-uri is"@) || (
            args.bunker_uri is None && args.bunker_app_key is Some && m@
                == "cli argument bunker-uri must be supplied when bunker-app-key is"@)),
        },
{
    if let Some(nsec) = &args.nsec {
        Ok(
            Some(
                SignerInfo::Nsec {
                    nsec: nsec.clone(),
                    password: None,
                    npub: None,
                },
            ),
        )
    } else if let Some(bunker_uri) = &args.bunker_uri {
        if let Some(bunker_app_key) = &args.bunker_app_key {
            Ok(
                Some(
                    SignerInfo::Bunker {
                        bunker_uri: bunker_uri.clone(),
                        bunker_app_key: bunker_app_key.clone(),
                        npub: None,
                    },
                ),
            )
        } else {
            Err(String::from_str("cli argument bunker-app-key must be supplied when bunker-uri is"))
        }
    } else if args.bunker_app_key.is_some() {
        Err(String::from_str("cli argument bunker-uri must be supplied when bunker-app-key is"))
    } else {
        Ok(None)
    }
}

} // verus!
