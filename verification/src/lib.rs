//! A small manager for named cluster connection profiles.
//!
//! Profiles (name, url, username, comment) live in an in-memory store that is
//! loaded from and saved to a structured text file.  The store operations
//! (lookup, upsert, removal, listing), the file encoding and its parser, and
//! the dispatch of one command-line invocation to exactly one action are all
//! verified here; reading and writing the file itself, rendering tables and
//! handing off to the external login command are left to the binary around
//! this library.

use vstd::prelude::*;

pub mod cluster;
pub mod codec;

use crate::cluster::{
    add_cluster, connect_to_cluster, delete_cluster, list_clusters, rows_view, spec_find,
    spec_login_argv, spec_remove, spec_table_rows, spec_upsert, strings_view, CliConfig,
};

verus! {

/// The failures that the store and dispatch logic can report.
#[derive(Clone, Copy, Debug, PartialEq, Eq, Structural)]
pub enum CliError {
    /// The requested profile is absent and no url/username were given to create it.
    NotFound,
    /// An unrecognized listing format was requested.
    Usage,
    /// The backing file exists but does not decode as a profile store.
    Parse,
}

/// One command-line invocation, already parsed into plain values.
#[derive(Debug)]
pub struct Args {
    /// The profile name, or one of the reserved keywords `list` and `edit`.
    pub cluster_name: String,
    /// The login target; together with a username it requests an upsert.
    pub cluster_url: Option<String>,
    /// The login identity; together with a url it requests an upsert.
    pub username: Option<String>,
    /// The listing format selector; the only recognized value is `wide`.
    pub output: Option<String>,
    /// Requests removal of the named profile.
    pub delete: bool,
}

/// What one invocation asks the surrounding program to do, decided here and
/// carried out (rendering, persisting, process hand-off) outside.
#[derive(Debug)]
pub enum Action {
    /// Render these listing rows.
    List(Vec<Vec<String>>),
    /// Open the backing file in the user's text editor.
    Edit,
    /// Persist the mutated store, then hand off to this login invocation.
    SaveAndConnect(Vec<String>),
    /// Persist the mutated store; the named profile was removed.
    SaveDeleted,
    /// Nothing was removed; report that the profile does not exist (not a
    /// failure).
    DeleteMissing,
    /// Hand off to this login invocation; the store is untouched.
    Connect(Vec<String>),
}

/// Decides, from one invocation's inputs, the single action to perform, and
/// applies any store mutation that action entails.  The rules are tried in
/// priority order: the reserved names `list` and `edit` first (they shadow
/// profiles of the same name), then add-or-update-and-connect when both url
/// and username are supplied, then removal, and connecting to an existing
/// profile last.
pub fn run(args: Args, cli_config: &mut CliConfig) -> (r: Result<Action, CliError>)
    ensures
        args.cluster_name@ == "list"@ ==> {
            &&& *final(cli_config) == *old(cli_config)
            &&& match args.output {
                Some(f) => if f@ == "wide"@ {
                    r matches Ok(a) && a matches Action::List(rows) && rows_view(rows@)
                        == spec_table_rows(old(cli_config)@, true)
                } else {
                    r matches Err(e) && e == CliError::Usage
                },
                None => r matches Ok(a) && a matches Action::List(rows) && rows_view(rows@)
                    == spec_table_rows(old(cli_config)@, false),
            }
        },
        args.cluster_name@ != "list"@ && args.cluster_name@ == "edit"@ ==> {
            &&& *final(cli_config) == *old(cli_config)
            &&& r matches Ok(a) && a matches Action::Edit
        },
        args.cluster_name@ != "list"@ && args.cluster_name@ != "edit"@ && args.cluster_url is Some
            && args.username is Some ==> {
            &&& final(cli_config)@ == spec_upsert(
                old(cli_config)@,
                args.cluster_name@,
                args.cluster_url->Some_0@,
                args.username->Some_0@,
            )
            &&& r matches Ok(a) && a matches Action::SaveAndConnect(argv) && strings_view(argv@)
                == seq![
                "oc"@,
                "login"@,
                args.cluster_url->Some_0@,
                "-u"@,
                args.username->Some_0@,
            ]
        },
        args.cluster_name@ != "list"@ && args.cluster_name@ != "edit"@ && !(args.cluster_url
            is Some && args.username is Some) && args.delete ==> {
            &&& final(cli_config)@ == spec_remove(old(cli_config)@, args.cluster_name@)
            &&& (spec_find(old(cli_config)@, args.cluster_name@) is Some ==> (r matches Ok(a)
                && a matches Action::SaveDeleted))
            &&& (spec_find(old(cli_config)@, args.cluster_name@) is None ==> *final(cli_config)
                == *old(cli_config) && (r matches Ok(a) && a matches Action::DeleteMissing))
        },
        args.cluster_name@ != "list"@ && args.cluster_name@ != "edit"@ && !(args.cluster_url
            is Some && args.username is Some) && !args.delete ==> {
            &&& *final(cli_config) == *old(cli_config)
            &&& match spec_find(old(cli_config)@, args.cluster_name@) {
                Some(i) => r matches Ok(a) && a matches Action::Connect(argv) && strings_view(
                    argv@,
                ) == spec_login_argv(old(cli_config)@[i]),
                None => r matches Err(e) && e == CliError::NotFound,
            }
        },
{
    let list_word: String = "list".to_owned();
    let edit_word: String = "edit".to_owned();
    if args.cluster_name == list_word {
        match list_clusters(args.output, &*cli_config) {
            Ok(rows) => Ok(Action::List(rows)),
            Err(e) => Err(e),
        }
    } else if args.cluster_name == edit_word {
        Ok(Action::Edit)
    } else if args.cluster_url.is_some() && args.username.is_some() {
        let name = args.cluster_name;
        match (args.cluster_url, args.username) {
            (Some(url), Some(username)) => {
                let ghost url_view = url@;
                let ghost username_view = username@;
                add_cluster(name.clone(), url, username, cli_config);
                proof {
                    crate::cluster::lemma_upsert_finds(
                        old(cli_config)@,
                        name@,
                        url_view,
                        username_view,
                    );
                }
                match connect_to_cluster(name, &*cli_config) {
                    Ok(argv) => Ok(Action::SaveAndConnect(argv)),
                    Err(e) => Err(e),
                }
            },
            _ => vstd::pervasive::unreached(),
        }
    } else if args.delete {
        let removed = delete_cluster(args.cluster_name, cli_config);
        if removed {
            Ok(Action::SaveDeleted)
        } else {
            Ok(Action::DeleteMissing)
        }
    } else {
        match connect_to_cluster(args.cluster_name, &*cli_config) {
            Ok(argv) => Ok(Action::Connect(argv)),
            Err(e) => Err(e),
        }
    }
}

} // verus!
