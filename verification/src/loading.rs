//! What the graphical player does when a composition it is opening in the
//! background reports back: keep waiting, show it, or show the failure and
//! log it.

use vstd::prelude::*;
use vstd::string::*;

use crate::i18n::{fill_placeholders, placeholder, replace_all, Texts};
use crate::project::{file_name, path_last_component};

verus! {

/// What the background load reported.
#[derive(Debug)]
pub enum LoadEvent {
    /// Nothing yet.
    Pending,
    /// The composition is loaded.
    Loaded,
    /// The file could not be opened; `message` says why.
    Failed { path: String, message: String },
    /// The loading thread stopped without answering.
    LoaderStopped,
}

/// What the player does next.
#[derive(Debug, PartialEq, Eq)]
pub enum LoadStep {
    /// Keep showing that the file is loading.
    Waiting,
    /// Show the composition (and remember the file as opened).
    Ready,
    /// Show the failure; `log` goes to the error log.
    Failed { path: String, message: String, log: String },
}

/// The text of `key` in the current language (else English, else the key).
pub open spec fn translated(texts: Texts, key: Seq<char>) -> Seq<char> {
    match texts.lookup_spec(key) {
        Some(t) => t,
        None => key,
    }
}

/// The name shown for a file: its last component, else the whole path.
pub open spec fn shown_name(path: Seq<char>) -> Seq<char> {
    match path_last_component(path) {
        Some(n) => n,
        None => path,
    }
}

/// The logged text of a file that could not be opened:
/// `status.could_not_open` with its `{file}` and `{message}` filled in.
pub open spec fn could_not_open_text(texts: Texts, path: Seq<char>, message: Seq<char>) -> Seq<char> {
    replace_all(
        replace_all(translated(texts, "status.could_not_open"@), placeholder("file"@), shown_name(path)),
        placeholder("message"@),
        message,
    )
}

fn could_not_open(texts: &Texts, path: &str, message: &str) -> (r: String)
    ensures
        r@ == could_not_open_text(*texts, path@, message@),
{
    let name = file_name(path);
    let args = [("file", name.as_str()), ("message", message)];
    let r = texts.tf("status.could_not_open", &args);
    proof {
        reveal_with_fuel(fill_placeholders, 3);
        assert(args@.len() == 2);
        assert(args@[0].0@ == "file"@ && args@[0].1@ == shown_name(path@));
        assert(args@[1].0@ == "message"@ && args@[1].1@ == message@);
    }
    r
}

/// What the player does when the load of `loading_path` reports `event`:
/// nothing yet keeps it waiting; a loaded composition is shown; a failure
/// is shown and logged as `status.could_not_open`; a loader that stopped
/// counts as a failure of `loading_path` with the `error.loader_stopped`
/// text as its message.
pub fn after_load_event(texts: &Texts, loading_path: &str, event: LoadEvent) -> (r: LoadStep)
    ensures
        match event {
            LoadEvent::Pending => r == LoadStep::Waiting,
            LoadEvent::Loaded => r == LoadStep::Ready,
            LoadEvent::Failed { path, message } => r matches LoadStep::Failed { path: p, message: m, log }
                && p@ == path@ && m@ == message@ && log@ == could_not_open_text(*texts, path@, message@),
            LoadEvent::LoaderStopped => r matches LoadStep::Failed { path: p, message: m, log }
                && p@ == loading_path@ && m@ == translated(*texts, "error.loader_stopped"@)
                && log@ == could_not_open_text(*texts, loading_path@, m@),
        },
{
    match event {
        LoadEvent::Pending => LoadStep::Waiting,
        LoadEvent::Loaded => LoadStep::Ready,
        LoadEvent::Failed { path, message } => {
            let log = could_not_open(texts, path.as_str(), message.as_str());
            LoadStep::Failed { path, message, log }
        },
        LoadEvent::LoaderStopped => {
            let message = texts.t("error.loader_stopped");
            let log = could_not_open(texts, loading_path, message.as_str());
            LoadStep::Failed { path: String::from_str(loading_path), message, log }
        },
    }
}

} // verus!
