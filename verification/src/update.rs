//! What a window does about updates, from a check to the installation. The
//! application fetches, downloads and installs.
use vstd::prelude::*;

verus! {

/// How far an update has come.
#[derive(Debug, PartialEq)]
pub enum UpdateState {
    Idle,
    Checking,
    Downloading(String),
    Ready { version: String, dmg: String },
}

/// What to do next.
#[derive(Debug)]
pub enum UpdateStep {
    Nothing,
    /// Ask for the latest release.
    Fetch,
    /// Download this version.
    Download(String),
    /// Show this for a while.
    Tell(String),
    /// Quit: the installed application starts again by itself.
    Quit,
}

/// A release: its version, and whether it is newer than what is running.
pub struct Release {
    pub version: String,
    pub newer: bool,
}

/// The message that an update waits.
pub open spec fn waiting() -> Seq<char> {
    "update already downloaded — click the button to install"@
}

/// The message that there is nothing newer.
pub open spec fn current(version: Seq<char>) -> Seq<char> {
    "Oxide is up to date (v"@ + version + ")"@
}

/// Tell something only to someone who asked.
pub open spec fn told(step: UpdateStep, manual: bool, message: Seq<char>) -> bool {
    if manual {
        step matches UpdateStep::Tell(m) && m@ == message
    } else {
        step is Nothing
    }
}

fn tell(manual: bool, message: String) -> (r: UpdateStep)
    ensures
        told(r, manual, message@),
{
    if manual {
        UpdateStep::Tell(message)
    } else {
        UpdateStep::Nothing
    }
}

impl UpdateState {
    /// Start a check, unless one is under way or its result already waits.
    pub fn check_for_updates(&mut self, manual: bool) -> (r: UpdateStep)
        ensures
            *old(self) is Idle ==> *final(self) is Checking && r is Fetch,
            !(*old(self) is Idle) ==> *final(self) == *old(self),
            *old(self) is Checking || *old(self) is Downloading ==> r is Nothing,
            *old(self) is Ready ==> told(r, manual, waiting()),
    {
        match self {
            UpdateState::Checking | UpdateState::Downloading(_) => UpdateStep::Nothing,
            UpdateState::Ready { .. } => tell(
                manual,
                "update already downloaded — click the button to install".to_owned(),
            ),
            UpdateState::Idle => {
                *self = UpdateState::Checking;
                UpdateStep::Fetch
            },
        }
    }

    /// The answer to a check: a newer release is downloaded; anything else
    /// ends the check, with a word to someone who asked for it.
    pub fn fetched(
        &mut self,
        latest: Result<Option<Release>, String>,
        version: &str,
        manual: bool,
    ) -> (r: UpdateStep)
        ensures
            match latest {
                Ok(Some(release)) if release.newer => (*final(self) matches UpdateState::Downloading(v) && v@ == release.version@) && (
                r matches UpdateStep::Download(d) && d@ == release.version@),
                Ok(_) => *final(self) is Idle && told(r, manual, current(version@)),
                Err(e) => *final(self) is Idle && told(r, manual, e@),
            },
    {
        match latest {
            Ok(Some(release)) => {
                if release.newer {
                    *self = UpdateState::Downloading(release.version.clone());
                    return UpdateStep::Download(release.version);
                }
            },
            Ok(None) => {},
            Err(e) => {
                *self = UpdateState::Idle;
                return tell(manual, e);
            },
        }
        *self = UpdateState::Idle;
        let mut message = "Oxide is up to date (v".to_owned();
        message.push_str(version);
        message.push_str(")");
        tell(manual, message)
    }

    /// The end of a download.
    pub fn downloaded(&mut self, version: String, file: Result<String, String>, manual: bool) -> (r:
        UpdateStep)
        ensures
            match file {
                Ok(f) => *final(self) == (UpdateState::Ready { version, dmg: f }) && r is Nothing,
                Err(e) => *final(self) is Idle && told(r, manual, e@),
            },
    {
        match file {
            Ok(dmg) => {
                *self = UpdateState::Ready { version, dmg };
                UpdateStep::Nothing
            },
            Err(e) => {
                *self = UpdateState::Idle;
                tell(manual, e)
            },
        }
    }

    /// The file to install, once there is one.
    pub fn installable(&self) -> (r: Option<&String>)
        ensures
            match *self {
                UpdateState::Ready { version, dmg } => r == Some(&dmg),
                _ => r is None,
            },
    {
        match self {
            UpdateState::Ready { dmg, .. } => Some(dmg),
            _ => None,
        }
    }

    /// What the window shows in its corner.
    pub fn label(&self) -> (r: Option<String>)
        ensures
            match *self {
                UpdateState::Downloading(v) => r matches Some(t) && t@ == "downloading v"@ + v@
                    + "…"@,
                UpdateState::Ready { version, dmg } => r matches Some(t) && t@ == "↓ v"@ + version@
                    + " ready — click to install"@,
                _ => r is None,
            },
    {
        match self {
            UpdateState::Downloading(version) => {
                let mut out = "downloading v".to_owned();
                out.push_str(version.as_str());
                out.push_str("…");
                Some(out)
            },
            UpdateState::Ready { version, .. } => {
                let mut out = "↓ v".to_owned();
                out.push_str(version.as_str());
                out.push_str(" ready — click to install");
                Some(out)
            },
            _ => None,
        }
    }
}

/// The end of an installation. From an installed application it quits, so
/// that the new one can start; otherwise only the image was opened.
pub fn installed(result: Result<(), String>, bundled: bool) -> (r: UpdateStep)
    ensures
        match result {
            Ok(()) => if bundled {
                r is Quit
            } else {
                r matches UpdateStep::Tell(m) && m@
                    == "not running from an installed app — opened the DMG instead"@
            },
            Err(e) => r matches UpdateStep::Tell(m) && m@ == e@,
        },
{
    match result {
        Ok(()) => if bundled {
            UpdateStep::Quit
        } else {
            UpdateStep::Tell("not running from an installed app — opened the DMG instead".to_owned())
        },
        Err(e) => UpdateStep::Tell(e),
    }
}

/// An installed update starts the application again; outside an installed
/// application, and where it failed, the user is told.
pub proof fn lemma_after_installing(e: String, bundled: bool, r: UpdateStep)
    ensures
        call_ensures(installed, (Ok(()), true), r) ==> r is Quit,
        call_ensures(installed, (Ok(()), false), r) ==> r is Tell,
        call_ensures(installed, (Err(e), bundled), r) ==> (r matches UpdateStep::Tell(m) && m@ == e@),
{
}

/// Only an update that is ready can be installed, from its own file.
pub proof fn lemma_installable_updates(version: String, dmg: String, r: Option<&String>)
    ensures
        call_ensures(
            UpdateState::installable,
            (&(UpdateState::Ready { version, dmg }),),
            r,
        ) ==> r == Some(&dmg),
        call_ensures(UpdateState::installable, (&UpdateState::Idle,), r) ==> r is None,
        call_ensures(UpdateState::installable, (&UpdateState::Checking,), r) ==> r is None,
        call_ensures(UpdateState::installable, (&UpdateState::Downloading(version),), r) ==> r
            is None,
{
}

} // verus!
