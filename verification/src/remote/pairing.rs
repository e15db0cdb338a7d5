//! A pairing in progress, as the compositor sees it.
//!
//! The protocol runs somewhere else and reports what it learns; the compositor looks once a
//! frame. A pairing lasts as long as a person takes to read six digits twice, and a look per
//! frame is nothing next to that.

use vstd::prelude::*;
use crate::text::{chars, push_str, string};

verus! {

/// What a host that said yes turned out to be.
#[derive(Debug, Clone, PartialEq, Eq)]
pub struct Paired {
    pub name: String,
    pub fingerprint: String,
}

impl Paired {
    /// Another of the same.
    pub fn copy(&self) -> (out: Paired)
        ensures
            out == *self,
    {
        Paired { name: self.name.clone(), fingerprint: self.fingerprint.clone() }
    }
}

/// What the compositor can see of a pairing.
#[derive(Debug, Clone, PartialEq, Eq)]
pub struct State {
    pub code: Option<String>,
    pub fingerprint: Option<String>,
    /// Set once, when it is over.
    pub outcome: Option<Result<Paired, String>>,
}

impl Default for State {
    fn default() -> (out: Self)
        ensures
            out.code is None,
            out.fingerprint is None,
            out.outcome is None,
    {
        State { code: None, fingerprint: None, outcome: None }
    }
}

impl State {
    /// The two ends have something to compare.
    pub fn compare(&mut self, fingerprint: String, code: String)
        ensures
            final(self).code == Some(code),
            final(self).fingerprint == Some(fingerprint),
            final(self).outcome == old(self).outcome,
    {
        self.code = Some(code);
        self.fingerprint = Some(fingerprint);
    }

    /// It is over.
    pub fn finish(&mut self, outcome: Result<Paired, String>)
        ensures
            final(self).outcome == Some(outcome),
            final(self).code == old(self).code,
            final(self).fingerprint == old(self).fingerprint,
    {
        self.outcome = Some(outcome);
    }
}

/// A pairing, and what the wearer has said about it.
#[derive(Debug)]
pub struct PairingInProgress {
    pub address: String,
    /// The wearer has said the codes match.
    pub confirmed: bool,
    /// Over: kept only so the page can say how it ended.
    pub finished: Option<Result<String, String>>,
}

/// What the settings page shows of a pairing.
#[derive(Debug, Clone, PartialEq, Eq)]
pub struct PairingView {
    pub address: String,
    pub code: Option<String>,
    pub status: String,
    pub host_accepted: bool,
    pub finished: bool,
    pub succeeded: bool,
}

impl PairingInProgress {
    pub fn new(address: String) -> (out: PairingInProgress)
        ensures
            out.address == address,
            !out.confirmed,
            out.finished is None,
    {
        PairingInProgress { address, confirmed: false, finished: None }
    }

    /// The wearer says the codes match.
    pub fn confirm(&mut self)
        ensures
            final(self).confirmed,
            final(self).address == old(self).address,
            final(self).finished == old(self).finished,
    {
        self.confirmed = true;
    }

    /// Whether both ends have agreed, and nothing has been made of it yet.
    pub open spec fn agreed(self, state: State) -> bool {
        self.finished is None && self.confirmed && (state.outcome matches Some(Ok(_)))
    }

    /// Look at how a pairing is going. Returns what to write down, once, when both ends have
    /// agreed.
    ///
    /// The host saying yes proves only that *something* said yes, so nothing is written down
    /// until the wearer has said so too. A pairing that failed is over whatever they say.
    pub fn settle(&mut self, state: &State) -> (out: Option<Paired>)
        ensures
            out is Some <==> old(self).agreed(*state),
            out matches Some(paired) ==> state.outcome == Some(Ok::<Paired, String>(paired))
                && final(self).finished == Some(Ok::<String, String>(paired.name)),
            out is None ==> final(self).finished == (match (old(self).finished, state.outcome) {
                (None, Some(Err(e))) => Some(Err::<String, String>(e)),
                _ => old(self).finished,
            }),
            final(self).address == old(self).address,
            final(self).confirmed == old(self).confirmed,
    {
        if self.finished.is_some() {
            return None;
        }
        match &state.outcome {
            None => None,
            Some(Err(e)) => {
                self.finished = Some(Err(e.clone()));
                None
            },
            Some(Ok(paired)) => {
                if !self.confirmed {
                    return None;
                }
                self.finished = Some(Ok(paired.name.clone()));
                Some(paired.copy())
            },
        }
    }

    /// What the page says about it.
    pub open spec fn status(self, state: State) -> Seq<char> {
        match self.finished {
            Some(Ok(name)) => "Paired with "@ + name@ + ". Its apps are in the launcher."@,
            Some(Err(e)) => e@,
            None => match state.code {
                None => "Looking for "@ + self.address@ + "…"@,
                Some(_) => if !self.confirmed {
                    "Check that "@ + self.address@
                        + " shows the same code, and answer yes there. Then press A here if they match."@
                } else if !(state.outcome matches Some(Ok(_))) {
                    "Waiting for "@ + self.address@ + " to be told yes…"@
                } else {
                    "Saving…"@
                },
            },
        }
    }

    fn status_text(&self, state: &State) -> (out: String)
        ensures
            out@ == self.status(*state),
    {
        let mut out: Vec<char> = Vec::new();
        match &self.finished {
            Some(Ok(name)) => {
                out = chars("Paired with ");
                push_str(&mut out, name.as_str());
                push_str(&mut out, ". Its apps are in the launcher.");
            },
            Some(Err(e)) => {
                out = chars(e.as_str());
            },
            None => {
                if state.code.is_none() {
                    out = chars("Looking for ");
                    push_str(&mut out, self.address.as_str());
                    push_str(&mut out, "…");
                } else if !self.confirmed {
                    out = chars("Check that ");
                    push_str(&mut out, self.address.as_str());
                    push_str(
                        &mut out,
                        " shows the same code, and answer yes there. Then press A here if they match.",
                    );
                } else if !accepted(state) {
                    out = chars("Waiting for ");
                    push_str(&mut out, self.address.as_str());
                    push_str(&mut out, " to be told yes…");
                } else {
                    out = chars("Saving…");
                }
            },
        }
        string(out.as_slice())
    }

    /// What the settings page shows.
    pub fn view(&self, state: &State) -> (out: PairingView)
        ensures
            out.address == self.address,
            out.code == state.code,
            out.status@ == self.status(*state),
            out.host_accepted == (state.outcome matches Some(Ok(_))),
            out.finished == self.finished is Some,
            out.succeeded == (self.finished matches Some(Ok(_))),
    {
        let code = match &state.code {
            Some(code) => Some(code.clone()),
            None => None,
        };
        let succeeded = match &self.finished {
            Some(Ok(_)) => true,
            _ => false,
        };
        PairingView {
            address: self.address.clone(),
            code,
            status: self.status_text(state),
            host_accepted: accepted(state),
            finished: self.finished.is_some(),
            succeeded,
        }
    }
}

/// A pairing is written down once: whatever the link says afterwards, a finished one is never
/// agreed to again.
pub proof fn a_pairing_is_written_down_once(finished: PairingInProgress, state: State)
    requires
        finished.finished is Some,
    ensures
        !finished.agreed(state),
{
}

fn accepted(state: &State) -> (out: bool)
    ensures
        out == (state.outcome matches Some(Ok(_))),
{
    match &state.outcome {
        Some(Ok(_)) => true,
        _ => false,
    }
}

/// Nothing is agreed until both ends have said so: not by the host alone, nor by the wearer alone,
/// and not once it is over.
pub proof fn both_ends_have_to_agree(pairing: PairingInProgress, state: State)
    ensures
        !pairing.confirmed ==> !pairing.agreed(state),
        state.outcome is None ==> !pairing.agreed(state),
        (state.outcome matches Some(Err(_))) ==> !pairing.agreed(state),
        pairing.finished is None && pairing.confirmed && (state.outcome matches Some(Ok(_)))
            ==> pairing.agreed(state),
{
}

/// While a pairing goes on the page names the computer it is with, from the first look for it until
/// both have agreed; a pairing that failed says why, and one that is done says with whom.
pub proof fn the_page_names_the_computer(pairing: PairingInProgress, state: State)
    ensures
        ({
            let said = pairing.status(state);
            let address = pairing.address@;
            &&& pairing.finished matches Some(Err(e)) ==> said == e@
            &&& pairing.finished matches Some(Ok(name)) ==> said.subrange(
                12,
                (12 + name@.len()) as int,
            ) == name@
            &&& pairing.finished is None && state.code is None ==> said.subrange(
                12,
                (12 + address.len()) as int,
            ) == address
            &&& pairing.finished is None && state.code is Some && !pairing.confirmed
                ==> said.subrange(11, (11 + address.len()) as int) == address
            &&& pairing.finished is None && state.code is Some && pairing.confirmed && !(
            state.outcome matches Some(Ok(_))) ==> said.subrange(
                12,
                (12 + address.len()) as int,
            ) == address
        }),
{
    reveal_strlit("Paired with ");
    reveal_strlit("Looking for ");
    reveal_strlit("Check that ");
    reveal_strlit("Waiting for ");
    let said = pairing.status(state);
    let address = pairing.address@;
    if let Some(Ok(name)) = pairing.finished {
        assert(said.subrange(12, (12 + name@.len()) as int) =~= name@);
    }
    if pairing.finished is None {
        if state.code is None {
            assert(said.subrange(12, (12 + address.len()) as int) =~= address);
        } else if !pairing.confirmed {
            assert(said.subrange(11, (11 + address.len()) as int) =~= address);
        } else if !(state.outcome matches Some(Ok(_))) {
            assert(said.subrange(12, (12 + address.len()) as int) =~= address);
        }
    }
}

} // verus!
