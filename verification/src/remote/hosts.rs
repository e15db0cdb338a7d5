//! Every host this session knows, and the bookkeeping that keeps the settings page, the launcher
//! and the pad in step with them.

use vstd::prelude::*;
use crate::text::{after_prefix, begins, chars, same, string, strip_prefix};
use crate::remote::pairing::{PairingInProgress, PairingView, State};
use crate::remote::{owns, prefix_of, said};

verus! {

/// How a host's link stands.
#[derive(Debug, Clone, PartialEq, Eq)]
pub enum Link {
    Connecting,
    Online,
    Offline(String),
    Refused(String),
}

impl Default for Link {
    fn default() -> (out: Self)
        ensures
            out == Link::Connecting,
    {
        Link::Connecting
    }
}

/// One application a host offers.
#[derive(Debug, Clone, PartialEq, Eq)]
pub struct RemoteApp {
    pub id: String,
    pub name: String,
    /// The icon the host sent, saved to a file. Its name changes when the picture does, so a
    /// replaced icon is loaded afresh rather than found in the icon cache under the old name.
    pub icon: Option<String>,
}

impl RemoteApp {
    /// Another of the same.
    pub fn copy(&self) -> (out: RemoteApp)
        ensures
            out == *self,
    {
        RemoteApp {
            id: self.id.clone(),
            name: self.name.clone(),
            icon: match &self.icon {
                Some(icon) => Some(icon.clone()),
                None => None,
            },
        }
    }
}

/// The most clipboard talk that is kept for a session that is not listening.
pub const CLIPBOARD_CAP: usize = 16;

/// What this session knows about one host right now. Written by the host's thread, read by
/// the compositor to fill in the settings page and the launcher.
#[derive(Debug, Clone, PartialEq, Eq)]
pub struct HostView {
    /// What the host calls itself, once it has said.
    pub name: Option<String>,
    pub link: Link,
    /// What it offers, as of the last time it said.
    pub apps: Vec<RemoteApp>,
    /// A game there asked the pad to rumble, and nothing has played it yet. Taken by the
    /// compositor, which owns the only motors.
    pub rumble: Option<(u16, u16)>,
    /// What this host has said about the clipboard and nothing has acted on yet. A queue
    /// rather than the latest, because an announcement, a paste's question and its answer are
    /// three different things and losing any of them loses a paste.
    pub clipboard: Vec<Vec<u8>>,
}

impl Default for HostView {
    fn default() -> (out: Self)
        ensures
            out.name is None,
            out.link == Link::Connecting,
            out.apps@.len() == 0,
            out.rumble is None,
            out.clipboard@.len() == 0,
    {
        HostView {
            name: None,
            link: Link::Connecting,
            apps: Vec::new(),
            rumble: None,
            clipboard: Vec::new(),
        }
    }
}

impl HostView {
    /// Never more clipboard talk than is kept.
    pub open spec fn wf(self) -> bool {
        self.clipboard@.len() <= CLIPBOARD_CAP
    }

    /// The host has said something about the clipboard. Kept until the compositor looks, and the
    /// oldest goes where nobody does: a host that talked to a session that was not listening
    /// would otherwise grow this for ever.
    pub fn clipboard_says(&mut self, what: Vec<u8>)
        requires
            old(self).wf(),
        ensures
            final(self).wf(),
            final(self).clipboard@ == (if old(self).clipboard@.len() >= CLIPBOARD_CAP {
                old(self).clipboard@.skip(1).push(what)
            } else {
                old(self).clipboard@.push(what)
            }),
            final(self).name == old(self).name,
            final(self).link == old(self).link,
            final(self).apps == old(self).apps,
            final(self).rumble == old(self).rumble,
    {
        let ghost had = self.clipboard@;
        if self.clipboard.len() >= CLIPBOARD_CAP {
            let _ = self.clipboard.remove(0);
            assert(self.clipboard@ =~= had.skip(1));
        }
        self.clipboard.push(what);
    }

    /// Whatever it has said about the clipboard since the last look.
    pub fn take_clipboard(&mut self) -> (out: Vec<Vec<u8>>)
        ensures
            out == old(self).clipboard,
            final(self).clipboard@.len() == 0,
            final(self).name == old(self).name,
            final(self).link == old(self).link,
            final(self).apps == old(self).apps,
            final(self).rumble == old(self).rumble,
    {
        let mut out: Vec<Vec<u8>> = Vec::new();
        std::mem::swap(&mut out, &mut self.clipboard);
        out
    }

    /// A game there asked for rumble, if one has since the last look.
    pub fn take_rumble(&mut self) -> (out: Option<(u16, u16)>)
        ensures
            out == old(self).rumble,
            final(self).rumble is None,
            final(self).name == old(self).name,
            final(self).link == old(self).link,
            final(self).apps == old(self).apps,
            final(self).clipboard == old(self).clipboard,
    {
        self.rumble.take()
    }
}

/// The state of the gamepad, as the report that goes to a host. Nothing at all is a pad at rest.
#[derive(Debug, Clone, PartialEq, Eq)]
pub struct Pad {
    pub report: Vec<u8>,
}

impl Pad {
    /// Nothing pressed, and every stick let go.
    pub fn at_rest() -> (out: Pad)
        ensures
            out.report@.len() == 0,
    {
        Pad { report: Vec::new() }
    }

    /// Another of the same.
    pub fn copy(&self) -> (out: Pad)
        ensures
            out.report@ == self.report@,
    {
        let mut report: Vec<u8> = Vec::new();
        let mut i: usize = 0;
        while i < self.report.len()
            invariant
                i <= self.report.len(),
                report@ == self.report@.take(i as int),
            decreases self.report.len() - i,
        {
            assert(self.report@.take(i + 1) =~= self.report@.take(i as int).push(
                self.report@[i as int],
            ));
            report.push(self.report[i]);
            i = i + 1;
        }
        assert(self.report@.take(i as int) =~= self.report@);
        Pad { report }
    }

    /// Whether two reports say the same.
    pub fn says(&self, other: &Pad) -> (out: bool)
        ensures
            out == (self.report@ == other.report@),
    {
        if self.report.len() != other.report.len() {
            return false;
        }
        let mut i: usize = 0;
        while i < self.report.len()
            invariant
                i <= self.report.len(),
                self.report.len() == other.report.len(),
                forall|k: int| 0 <= k < i ==> self.report@[k] == other.report@[k],
            decreases self.report.len() - i,
        {
            if self.report[i] != other.report[i] {
                return false;
            }
            i = i + 1;
        }
        assert(self.report@ =~= other.report@);
        true
    }
}

/// A host being shown in this session.
#[derive(Debug)]
pub struct Remote {
    /// What it was added as. The key it is known by everywhere.
    pub host: String,
    pub view: HostView,
}

/// What the hosts are known by, in the order they were added.
pub open spec fn names(hosts: Seq<Remote>) -> Seq<Seq<char>> {
    Seq::new(hosts.len(), |i: int| hosts[i].host@)
}

/// Where the first name stands that something holds of, or the length.
pub open spec fn first_where(names: Seq<Seq<char>>, wanted: spec_fn(Seq<char>) -> bool) -> nat
    decreases names.len(),
{
    if names.len() == 0 || wanted(names[0]) {
        0
    } else {
        1 + first_where(names.skip(1), wanted)
    }
}

proof fn lemma_first_where(names: Seq<Seq<char>>, wanted: spec_fn(Seq<char>) -> bool, n: nat)
    requires
        n <= names.len(),
        n < names.len() ==> wanted(names[n as int]),
        forall|i: int| 0 <= i < n ==> !wanted(#[trigger] names[i]),
    ensures
        first_where(names, wanted) == n,
    decreases names.len(),
{
    if n > 0 {
        assert(!wanted(names[0]));
        assert forall|i: int| 0 <= i < n - 1 implies !wanted(#[trigger] names.skip(1)[i]) by {
            assert(names.skip(1)[i] == names[i + 1]);
        }
        if n < names.len() {
            assert(names.skip(1)[n - 1] == names[n as int]);
        }
        lemma_first_where(names.skip(1), wanted, (n - 1) as nat);
    }
}

/// Whether a name is this host's.
pub open spec fn is_host(host: Seq<char>) -> spec_fn(Seq<char>) -> bool {
    |name: Seq<char>| name == host
}

/// Whether a name is that of the host an application belongs to.
pub open spec fn is_owner(app_id: Seq<char>) -> spec_fn(Seq<char>) -> bool {
    |name: Seq<char>| begins(app_id, prefix_of(name))
}

/// Where a host stands, or how many there are.
pub open spec fn index_of(names: Seq<Seq<char>>, host: Seq<char>) -> nat {
    first_where(names, is_host(host))
}

/// Where the host stands that an application belongs to, or how many there are.
pub open spec fn owner_of(names: Seq<Seq<char>>, app_id: Seq<char>) -> nat {
    first_where(names, is_owner(app_id))
}

/// A position that may be past the end, as one that may not be there.
pub open spec fn within(at: nat, len: nat) -> Option<int> {
    if at < len {
        Some(at as int)
    } else {
        None
    }
}

/// The model of an index that may not be there.
pub open spec fn placed(at: Option<usize>) -> Option<int> {
    match at {
        Some(i) => Some(i as int),
        None => None,
    }
}

/// Who is to be given the pad: the focused application, if it is one of a host's.
pub open spec fn holder(names: Seq<Seq<char>>, focused: Option<Seq<char>>) -> Option<Seq<char>> {
    match focused {
        Some(id) if owner_of(names, id) < names.len() => Some(id),
        _ => None,
    }
}

/// Who has the pad, and what they were last given.
pub type Held = Option<(Seq<char>, Seq<u8>)>;

/// Who had the pad.
pub open spec fn had(padded: Held) -> Option<Seq<char>> {
    match padded {
        Some((id, _)) => Some(id),
        None => None,
    }
}

/// What is sent to whoever had the pad when somebody else is to have it: that it is at rest.
pub open spec fn let_go(
    names: Seq<Seq<char>>,
    padded: Held,
    focused: Option<Seq<char>>,
) -> Seq<(int, Seq<u8>)> {
    match had(padded) {
        Some(id) if had(padded) != holder(names, focused) && owner_of(names, id) < names.len() => {
            seq![(owner_of(names, id) as int, Seq::<u8>::empty())]
        },
        _ => Seq::empty(),
    }
}

/// Who has the pad once it has changed hands: a new holder has been given nothing yet.
pub open spec fn handed(names: Seq<Seq<char>>, padded: Held, focused: Option<Seq<char>>) -> Held {
    if had(padded) == holder(names, focused) {
        padded
    } else {
        match holder(names, focused) {
            Some(id) => Some((id, Seq::empty())),
            None => None,
        }
    }
}

/// Who has the pad afterwards, and what.
pub open spec fn padded_after(
    names: Seq<Seq<char>>,
    padded: Held,
    focused: Option<Seq<char>>,
    state: Seq<u8>,
) -> Held {
    match holder(names, focused) {
        Some(id) => Some((id, state)),
        None => handed(names, padded, focused),
    }
}

/// Everything that is sent: the letting go, and the pad's state to its holder where it differs
/// from what they were last given.
pub open spec fn pad_sends(
    names: Seq<Seq<char>>,
    padded: Held,
    focused: Option<Seq<char>>,
    state: Seq<u8>,
) -> Seq<(int, Seq<u8>)> {
    let first = let_go(names, padded, focused);
    match handed(names, padded, focused) {
        Some((id, last)) if last != state => first.push((owner_of(names, id) as int, state)),
        _ => first,
    }
}

/// An unchanged pad costs nothing.
pub proof fn an_unchanged_pad_costs_nothing(
    names: Seq<Seq<char>>,
    padded: Held,
    focused: Option<Seq<char>>,
    state: Seq<u8>,
)
    ensures
        pad_sends(names, padded_after(names, padded, focused, state), focused, state)
            == Seq::<(int, Seq<u8>)>::empty(),
{
    let after = padded_after(names, padded, focused, state);
    assert(had(after) == holder(names, focused));
}

/// A host that loses the pad is told it is at rest, first of all and exactly once: a stick left
/// pushed over walks an avatar into a wall.
pub proof fn a_host_that_loses_the_pad_is_told_to_let_go_once(
    names: Seq<Seq<char>>,
    padded: Held,
    focused: Option<Seq<char>>,
    state: Seq<u8>,
    later: Seq<u8>,
)
    requires
        had(padded) matches Some(id) && owner_of(names, id) < names.len(),
        had(padded) != holder(names, focused),
    ensures
        pad_sends(names, padded, focused, state).len() >= 1,
        pad_sends(names, padded, focused, state)[0] == (
            owner_of(names, had(padded)->0) as int,
            Seq::<u8>::empty(),
        ),
        let_go(names, padded_after(names, padded, focused, state), focused) == Seq::<
            (int, Seq<u8>),
        >::empty(),
{
}

/// A host is found under its own name, and the first of that name is; and an application belongs to
/// the first host whose prefix its name begins with. Nothing is found where there is none.
pub proof fn a_host_is_found_by_its_name(names: Seq<Seq<char>>, host: Seq<char>, app_id: Seq<char>)
    ensures
        index_of(names, host) <= names.len(),
        index_of(names, host) < names.len() ==> names[index_of(names, host) as int] == host,
        forall|i: int| 0 <= i < index_of(names, host) ==> (#[trigger] names[i]) != host,
        owner_of(names, app_id) <= names.len(),
        owner_of(names, app_id) < names.len() ==> {
            let prefix = prefix_of(names[owner_of(names, app_id) as int]);
            prefix.len() <= app_id.len() && app_id.take(prefix.len() as int) == prefix
        },
        forall|i: int|
            0 <= i < owner_of(names, app_id) ==> !(prefix_of(#[trigger] names[i]).len()
                <= app_id.len() && app_id.take(prefix_of(names[i]).len() as int) == prefix_of(
                names[i],
            )),
{
    lemma_found(names, is_host(host));
    lemma_found(names, is_owner(app_id));
    lemma_none_before(names, is_host(host));
    lemma_none_before(names, is_owner(app_id));
    assert forall|i: int| 0 <= i < index_of(names, host) implies (#[trigger] names[i]) != host by {
        assert(!is_host(host)(names[i]));
    }
    assert forall|i: int| 0 <= i < owner_of(names, app_id) implies !(prefix_of(
        #[trigger] names[i],
    ).len() <= app_id.len() && app_id.take(prefix_of(names[i]).len() as int) == prefix_of(
        names[i],
    )) by {
        assert(!is_owner(app_id)(names[i]));
    }
}

proof fn lemma_none_before(names: Seq<Seq<char>>, wanted: spec_fn(Seq<char>) -> bool)
    ensures
        forall|i: int| 0 <= i < first_where(names, wanted) ==> !wanted(#[trigger] names[i]),
    decreases names.len(),
{
    if names.len() > 0 && !wanted(names[0]) {
        lemma_none_before(names.skip(1), wanted);
        lemma_found(names, wanted);
        assert forall|i: int| 0 <= i < first_where(names, wanted) implies !wanted(
            #[trigger] names[i],
        ) by {
            if i > 0 {
                assert(names.skip(1)[i - 1] == names[i]);
            }
        }
    }
}

/// The pad follows the focus. While the focused application is a host's, that host is sent the
/// pad's state last of all, unless it is what that application was last given, and is what it was
/// last given from then on. While it is no host's, nobody has the pad, and nothing but a letting go
/// is sent. No more than the two are ever sent.
pub proof fn the_pad_follows_the_focus(
    names: Seq<Seq<char>>,
    padded: Held,
    focused: Option<Seq<char>>,
    state: Seq<u8>,
)
    ensures
        ({
            let sends = pad_sends(names, padded, focused, state);
            let after = padded_after(names, padded, focused, state);
            let owned = focused is Some && owner_of(names, focused->0) < names.len();
            &&& sends.len() <= 2
            &&& owned ==> after == Some((focused->0, state))
            &&& owned && padded == Some((focused->0, state)) ==> sends.len() == 0
            &&& owned && (padded matches Some((id, last)) && id == focused->0 && last != state)
                ==> sends == seq![(owner_of(names, focused->0) as int, state)]
            &&& owned && !(padded matches Some((id, last)) && id == focused->0) && state.len() > 0
                ==> sends.len() > 0 && sends.last() == (
                owner_of(names, focused->0) as int,
                state,
            )
            &&& !owned ==> after is None && sends.len() <= 1
            &&& !owned && sends.len() == 1 ==> sends[0].1.len() == 0 && (padded matches Some((id, _))
                && sends[0].0 == owner_of(names, id))
            &&& padded is None && !owned ==> sends.len() == 0
        }),
{
    let sends = pad_sends(names, padded, focused, state);
    if focused is Some && owner_of(names, focused->0) < names.len() {
        if let Some((id, last)) = padded {
            if id == focused->0 && last != state {
                assert(sends =~= seq![(owner_of(names, focused->0) as int, state)]);
            }
        }
    }
}

/// How a host is doing, for its row.
#[derive(Debug, Clone, Copy, PartialEq, Eq, Structural)]
pub enum HostStatus {
    Online,
    Connecting,
    Offline,
    Refused,
}

/// How a link looks from the settings page.
pub open spec fn status_of(link: Link) -> HostStatus {
    match link {
        Link::Online => HostStatus::Online,
        Link::Connecting => HostStatus::Connecting,
        Link::Offline(_) => HostStatus::Offline,
        Link::Refused(_) => HostStatus::Refused,
    }
}

/// One row of the settings page.
#[derive(Debug, Clone, PartialEq, Eq)]
pub struct HostRow {
    pub label: String,
    pub address: String,
    pub status: HostStatus,
}

/// One tab of the launcher.
#[derive(Debug, Clone, PartialEq, Eq)]
pub struct HostTab {
    pub label: String,
    pub address: String,
    pub online: bool,
    pub apps: Vec<RemoteApp>,
}

/// A host the wearer has paired with.
#[derive(Debug, Clone, PartialEq, Eq)]
pub struct RemoteHost {
    pub host: String,
    pub fingerprint: String,
    /// Started as soon as the link is up.
    pub launch: Vec<String>,
}

/// What a host is called on the page: what it calls itself, or what it was added as.
pub open spec fn label_of(hosts: Seq<Remote>, address: Seq<char>) -> Seq<char> {
    let at = index_of(names(hosts), address) as int;
    if at < hosts.len() {
        match hosts[at].view.name {
            Some(name) => name@,
            None => address,
        }
    } else {
        address
    }
}

/// How a host is doing; one that has not been started is still connecting.
pub open spec fn standing(hosts: Seq<Remote>, address: Seq<char>) -> HostStatus {
    let at = index_of(names(hosts), address) as int;
    if at < hosts.len() {
        status_of(hosts[at].view.link)
    } else {
        HostStatus::Connecting
    }
}

/// What a host offers.
pub open spec fn offered(hosts: Seq<Remote>, address: Seq<char>) -> Seq<RemoteApp> {
    let at = index_of(names(hosts), address) as int;
    if at < hosts.len() {
        hosts[at].view.apps@
    } else {
        Seq::empty()
    }
}

/// The first host of a name is the one that is asked: what a host is called, how it is doing and
/// what it offers are what its own view says, every application of it and in its order. One that
/// gives itself no name is called by its address.
pub proof fn a_host_is_described_by_its_own_view(hosts: Seq<Remote>, address: Seq<char>, at: int)
    requires
        0 <= at < hosts.len(),
        hosts[at].host@ == address,
        forall|i: int| 0 <= i < at ==> (#[trigger] hosts[i]).host@ != address,
    ensures
        offered(hosts, address) == hosts[at].view.apps@,
        hosts[at].view.name matches Some(name) ==> label_of(hosts, address) == name@,
        hosts[at].view.name is None ==> label_of(hosts, address) == address,
        hosts[at].view.link is Online <==> standing(hosts, address) == HostStatus::Online,
        hosts[at].view.link is Connecting <==> standing(hosts, address) == HostStatus::Connecting,
        hosts[at].view.link is Offline <==> standing(hosts, address) == HostStatus::Offline,
        hosts[at].view.link is Refused <==> standing(hosts, address) == HostStatus::Refused,
{
    lemma_first_where(names(hosts), is_host(address), at as nat);
}

/// A paired host that the session does not know yet is called by its address, is connecting, and
/// offers nothing.
pub proof fn an_unknown_host_offers_nothing(hosts: Seq<Remote>, address: Seq<char>)
    requires
        forall|i: int| 0 <= i < hosts.len() ==> (#[trigger] hosts[i]).host@ != address,
    ensures
        offered(hosts, address).len() == 0,
        label_of(hosts, address) == address,
        standing(hosts, address) == HostStatus::Connecting,
{
    lemma_first_where(names(hosts), is_host(address), hosts.len());
}

/// Whom the session's clipboard has something to say to.
#[derive(Debug)]
pub enum Say {
    /// Every host but the one it came from.
    Everyone { except: Option<String> },
    Just { host: String },
}

/// Every host this session knows, and who has the pad.
#[derive(Debug)]
pub struct Remotes {
    pub hosts: Vec<Remote>,
    /// Which application was last given the pad, and what it was given, so an unchanged pad costs
    /// nothing and a host that loses focus is told to let go exactly once.
    pub padded: Option<(String, Pad)>,
    /// Whether this session sends its microphone to a host that asks. From the preferences,
    /// once, at startup.
    pub microphone: bool,
    pub pairing: Option<PairingInProgress>,
}

/// The model of who has the pad.
pub open spec fn held(padded: Option<(String, Pad)>) -> Held {
    match padded {
        Some((id, pad)) => Some((id@, pad.report@)),
        None => None,
    }
}

/// The model of what is sent.
pub open spec fn sent(out: Seq<(usize, Pad)>) -> Seq<(int, Seq<u8>)> {
    Seq::new(out.len(), |i: int| (out[i].0 as int, out[i].1.report@))
}

fn same_text(a: &str, b: &str) -> (out: bool)
    ensures
        out == (a@ == b@),
{
    let a = chars(a);
    let b = chars(b);
    same(a.as_slice(), b.as_slice())
}

fn owned(s: &str) -> (out: String)
    ensures
        out@ == s@,
{
    let cs = chars(s);
    string(cs.as_slice())
}

impl Remotes {
    /// No hosts yet.
    pub fn new(microphone: bool) -> (out: Remotes)
        ensures
            out.hosts@.len() == 0,
            out.padded is None,
            out.microphone == microphone,
            out.pairing is None,
    {
        Remotes { hosts: Vec::new(), padded: None, microphone, pairing: None }
    }

    /// Where a host stands.
    pub fn find(&self, host: &str) -> (out: Option<usize>)
        ensures
            placed(out) == within(index_of(names(self.hosts@), host@), self.hosts@.len()),
    {
        let ghost all = names(self.hosts@);
        let ghost wanted = is_host(host@);
        let mut i: usize = 0;
        while i < self.hosts.len()
            invariant
                i <= self.hosts.len(),
                all == names(self.hosts@),
                wanted == is_host(host@),
                forall|k: int| 0 <= k < i ==> !wanted(#[trigger] all[k]),
            decreases self.hosts.len() - i,
        {
            if same_text(self.hosts[i].host.as_str(), host) {
                proof {
                    assert(wanted(all[i as int]));
                    lemma_first_where(all, wanted, i as nat);
                }
                return Some(i);
            }
            i = i + 1;
        }
        proof {
            lemma_first_where(all, wanted, i as nat);
        }
        None
    }

    /// Where the host stands that an application belongs to.
    pub fn owner(&self, app_id: &str) -> (out: Option<usize>)
        ensures
            placed(out) == within(owner_of(names(self.hosts@), app_id@), self.hosts@.len()),
    {
        let ghost all = names(self.hosts@);
        let ghost wanted = is_owner(app_id@);
        let mut i: usize = 0;
        while i < self.hosts.len()
            invariant
                i <= self.hosts.len(),
                all == names(self.hosts@),
                wanted == is_owner(app_id@),
                forall|k: int| 0 <= k < i ==> !wanted(#[trigger] all[k]),
            decreases self.hosts.len() - i,
        {
            if owns(self.hosts[i].host.as_str(), app_id) {
                proof {
                    assert(wanted(all[i as int]));
                    lemma_first_where(all, wanted, i as nat);
                }
                return Some(i);
            }
            i = i + 1;
        }
        proof {
            lemma_first_where(all, wanted, i as nat);
        }
        None
    }

    /// A host has been started.
    pub fn add(&mut self, host: String)
        ensures
            final(self).hosts@.len() == old(self).hosts@.len() + 1,
            final(self).hosts@.drop_last() == old(self).hosts@,
            final(self).hosts@.last().host == host,
            final(self).hosts@.last().view.name is None,
            final(self).hosts@.last().view.link == Link::Connecting,
            final(self).hosts@.last().view.apps@.len() == 0,
            final(self).hosts@.last().view.rumble is None,
            final(self).hosts@.last().view.clipboard@.len() == 0,
            final(self).padded == old(self).padded,
            final(self).microphone == old(self).microphone,
            final(self).pairing == old(self).pairing,
    {
        let ghost had = self.hosts@;
        self.hosts.push(Remote { host, view: HostView::default() });
        assert(self.hosts@.drop_last() =~= had);
    }

    /// Which host to start an application on, if it is known.
    pub fn launch(&self, host: &str) -> (out: Option<usize>)
        ensures
            placed(out) == within(index_of(names(self.hosts@), host@), self.hosts@.len()),
    {
        self.find(host)
    }

    /// Which application to kill, and on which host, for the window with this app id.
    pub fn force_quit(&self, app_id: &str) -> (out: Option<(usize, String)>)
        ensures
            out is Some <==> owner_of(names(self.hosts@), app_id@) < self.hosts@.len(),
            out matches Some((at, app)) ==> {
                &&& at == owner_of(names(self.hosts@), app_id@)
                &&& after_prefix(app_id@, prefix_of(self.hosts@[at as int].host@)) == Some(app@)
            },
    {
        let at: usize = match self.owner(app_id) {
            Some(at) => at,
            None => {
                return None;
            },
        };
        let ghost all = names(self.hosts@);
        proof {
            lemma_found(all, is_owner(app_id@));
            assert(all[at as int] == self.hosts@[at as int].host@);
        }
        let prefix = crate::remote::app_id_prefix(self.hosts[at].host.as_str());
        let prefix = chars(prefix.as_str());
        let id = chars(app_id);
        match strip_prefix(id.as_slice(), prefix.as_slice()) {
            Some(app) => Some((at, string(app))),
            None => None,
        }
    }

    /// Hand the gamepad to whichever host owns the window in front of the wearer.
    ///
    /// Called every frame with the focused application's id, or nothing for a local one. Returns
    /// what to send, and to which hosts, in order. Sent only when it differs from the last one,
    /// and a host losing focus is told the pad is at rest.
    pub fn pad(&mut self, focused: Option<&str>, state: &Pad) -> (out: Vec<(usize, Pad)>)
        ensures
            sent(out@) == pad_sends(
                names(old(self).hosts@),
                held(old(self).padded),
                said(focused),
                state.report@,
            ),
            held(final(self).padded) == padded_after(
                names(old(self).hosts@),
                held(old(self).padded),
                said(focused),
                state.report@,
            ),
            final(self).hosts == old(self).hosts,
            final(self).microphone == old(self).microphone,
            final(self).pairing == old(self).pairing,
    {
        let ghost all = names(self.hosts@);
        let ghost was = held(self.padded);
        let mut out: Vec<(usize, Pad)> = Vec::new();
        assert(sent(out@) =~= Seq::empty());
        let mut now: Option<String> = None;
        let mut now_at: usize = 0;
        if let Some(id) = focused {
            if let Some(at) = self.owner(id) {
                now = Some(owned(id));
                now_at = at;
            }
        }
        let mut unchanged = false;
        match (&self.padded, &now) {
            (Some((held_id, _)), Some(id)) => {
                unchanged = same_text(held_id.as_str(), id.as_str());
            },
            (None, None) => {
                unchanged = true;
            },
            _ => {},
        }
        assert(unchanged == (had(was) == holder(all, said(focused))));
        if !unchanged {
            // Whoever had it, let go.
            if let Some((held_id, _)) = &self.padded {
                if let Some(at) = self.owner(held_id.as_str()) {
                    out.push((at, Pad::at_rest()));
                    assert(out@[0].1.report@ =~= Seq::empty());
                }
            }
            self.padded = match &now {
                Some(id) => Some((id.clone(), Pad::at_rest())),
                None => None,
            };
            assert(self.padded matches Some((_, pad)) ==> pad.report@ =~= Seq::empty());
        }
        assert(held(self.padded) == handed(all, was, said(focused)));
        assert(sent(out@) =~= let_go(all, was, said(focused)));
        if let Some(id) = now {
            let already = match &self.padded {
                Some((_, last)) => last.says(state),
                None => false,
            };
            if !already {
                let ghost so_far = sent(out@);
                out.push((now_at, state.copy()));
                assert(sent(out@) =~= so_far.push((now_at as int, state.report@)));
            }
            self.padded = Some((id, state.copy()));
        }
        out
    }

    /// What a game on any host has asked the motors to do since the last look: the first host's
    /// that has asked for anything.
    pub fn rumble(&mut self) -> (out: Option<(u16, u16)>)
        ensures
            final(self).hosts@.len() == old(self).hosts@.len(),
            out is None ==> final(self).hosts == old(self).hosts && forall|i: int|
                0 <= i < old(self).hosts@.len() ==> (#[trigger] old(self).hosts@[i]).view.rumble is None,
            out is Some ==> exists|at: int| #[trigger]
                is_first_rumble(old(self).hosts@, at) && old(self).hosts@[at].view.rumble == out
                    && final(self).hosts@ == old(self).hosts@.update(
                    at,
                    (Remote {
                        view: HostView { rumble: None, ..old(self).hosts@[at].view },
                        ..old(self).hosts@[at]
                    }),
                ),
            final(self).padded == old(self).padded,
            final(self).microphone == old(self).microphone,
            final(self).pairing == old(self).pairing,
    {
        let mut i: usize = 0;
        while i < self.hosts.len()
            invariant
                i <= self.hosts.len(),
                *self == *old(self),
                forall|k: int| 0 <= k < i ==> (#[trigger] self.hosts@[k]).view.rumble is None,
            decreases self.hosts.len() - i,
        {
            if self.hosts[i].view.rumble.is_some() {
                let ghost hosts = self.hosts@;
                let mut taken = self.hosts.remove(i);
                let out = taken.view.take_rumble();
                self.hosts.insert(i, taken);
                assert(is_first_rumble(hosts, i as int));
                assert(self.hosts@ =~= hosts.update(i as int, taken));
                return out;
            }
            i = i + 1;
        }
        None
    }

    /// Everything the hosts have said about the clipboard since the last look, each with the
    /// host that said it, in the order of the hosts and of what each said.
    pub fn clipboard_said(&mut self) -> (out: Vec<(String, Vec<u8>)>)
        ensures
            out@ == talk(old(self).hosts@),
            final(self).hosts@.len() == old(self).hosts@.len(),
            forall|k: int|
                0 <= k < old(self).hosts@.len() ==> is_quieted(
                    old(self).hosts@[k],
                    #[trigger] final(self).hosts@[k],
                ),
            final(self).padded == old(self).padded,
            final(self).microphone == old(self).microphone,
            final(self).pairing == old(self).pairing,
    {
        let mut out: Vec<(String, Vec<u8>)> = Vec::new();
        let ghost hosts = self.hosts@;
        let mut i: usize = 0;
        assert(hosts.take(0) =~= Seq::empty());
        while i < self.hosts.len()
            invariant
                i <= self.hosts.len(),
                self.hosts@.len() == hosts.len(),
                hosts == old(self).hosts@,
                self.padded == old(self).padded,
                self.microphone == old(self).microphone,
                self.pairing == old(self).pairing,
                out@ == talk(hosts.take(i as int)),
                forall|k: int| i <= k < hosts.len() ==> self.hosts@[k] == hosts[k],
                forall|k: int|
                    0 <= k < i ==> is_quieted(hosts[k], #[trigger] self.hosts@[k]),
            decreases self.hosts.len() - i,
        {
            let ghost current = self.hosts@;
            let mut taken = self.hosts.remove(i);
            let mut what = taken.view.take_clipboard();
            let total: usize = what.len();
            let ghost all = what@;
            let ghost before = out@;
            let host = taken.host.clone();
            self.hosts.insert(i, taken);
            assert(self.hosts@ =~= current.update(i as int, taken));
            assert(hosts.take(i + 1).drop_last() =~= hosts.take(i as int));
            assert(before + told(host, all.take(0)) =~= before);
            let mut n: usize = 0;
            while what.len() > 0
                invariant
                    n + what@.len() == all.len(),
                    what@ == all.skip(n as int),
                    out@ == before + told(host, all.take(n as int)),
                    all.len() == total,
                decreases what.len(),
            {
                let piece = what.remove(0);
                assert(what@ =~= all.skip(n + 1));
                out.push((host.clone(), piece));
                assert(before + told(host, all.take(n + 1)) =~= (before + told(
                    host,
                    all.take(n as int),
                )).push((host, piece)));
                n = n + 1;
            }
            assert(all.take(n as int) =~= all);
            i = i + 1;
        }
        assert(hosts.take(i as int) =~= hosts);
        out
    }

    /// Whether a host is told what the session's clipboard has to say.
    pub open spec fn hears(say: Say, names: Seq<Seq<char>>, at: int) -> bool {
        match say {
            Say::Everyone { except } => except is None || except->0@ != names[at],
            Say::Just { host } => at == index_of(names, host@),
        }
    }

    /// The hosts that are told what the session's clipboard has to say, in order.
    pub fn clipboard_say(&self, say: &Say) -> (out: Vec<usize>)
        ensures
            forall|k: int|
                0 <= k < out@.len() ==> (#[trigger] out@[k]) < self.hosts@.len() && Self::hears(
                    *say,
                    names(self.hosts@),
                    out@[k] as int,
                ),
            forall|k: int, l: int| 0 <= k < l < out@.len() ==> out@[k] < out@[l],
            forall|at: int|
                0 <= at < self.hosts@.len() && Self::hears(*say, names(self.hosts@), at)
                    ==> #[trigger] out@.contains(at as usize),
    {
        let ghost all = names(self.hosts@);
        let mut out: Vec<usize> = Vec::new();
        match say {
            Say::Everyone { except } => {
                let mut i: usize = 0;
                while i < self.hosts.len()
                    invariant
                        i <= self.hosts.len(),
                        all == names(self.hosts@),
                        *say == (Say::Everyone { except: *except }),
                        forall|k: int|
                            0 <= k < out@.len() ==> (#[trigger] out@[k]) < i && Self::hears(
                                *say,
                                all,
                                out@[k] as int,
                            ),
                        forall|k: int, l: int| 0 <= k < l < out@.len() ==> out@[k] < out@[l],
                        forall|at: int|
                            0 <= at < i && Self::hears(*say, all, at)
                                ==> #[trigger] out@.contains(at as usize),
                    decreases self.hosts.len() - i,
                {
                    let skip = match except {
                        Some(host) => same_text(host.as_str(), self.hosts[i].host.as_str()),
                        None => false,
                    };
                    let ghost before = out@;
                    if !skip {
                        out.push(i);
                        assert(out@[out@.len() - 1] == i);
                    }
                    assert forall|at: int|
                        0 <= at < i + 1 && Self::hears(
                            *say,
                            all,
                            at,
                        ) implies #[trigger] out@.contains(at as usize) by {
                        if at < i {
                            assert(before.contains(at as usize));
                            let k = choose|k: int|
                                0 <= k < before.len() && before[k] == at as usize;
                            assert(out@[k] == at as usize);
                        } else {
                            assert(out@[out@.len() - 1] == at as usize);
                        }
                    }
                    i = i + 1;
                }
            },
            Say::Just { host } => {
                if let Some(at) = self.find(host.as_str()) {
                    out.push(at);
                    assert(out@[0] == at);
                    assert(out@.contains(at));
                }
            },
        }
        out
    }

    /// Which hosts are no longer connected, so the board can drop what they were holding.
    pub fn offline(&self) -> (out: Vec<String>)
        ensures
            out@ == unreachable_hosts(self.hosts@),
    {
        let mut out: Vec<String> = Vec::new();
        let ghost hosts = self.hosts@;
        let mut i: usize = 0;
        assert(hosts.take(0) =~= Seq::empty());
        while i < self.hosts.len()
            invariant
                i <= self.hosts.len(),
                hosts == self.hosts@,
                out@ == unreachable_hosts(hosts.take(i as int)),
            decreases self.hosts.len() - i,
        {
            assert(hosts.take(i + 1).drop_last() =~= hosts.take(i as int));
            let online = match &self.hosts[i].view.link {
                Link::Online => true,
                _ => false,
            };
            if !online {
                out.push(self.hosts[i].host.clone());
            }
            i = i + 1;
        }
        assert(hosts.take(i as int) =~= hosts);
        out
    }

    /// Stop knowing a host.
    pub fn forget(&mut self, address: &str)
        ensures
            final(self).hosts@ == others(old(self).hosts@, address@),
            final(self).padded == old(self).padded,
            final(self).microphone == old(self).microphone,
            final(self).pairing == old(self).pairing,
    {
        let ghost hosts = self.hosts@;
        let mut kept: Vec<Remote> = Vec::new();
        let total: usize = self.hosts.len();
        let mut n: usize = 0;
        assert(hosts.take(0) =~= Seq::empty());
        while self.hosts.len() > 0
            invariant
                n + self.hosts@.len() == hosts.len(),
                hosts.len() == total,
                self.hosts@ == hosts.skip(n as int),
                kept@ == others(hosts.take(n as int), address@),
                self.padded == old(self).padded,
                self.microphone == old(self).microphone,
                self.pairing == old(self).pairing,
            decreases self.hosts.len(),
        {
            let remote = self.hosts.remove(0);
            assert(self.hosts@ =~= hosts.skip(n + 1));
            assert(hosts.take(n + 1).drop_last() =~= hosts.take(n as int));
            if !same_text(remote.host.as_str(), address) {
                kept.push(remote);
            }
            n = n + 1;
        }
        assert(hosts.take(n as int) =~= hosts);
        self.hosts = kept;
    }

    /// The settings page's rows and the launcher's tabs, in the order the hosts were paired.
    pub fn describe(&self, paired: &Vec<RemoteHost>) -> (out: (Vec<HostRow>, Vec<HostTab>))
        ensures
            out.0@.len() == paired@.len(),
            out.1@.len() == paired@.len(),
            forall|i: int|
                0 <= i < paired@.len() ==> {
                    let address = (#[trigger] paired@[i]).host@;
                    &&& out.0@[i].label@ == label_of(self.hosts@, address)
                    &&& out.0@[i].address@ == address
                    &&& out.0@[i].status == standing(self.hosts@, address)
                    &&& out.1@[i].label@ == label_of(self.hosts@, address)
                    &&& out.1@[i].address@ == address
                    &&& out.1@[i].online == (standing(self.hosts@, address) == HostStatus::Online)
                    &&& out.1@[i].apps@ == offered(self.hosts@, address)
                },
    {
        let mut rows: Vec<HostRow> = Vec::new();
        let mut tabs: Vec<HostTab> = Vec::new();
        let mut i: usize = 0;
        while i < paired.len()
            invariant
                i <= paired.len(),
                rows@.len() == i,
                tabs@.len() == i,
                forall|k: int|
                    0 <= k < i ==> {
                        let address = (#[trigger] paired@[k]).host@;
                        &&& rows@[k].label@ == label_of(self.hosts@, address)
                        &&& rows@[k].address@ == address
                        &&& rows@[k].status == standing(self.hosts@, address)
                        &&& tabs@[k].label@ == label_of(self.hosts@, address)
                        &&& tabs@[k].address@ == address
                        &&& tabs@[k].online == (standing(self.hosts@, address)
                            == HostStatus::Online)
                        &&& tabs@[k].apps@ == offered(self.hosts@, address)
                    },
            decreases paired.len() - i,
        {
            let address = &paired[i].host;
            let mut label = address.clone();
            let mut status = HostStatus::Connecting;
            let mut apps: Vec<RemoteApp> = Vec::new();
            assert(apps@ =~= Seq::empty());
            if let Some(at) = self.find(address.as_str()) {
                let view = &self.hosts[at].view;
                if let Some(name) = &view.name {
                    label = name.clone();
                }
                status = match &view.link {
                    Link::Online => HostStatus::Online,
                    Link::Connecting => HostStatus::Connecting,
                    Link::Offline(_) => HostStatus::Offline,
                    Link::Refused(_) => HostStatus::Refused,
                };
                let mut k: usize = 0;
                while k < view.apps.len()
                    invariant
                        k <= view.apps.len(),
                        apps@ == view.apps@.take(k as int),
                    decreases view.apps.len() - k,
                {
                    apps.push(view.apps[k].copy());
                    assert(view.apps@.take(k + 1) =~= view.apps@.take(k as int).push(
                        view.apps@[k as int],
                    ));
                    k = k + 1;
                }
                assert(view.apps@.take(k as int) =~= view.apps@);
            }
            rows.push(HostRow { label: label.clone(), address: address.clone(), status });
            let online = status == HostStatus::Online;
            tabs.push(HostTab { label, address: address.clone(), online, apps });
            i = i + 1;
        }
        (rows, tabs)
    }

    /// How many hosts are being watched.
    pub fn len(&self) -> (out: usize)
        ensures
            out == self.hosts@.len(),
    {
        self.hosts.len()
    }

    /// Begin a pairing, in place of any other.
    pub fn pair(&mut self, address: String)
        ensures
            final(self).pairing matches Some(p) && p.address == address && !p.confirmed
                && p.finished is None,
            final(self).hosts == old(self).hosts,
            final(self).padded == old(self).padded,
            final(self).microphone == old(self).microphone,
    {
        self.pairing = Some(PairingInProgress::new(address));
    }

    /// The wearer says the codes match.
    pub fn confirm(&mut self)
        ensures
            match old(self).pairing {
                Some(p) => final(self).pairing matches Some(q) && q.confirmed && q.address
                    == p.address && q.finished == p.finished,
                None => final(self).pairing is None,
            },
            final(self).hosts == old(self).hosts,
            final(self).padded == old(self).padded,
            final(self).microphone == old(self).microphone,
    {
        if let Some(mut p) = self.pairing.take() {
            p.confirm();
            self.pairing = Some(p);
        }
    }

    /// Stop pairing. Returns whether there was anything to stop.
    pub fn cancel(&mut self) -> (out: bool)
        ensures
            out == old(self).pairing is Some,
            final(self).pairing is None,
            final(self).hosts == old(self).hosts,
            final(self).padded == old(self).padded,
            final(self).microphone == old(self).microphone,
    {
        self.pairing.take().is_some()
    }

    /// Finish a pairing that both ends agreed to. Returns the host to start, which has been
    /// written down in the preferences.
    ///
    /// Pairing again with a host already known replaces it, which is what pairing again after
    /// the host forgot this headset needs.
    pub fn settle_pairing(&mut self, state: &State, paired: &mut Vec<RemoteHost>) -> (out: Option<
        String,
    >)
        ensures
            final(self).padded == old(self).padded,
            final(self).microphone == old(self).microphone,
            out is Some <==> (old(self).pairing matches Some(p) && p.agreed(*state)),
            old(self).pairing is None ==> final(self).pairing is None,
            old(self).pairing matches Some(p) ==> (final(self).pairing matches Some(q) && q.address
                == p.address && q.confirmed == p.confirmed && (out is None ==> q.finished == (
            match (p.finished, state.outcome) {
                (None, Some(Err(e))) => Some(Err::<String, String>(e)),
                _ => p.finished,
            }))),
            out is None ==> final(self).hosts == old(self).hosts && final(paired)@ == old(
                paired,
            )@,
            out matches Some(address) ==> {
                &&& address == old(self).pairing->0.address
                &&& final(self).hosts@ == others(old(self).hosts@, address@)
                &&& final(paired)@.len() > 0
                &&& final(paired)@.drop_last() == other_entries(old(paired)@, address@)
                &&& final(paired)@.last().host == address
                &&& final(paired)@.last().fingerprint == state.outcome->0->Ok_0.fingerprint
                &&& final(paired)@.last().launch@.len() == 0
                &&& final(self).pairing matches Some(q) && q.finished == Some(
                    Ok::<String, String>(state.outcome->0->Ok_0.name),
                )
            },
    {
        let mut p = match self.pairing.take() {
            Some(p) => p,
            None => {
                return None;
            },
        };
        let agreed = p.settle(state);
        let address = p.address.clone();
        self.pairing = Some(p);
        match agreed {
            Some(found) => {
                self.forget(address.as_str());
                forget_entry(paired, address.as_str());
                let ghost kept = paired@;
                paired.push(
                    RemoteHost {
                        host: address.clone(),
                        fingerprint: found.fingerprint,
                        launch: Vec::new(),
                    },
                );
                assert(paired@.drop_last() =~= kept);
                Some(address)
            },
            None => None,
        }
    }

    /// What the settings page shows of a pairing, if there is one.
    pub fn pairing_view(&self, state: &State) -> (out: Option<PairingView>)
        ensures
            match self.pairing {
                Some(p) => out matches Some(view) && view.address == p.address && view.code
                    == state.code && view.status@ == p.status(*state) && view.host_accepted == (
                state.outcome matches Some(Ok(_))) && view.finished == p.finished is Some
                    && view.succeeded == (p.finished matches Some(Ok(_))),
                None => out is None,
            },
    {
        match &self.pairing {
            Some(p) => Some(p.view(state)),
            None => None,
        }
    }
}

proof fn lemma_found(names: Seq<Seq<char>>, wanted: spec_fn(Seq<char>) -> bool)
    ensures
        first_where(names, wanted) <= names.len(),
        first_where(names, wanted) < names.len() ==> wanted(
            names[first_where(names, wanted) as int],
        ),
    decreases names.len(),
{
    if names.len() > 0 && !wanted(names[0]) {
        lemma_found(names.skip(1), wanted);
    }
}

/// Whether a host is the first that has asked for rumble.
pub open spec fn is_first_rumble(hosts: Seq<Remote>, at: int) -> bool {
    &&& 0 <= at < hosts.len()
    &&& hosts[at].view.rumble is Some
    &&& forall|k: int| 0 <= k < at ==> (#[trigger] hosts[k]).view.rumble is None
}

/// What one host said, each piece with its name.
pub open spec fn told(host: String, what: Seq<Vec<u8>>) -> Seq<(String, Vec<u8>)> {
    Seq::new(what.len(), |i: int| (host, what[i]))
}

/// What every host said.
pub open spec fn talk(hosts: Seq<Remote>) -> Seq<(String, Vec<u8>)>
    decreases hosts.len(),
{
    if hosts.len() == 0 {
        Seq::empty()
    } else {
        talk(hosts.drop_last()) + told(hosts.last().host, hosts.last().view.clipboard@)
    }
}

/// Whether a host is as it was, but with nothing left to say about the clipboard.
pub open spec fn is_quieted(was: Remote, now: Remote) -> bool {
    &&& now.host == was.host
    &&& now.view.clipboard@.len() == 0
    &&& now.view.name == was.view.name
    &&& now.view.link == was.view.link
    &&& now.view.apps == was.view.apps
    &&& now.view.rumble == was.view.rumble
}

/// The names of the hosts that are not online.
pub open spec fn unreachable_hosts(hosts: Seq<Remote>) -> Seq<String>
    decreases hosts.len(),
{
    if hosts.len() == 0 {
        Seq::empty()
    } else if hosts.last().view.link == Link::Online {
        unreachable_hosts(hosts.drop_last())
    } else {
        unreachable_hosts(hosts.drop_last()).push(hosts.last().host)
    }
}

/// The hosts that are not at this address.
pub open spec fn others(hosts: Seq<Remote>, address: Seq<char>) -> Seq<Remote>
    decreases hosts.len(),
{
    if hosts.len() == 0 {
        Seq::empty()
    } else if hosts.last().host@ == address {
        others(hosts.drop_last(), address)
    } else {
        others(hosts.drop_last(), address).push(hosts.last())
    }
}

/// The entries that are not at this address.
pub open spec fn other_entries(entries: Seq<RemoteHost>, address: Seq<char>) -> Seq<RemoteHost>
    decreases entries.len(),
{
    if entries.len() == 0 {
        Seq::empty()
    } else if entries.last().host@ == address {
        other_entries(entries.drop_last(), address)
    } else {
        other_entries(entries.drop_last(), address).push(entries.last())
    }
}

/// Take a host out of the preferences.
pub fn forget_entry(entries: &mut Vec<RemoteHost>, address: &str)
    ensures
        final(entries)@ == other_entries(old(entries)@, address@),
{
    let ghost all = entries@;
    let mut kept: Vec<RemoteHost> = Vec::new();
    let total: usize = entries.len();
    let mut n: usize = 0;
    assert(all.take(0) =~= Seq::empty());
    while entries.len() > 0
        invariant
            n + entries@.len() == all.len(),
            all.len() == total,
            entries@ == all.skip(n as int),
            kept@ == other_entries(all.take(n as int), address@),
        decreases entries.len(),
    {
        let entry = entries.remove(0);
        assert(entries@ =~= all.skip(n + 1));
        assert(all.take(n + 1).drop_last() =~= all.take(n as int));
        if !same_text(entry.host.as_str(), address) {
            kept.push(entry);
        }
        n = n + 1;
    }
    assert(all.take(n as int) =~= all);
    std::mem::swap(entries, &mut kept);
}

/// A host that has been forgotten is not known any more, under any of its rows.
pub proof fn a_forgotten_host_is_gone(hosts: Seq<Remote>, address: Seq<char>)
    ensures
        forall|i: int|
            0 <= i < others(hosts, address).len() ==> (#[trigger] others(
                hosts,
                address,
            )[i]).host@ != address,
        index_of(names(others(hosts, address)), address) == others(hosts, address).len(),
    decreases hosts.len(),
{
    if hosts.len() > 0 {
        a_forgotten_host_is_gone(hosts.drop_last(), address);
    }
    let left = others(hosts, address);
    assert forall|i: int| 0 <= i < left.len() implies (#[trigger] left[i]).host@ != address by {
        if hosts.len() > 0 {
            let fewer = others(hosts.drop_last(), address);
            if i < fewer.len() {
                assert(left[i] == fewer[i]);
            }
        }
    }
    let wanted = is_host(address);
    assert forall|i: int| 0 <= i < left.len() implies !wanted(#[trigger] names(left)[i]) by {
        assert(left[i].host@ != address);
    }
    lemma_first_where(names(left), wanted, left.len());
}

/// Forgetting a host leaves every other, in order, and leaves the entries of every other in the
/// preferences; and those that cannot be reached are, in order, those that are not online.
pub proof fn the_rest_stay_in_order(
    hosts: Seq<Remote>,
    entries: Seq<RemoteHost>,
    address: Seq<char>,
)
    ensures
        others(hosts, address) == hosts.filter(|r: Remote| r.host@ != address),
        other_entries(entries, address) == entries.filter(|e: RemoteHost| e.host@ != address),
        unreachable_hosts(hosts) == hosts.filter(|r: Remote| !(r.view.link is Online)).map_values(
            |r: Remote| r.host,
        ),
    decreases hosts.len() + entries.len(),
{
    reveal(Seq::filter);
    let name = |r: Remote| r.host;
    let offline = |r: Remote| !(r.view.link is Online);
    if hosts.len() > 0 {
        the_rest_stay_in_order(hosts.drop_last(), entries, address);
        let before = hosts.drop_last().filter(offline);
        assert(before.push(hosts.last()).map_values(name) =~= before.map_values(name).push(
            hosts.last().host,
        ));
    } else {
        assert(hosts.filter(offline).map_values(name) =~= Seq::empty());
    }
    if entries.len() > 0 {
        the_rest_stay_in_order(hosts, entries.drop_last(), address);
    }
}

/// Nothing that is said is lost, and each host speaks under its own name: what the hosts said is
/// what the earlier ones said, and after it what the last one said, piece by piece.
pub proof fn every_piece_is_passed_on(hosts: Seq<Remote>, last: Remote)
    ensures
        ({
            let before = talk(hosts);
            let all = talk(hosts.push(last));
            &&& all.len() == before.len() + last.view.clipboard@.len()
            &&& all.take(before.len() as int) == before
            &&& forall|i: int|
                0 <= i < last.view.clipboard@.len() ==> all[before.len() + i] == (
                    last.host,
                    #[trigger] last.view.clipboard@[i],
                )
            &&& talk(Seq::empty()).len() == 0
        }),
{
    assert(hosts.push(last).drop_last() =~= hosts);
    assert(talk(hosts.push(last)).take(talk(hosts).len() as int) =~= talk(hosts));
}

/// A word to everyone reaches every host but those of the name it leaves out, and a word to one
/// host reaches one of that name and no other.
pub proof fn a_word_reaches_whom_it_is_for(
    names: Seq<Seq<char>>,
    except: Option<String>,
    host: String,
    at: int,
    other: int,
)
    requires
        0 <= at < names.len(),
        0 <= other < names.len(),
    ensures
        except is None ==> Remotes::hears(Say::Everyone { except }, names, at),
        except matches Some(left_out) ==> (Remotes::hears(Say::Everyone { except }, names, at) <==> names[at]
            != left_out@),
        Remotes::hears(Say::Just { host }, names, at) ==> names[at] == host@,
        Remotes::hears(Say::Just { host }, names, at) && Remotes::hears(
            Say::Just { host },
            names,
            other,
        ) ==> at == other,
        names[at] == host@ && (forall|i: int| 0 <= i < at ==> (#[trigger] names[i]) != host@)
            ==> Remotes::hears(Say::Just { host }, names, at),
{
    lemma_found(names, is_host(host@));
    if names[at] == host@ && (forall|i: int| 0 <= i < at ==> (#[trigger] names[i]) != host@) {
        lemma_first_where(names, is_host(host@), at as nat);
    }
}

/// What a row says.
pub open spec fn row_says(row: HostRow) -> (Seq<char>, Seq<char>, HostStatus) {
    (row.label@, row.address@, row.status)
}

/// What an application says of itself.
pub open spec fn app_says(app: RemoteApp) -> (Seq<char>, Seq<char>, Option<Seq<char>>) {
    (
        app.id@,
        app.name@,
        match app.icon {
            Some(icon) => Some(icon@),
            None => None,
        },
    )
}

/// What a tab says.
pub open spec fn tab_says(tab: HostTab) -> (
    Seq<char>,
    Seq<char>,
    bool,
    Seq<(Seq<char>, Seq<char>, Option<Seq<char>>)>,
) {
    (
        tab.label@,
        tab.address@,
        tab.online,
        Seq::new(tab.apps@.len(), |i: int| app_says(tab.apps@[i])),
    )
}

/// What some rows say.
pub open spec fn rows_say(rows: Seq<HostRow>) -> Seq<(Seq<char>, Seq<char>, HostStatus)> {
    Seq::new(rows.len(), |i: int| row_says(rows[i]))
}

/// What some tabs say.
pub open spec fn tabs_say(tabs: Seq<HostTab>) -> Seq<
    (Seq<char>, Seq<char>, bool, Seq<(Seq<char>, Seq<char>, Option<Seq<char>>)>),
> {
    Seq::new(tabs.len(), |i: int| tab_says(tabs[i]))
}

fn same_app(a: &RemoteApp, b: &RemoteApp) -> (out: bool)
    ensures
        out == (app_says(*a) == app_says(*b)),
{
    if !same_text(a.id.as_str(), b.id.as_str()) || !same_text(a.name.as_str(), b.name.as_str()) {
        return false;
    }
    match (&a.icon, &b.icon) {
        (Some(x), Some(y)) => same_text(x.as_str(), y.as_str()),
        (None, None) => true,
        _ => false,
    }
}

fn same_tab(a: &HostTab, b: &HostTab) -> (out: bool)
    ensures
        out == (tab_says(*a) == tab_says(*b)),
{
    if a.apps.len() != b.apps.len() {
        assert(tab_says(*a).3.len() != tab_says(*b).3.len());
        return false;
    }
    let mut i: usize = 0;
    while i < a.apps.len()
        invariant
            i <= a.apps.len(),
            a.apps.len() == b.apps.len(),
            forall|k: int|
                0 <= k < i ==> app_says(#[trigger] a.apps@[k]) == app_says(b.apps@[k]),
        decreases a.apps.len() - i,
    {
        if !same_app(&a.apps[i], &b.apps[i]) {
            assert(tab_says(*a).3[i as int] != tab_says(*b).3[i as int]);
            return false;
        }
        i = i + 1;
    }
    assert(tab_says(*a).3 =~= tab_says(*b).3);
    a.online == b.online && same_text(a.label.as_str(), b.label.as_str()) && same_text(
        a.address.as_str(),
        b.address.as_str(),
    )
}

fn same_rows(a: &Vec<HostRow>, b: &Vec<HostRow>) -> (out: bool)
    ensures
        out == (rows_say(a@) == rows_say(b@)),
{
    if a.len() != b.len() {
        assert(rows_say(a@).len() != rows_say(b@).len());
        return false;
    }
    let mut i: usize = 0;
    while i < a.len()
        invariant
            i <= a.len(),
            a.len() == b.len(),
            forall|k: int| 0 <= k < i ==> row_says(#[trigger] a@[k]) == row_says(b@[k]),
        decreases a.len() - i,
    {
        if a[i].status != b[i].status || !same_text(a[i].label.as_str(), b[i].label.as_str())
            || !same_text(a[i].address.as_str(), b[i].address.as_str()) {
            assert(rows_say(a@)[i as int] != rows_say(b@)[i as int]);
            return false;
        }
        i = i + 1;
    }
    assert(rows_say(a@) =~= rows_say(b@));
    true
}

fn same_tabs(a: &Vec<HostTab>, b: &Vec<HostTab>) -> (out: bool)
    ensures
        out == (tabs_say(a@) == tabs_say(b@)),
{
    if a.len() != b.len() {
        assert(tabs_say(a@).len() != tabs_say(b@).len());
        return false;
    }
    let mut i: usize = 0;
    while i < a.len()
        invariant
            i <= a.len(),
            a.len() == b.len(),
            forall|k: int| 0 <= k < i ==> tab_says(#[trigger] a@[k]) == tab_says(b@[k]),
        decreases a.len() - i,
    {
        if !same_tab(&a[i], &b[i]) {
            assert(tabs_say(a@)[i as int] != tabs_say(b@)[i as int]);
            return false;
        }
        i = i + 1;
    }
    assert(tabs_say(a@) =~= tabs_say(b@));
    true
}

/// What the shell was last given, so it is only given something when it changed.
#[derive(Debug)]
pub struct Shown {
    pub pages: Option<(Vec<HostRow>, Vec<HostTab>)>,
    pub pairing: Option<PairingView>,
}

impl Shown {
    /// Whether these pages differ from what the shell was last given.
    pub fn differs(&self, rows: &Vec<HostRow>, tabs: &Vec<HostTab>) -> (out: bool)
        ensures
            out == (match self.pages {
                Some((r, t)) => rows_say(r@) != rows_say(rows@) || tabs_say(t@) != tabs_say(tabs@),
                None => true,
            }),
    {
        match &self.pages {
            Some((r, t)) => !same_rows(r, rows) || !same_tabs(t, tabs),
            None => true,
        }
    }

    /// These pages have been given to the shell.
    pub fn pages_given(&mut self, rows: Vec<HostRow>, tabs: Vec<HostTab>)
        ensures
            final(self).pages == Some((rows, tabs)),
            final(self).pairing == old(self).pairing,
    {
        self.pages = Some((rows, tabs));
    }

    /// Whether a pairing is to be shown that the shell was not last given. With no pairing there is
    /// nothing to show, and what was shown last stays.
    pub fn pairing_differs(&self, view: &Option<PairingView>) -> (out: bool)
        ensures
            out == (match *view {
                Some(view) => pairing_shown(self.pairing) != Some(pairing_says(view)),
                None => false,
            }),
    {
        match (view, &self.pairing) {
            (Some(view), Some(shown)) => !same_pairing(view, shown),
            (Some(_), None) => true,
            (None, _) => false,
        }
    }

    /// This pairing has been given to the shell.
    pub fn pairing_given(&mut self, view: PairingView)
        ensures
            final(self).pairing == Some(view),
            final(self).pages == old(self).pages,
    {
        self.pairing = Some(view);
    }
}

/// What a pairing says on the page.
pub open spec fn pairing_says(view: PairingView) -> (
    Seq<char>,
    Option<Seq<char>>,
    Seq<char>,
    bool,
    bool,
    bool,
) {
    (
        view.address@,
        match view.code {
            Some(code) => Some(code@),
            None => None,
        },
        view.status@,
        view.host_accepted,
        view.finished,
        view.succeeded,
    )
}

/// What was last shown of a pairing.
pub open spec fn pairing_shown(view: Option<PairingView>) -> Option<
    (Seq<char>, Option<Seq<char>>, Seq<char>, bool, bool, bool),
> {
    match view {
        Some(view) => Some(pairing_says(view)),
        None => None,
    }
}

fn same_pairing(a: &PairingView, b: &PairingView) -> (out: bool)
    ensures
        out == (pairing_says(*a) == pairing_says(*b)),
{
    let codes: bool = match (&a.code, &b.code) {
        (Some(x), Some(y)) => same_text(x.as_str(), y.as_str()),
        (None, None) => true,
        _ => false,
    };
    codes && same_text(a.address.as_str(), b.address.as_str()) && same_text(
        a.status.as_str(),
        b.status.as_str(),
    ) && a.host_accepted == b.host_accepted && a.finished == b.finished && a.succeeded
        == b.succeeded
}

} // verus!
