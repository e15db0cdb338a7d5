//! One host: what it says, what is said to it, and when to try it again.
//!
//! The loop round this is deliberately plain. It polls the network, decodes whatever arrived, and
//! hands the pictures to surfaces; nothing in it waits for anything else. Each turn of it asks
//! here what a thing that happened means, and does what the answer says.

use vstd::prelude::*;
use crate::remote::client::Input;
use crate::remote::hosts::{HostView, Link, Pad, RemoteApp, RemoteHost};
use crate::remote::microphone::{Change, Microphone};
use crate::remote::stream::{Frame, Stream};
use crate::remote::{app_id, prefix_of};
use crate::table::{Table, has_key, key_at};
use crate::text::{chars, push_all, push_str, same, string, trim, trimmed};

verus! {

/// Which host to show, and how to reach it.
#[derive(Debug)]
pub struct Config {
    /// What to connect to: a name or address, with a port.
    pub host: String,
    /// The host's certificate.
    pub fingerprint: String,
    /// Where this session keeps its own identity, so a host only has to pair with it once.
    pub identity_dir: String,
    pub render_node: String,
    /// Started as soon as the link is up. Empty means "show whatever the host already has".
    pub launch: Vec<String>,
    /// Whether this session will send its microphone when a host asks for one.
    pub microphone: bool,
}

/// The node pictures are decoded on, unless the environment names another.
pub const RENDER_NODE: &'static str = "/dev/dri/renderD128";

/// How to reach a host that was paired with.
pub fn config_for(
    entry: &RemoteHost,
    microphone: bool,
    identity_dir: &str,
    render_node: Option<&str>,
) -> (out: Config)
    ensures
        out.host == entry.host,
        out.fingerprint == entry.fingerprint,
        out.identity_dir@ == identity_dir@,
        out.render_node@ == (match render_node {
            Some(node) => node@,
            None => RENDER_NODE@,
        }),
        out.launch@ == entry.launch@,
        out.microphone == microphone,
{
    let mut launch: Vec<String> = Vec::new();
    let mut i: usize = 0;
    while i < entry.launch.len()
        invariant
            i <= entry.launch.len(),
            launch@ == entry.launch@.take(i as int),
        decreases entry.launch.len() - i,
    {
        assert(entry.launch@.take(i + 1) =~= entry.launch@.take(i as int).push(
            entry.launch@[i as int],
        ));
        launch.push(entry.launch[i].clone());
        i = i + 1;
    }
    assert(entry.launch@.take(i as int) =~= entry.launch@);
    let node = match render_node {
        Some(node) => owned(node),
        None => owned(RENDER_NODE),
    };
    Config {
        host: entry.host.clone(),
        fingerprint: entry.fingerprint.clone(),
        identity_dir: owned(identity_dir),
        render_node: node,
        launch,
        microphone,
    }
}

fn owned(s: &str) -> (out: String)
    ensures
        out@ == s@,
{
    let cs = chars(s);
    string(cs.as_slice())
}

/// How often a window being dragged may tell the host its new size, in nanoseconds.
pub const RESIZE_EVERY: u64 = 150_000_000;

/// How long the compositor may go without a word, in nanoseconds, while there is nothing to
/// decode.
pub const WORK_EVERY: u64 = 4_000_000;

/// A way of compressing pictures.
#[derive(Debug, Clone, Copy, PartialEq, Eq, Structural)]
pub enum Codec {
    H265,
    H264,
}

/// Something asked of a host's thread.
#[derive(Debug)]
pub enum Command {
    Launch(String),
    /// Kill an application on the host, by catalogue id.
    ForceQuit(String),
    /// The whole state of the gamepad, for whatever is being played there.
    Pad(Pad),
    /// Something about the clipboard: what has been copied, a paste asking for bytes, or the
    /// bytes themselves.
    Clipboard(Vec<u8>),
}

/// Something said to a host.
#[derive(Debug)]
pub enum ClientMessage {
    Hello {
        version: u32,
        codecs: Vec<Codec>,
        max_size: (u32, u32),
        refresh_mhz: u32,
        session: String,
    },
    Launch { app: String },
    ForceQuit { app: String },
    Pad(Pad),
    Clipboard(Vec<u8>),
    WantKeyframe { window: u32 },
    Configure { window: u32, width: u32, height: u32 },
    Close { window: u32 },
    Input { window: u32, input: Input },
    Detach,
}

/// What a request made of a host's thread says to the host.
pub open spec fn asks_for(command: Command) -> ClientMessage {
    match command {
        Command::Launch(app) => ClientMessage::Launch { app },
        Command::ForceQuit(app) => ClientMessage::ForceQuit { app },
        Command::Pad(state) => ClientMessage::Pad(state),
        Command::Clipboard(what) => ClientMessage::Clipboard(what),
    }
}

/// What to say to the host about something that was asked for.
pub fn say(command: Command) -> (out: ClientMessage)
    ensures
        out == asks_for(command),
{
    match command {
        Command::Launch(app) => ClientMessage::Launch { app },
        Command::ForceQuit(app) => ClientMessage::ForceQuit { app },
        Command::Pad(state) => ClientMessage::Pad(state),
        Command::Clipboard(what) => ClientMessage::Clipboard(what),
    }
}

/// The application that cannot be reached, where one was asked for while its host is away: a
/// launch of an app on a host that is off can at least say why nothing happened.
pub fn unreachable_app(command: &Command) -> (out: Option<&String>)
    ensures
        match *command {
            Command::Launch(app) => out == Some(&app),
            Command::ForceQuit(app) => out == Some(&app),
            _ => out is None,
        },
{
    match command {
        Command::Launch(app) => Some(app),
        Command::ForceQuit(app) => Some(app),
        _ => None,
    }
}

/// What is said first on a new link: hello, and what to start.
pub fn opening(config: &Config, version: u32) -> (out: Vec<ClientMessage>)
    ensures
        out@.len() == config.launch@.len() + 1,
        out@[0] matches ClientMessage::Hello {
            version: v,
            codecs,
            max_size,
            refresh_mhz,
            session,
        } && v == version && codecs@ == seq![Codec::H265, Codec::H264] && max_size == (
            3840u32,
            2160u32,
        ) && refresh_mhz == 72_000 && session@ == "spatiand"@,
        forall|i: int|
            0 <= i < config.launch@.len() ==> #[trigger] out@[i + 1] == (ClientMessage::Launch {
                app: config.launch@[i],
            }),
{
    let mut codecs: Vec<Codec> = Vec::new();
    codecs.push(Codec::H265);
    codecs.push(Codec::H264);
    assert(codecs@ =~= seq![Codec::H265, Codec::H264]);
    let mut out: Vec<ClientMessage> = Vec::new();
    out.push(
        ClientMessage::Hello {
            version,
            codecs,
            max_size: (3840, 2160),
            refresh_mhz: 72_000,
            session: owned("spatiand"),
        },
    );
    let ghost hello = out@[0];
    let mut i: usize = 0;
    while i < config.launch.len()
        invariant
            i <= config.launch.len(),
            out@.len() == i + 1,
            out@[0] == hello,
            forall|k: int|
                0 <= k < i ==> #[trigger] out@[k + 1] == (ClientMessage::Launch {
                    app: config.launch@[k],
                }),
        decreases config.launch.len() - i,
    {
        let ghost before = out@;
        out.push(ClientMessage::Launch { app: config.launch[i].clone() });
        assert forall|k: int| 0 <= k < i + 1 implies #[trigger] out@[k + 1] == (
        ClientMessage::Launch { app: config.launch@[k] }) by {
            if k < i {
                assert(before[k + 1] == out@[k + 1]);
            }
        }
        i = i + 1;
    }
    out
}

/// What a message is sent as: how long it is, in four bytes with the lowest first, and itself.
pub open spec fn framed(bytes: Seq<u8>) -> Seq<u8> {
    seq![
        (bytes.len() % 256) as u8,
        (bytes.len() / 256 % 256) as u8,
        (bytes.len() / 65_536 % 256) as u8,
        (bytes.len() / 16_777_216 % 256) as u8,
    ] + bytes
}

/// Put its length in front of a message.
pub fn frame(bytes: &[u8]) -> (out: Vec<u8>)
    requires
        bytes@.len() <= u32::MAX,
    ensures
        out@ == framed(bytes@),
{
    let n: usize = bytes.len();
    let mut out: Vec<u8> = Vec::new();
    out.push((n % 256) as u8);
    out.push((n / 256 % 256) as u8);
    out.push((n / 65_536 % 256) as u8);
    out.push((n / 16_777_216 % 256) as u8);
    let ghost head = out@;
    let mut i: usize = 0;
    assert(head + bytes@.take(0) =~= head);
    while i < bytes.len()
        invariant
            i <= bytes.len(),
            out@ == head + bytes@.take(i as int),
        decreases bytes.len() - i,
    {
        assert(head + bytes@.take(i + 1) =~= (head + bytes@.take(i as int)).push(
            bytes@[i as int],
        ));
        out.push(bytes[i]);
        i = i + 1;
    }
    assert(bytes@.take(i as int) =~= bytes@);
    assert(out@ =~= framed(bytes@));
    out
}

/// A message's length can be read back off its front, and the message off what follows: whatever
/// else is sent down the same stream afterwards.
pub proof fn a_framed_message_reads_back(bytes: Seq<u8>, after: Seq<u8>)
    requires
        bytes.len() <= u32::MAX,
    ensures
        ({
            let wire = framed(bytes) + after;
            let length = wire[0] + 256 * wire[1] + 65_536 * wire[2] + 16_777_216 * wire[3];
            length == bytes.len() && wire.subrange(4, 4 + length) == bytes && wire.skip(4 + length)
                == after
        }),
{
    let wire = framed(bytes) + after;
    let n = bytes.len();
    assert(n == n % 256 + 256 * (n / 256 % 256) + 65_536 * (n / 65_536 % 256) + 16_777_216 * (n
        / 16_777_216 % 256));
    assert(wire.subrange(4, (4 + n) as int) =~= bytes);
    assert(wire.skip((4 + n) as int) =~= after);
}

/// What an application is called in what a host offers.
pub open spec fn offered_name(apps: Seq<RemoteApp>, app: Seq<char>) -> Option<Seq<char>>
    decreases apps.len(),
{
    if apps.len() == 0 {
        None
    } else if apps[0].id@ == app {
        Some(apps[0].name@)
    } else {
        offered_name(apps.skip(1), app)
    }
}

/// What a remote window's title bar says: what the application calls it, and which computer
/// it is on — a browser here and a browser there are otherwise indistinguishable.
pub open spec fn titled(view: HostView, app: Seq<char>, title: Seq<char>) -> Seq<char> {
    let what = if trimmed(title).len() > 0 {
        trimmed(title)
    } else {
        match offered_name(view.apps@, app) {
            Some(name) => name,
            None => app,
        }
    };
    match view.name {
        Some(host) => what + " — "@ + host@,
        None => what,
    }
}

/// What a remote window's title bar says.
pub fn window_title(view: &HostView, app: &str, title: &str) -> (out: String)
    ensures
        out@ == titled(*view, app@, title@),
{
    let wanted = chars(app);
    let all = chars(title);
    let given = trim(all.as_slice());
    let mut out: Vec<char> = Vec::new();
    if given.len() > 0 {
        push_all(&mut out, given);
        assert(out@ =~= trimmed(title@));
    } else {
        let ghost apps = view.apps@;
        let mut found = false;
        let mut i: usize = 0;
        assert(apps.skip(0) =~= apps);
        while i < view.apps.len() && !found
            invariant
                i <= view.apps.len(),
                apps == view.apps@,
                wanted@ == app@,
                !found ==> offered_name(apps, app@) == offered_name(apps.skip(i as int), app@),
                found ==> offered_name(apps, app@) == Some(out@),
                !found ==> out@.len() == 0,
            decreases view.apps.len() - i + (if found {
                0int
            } else {
                1
            }),
        {
            assert(apps.skip(i as int)[0] == apps[i as int]);
            assert(apps.skip(i as int).skip(1) =~= apps.skip(i + 1));
            let id = chars(view.apps[i].id.as_str());
            if same(id.as_slice(), wanted.as_slice()) {
                out = chars(view.apps[i].name.as_str());
                found = true;
            } else {
                i = i + 1;
            }
        }
        if !found {
            out = wanted;
        }
    }
    if let Some(host) = &view.name {
        push_str(&mut out, " — ");
        push_str(&mut out, host.as_str());
    }
    string(out.as_slice())
}

/// Something a host said.
#[derive(Debug)]
pub enum HostMessage {
    Welcome { host: String },
    Opened { window: u32, app: String, title: String },
    Retitled { window: u32, title: String },
    /// What it is sending for a window, and whether a decoder for it could be made.
    Stream { window: u32, decoder: bool },
    Clipboard(Vec<u8>),
    Rumble { strong: u16, weak: u16 },
    Microphone { wanted: bool },
    Closed { window: u32 },
    /// What it offers, with the icons it sent already kept.
    Catalog { apps: Vec<RemoteApp> },
    Refused { reason: String },
    Other,
}

/// What there is to do about something a host said.
#[derive(Debug)]
pub enum Effect {
    Nothing,
    Open { window: u32, app_id: String, title: String },
    Retitle { window: u32, title: String },
    Close { window: u32 },
    Microphone(Change),
    /// Something there is listening, but this session does not send its microphone.
    MicrophoneNotSent,
    /// The host answered and would not have this headset.
    Refused(String),
}

/// A frame's pieces, put together as far as they go.
#[derive(Debug)]
pub enum Arrival {
    Frame(Frame),
    Lost,
    /// More pieces are to come, or this one came too late.
    Unfinished,
}

/// One link to one host, from hello to whatever ends it.
pub struct Session {
    pub streams: Table<Stream>,
    /// Which application each window is.
    pub apps: Table<String>,
    /// When each window's size was last told.
    pub resize_sent: Table<u64>,
    /// Sizes that have not been told yet.
    pub resize_pending: Table<(u32, u32)>,
    /// Sent only while the host says something there is listening, and never if the wearer has
    /// said no.
    pub microphone: Microphone,
    /// When the compositor last had a word.
    pub worked: u64,
}

impl Session {
    /// Every table has each window once, and no stream has anything waiting that cannot be
    /// decoded.
    pub open spec fn wf(self) -> bool {
        &&& self.streams.wf()
        &&& self.apps.wf()
        &&& self.resize_sent.wf()
        &&& self.resize_pending.wf()
        &&& forall|id: u32|
            self.streams.map().contains_key(id) ==> (#[trigger] self.streams.map()[id]).wf()
    }

    pub fn new(now: u64) -> (out: Session)
        ensures
            out.wf(),
            out.streams.map() == Map::<u32, Stream>::empty(),
            out.apps.map() == Map::<u32, String>::empty(),
            out.resize_sent.map() == Map::<u32, u64>::empty(),
            out.resize_pending.map() == Map::<u32, (u32, u32)>::empty(),
            !out.microphone.sending,
            out.worked == now,
    {
        Session {
            streams: Table::new(),
            apps: Table::new(),
            resize_sent: Table::new(),
            resize_pending: Table::new(),
            microphone: Microphone { sending: false },
            worked: now,
        }
    }

    /// Whether nothing but what a message is about has changed.
    pub open spec fn keeps_resizes(self, was: Session) -> bool {
        &&& self.resize_sent == was.resize_sent
        &&& self.resize_pending == was.resize_pending
        &&& self.worked == was.worked
    }

    /// The host said something.
    ///
    /// What it says of itself goes into what the settings page and the launcher read; what it
    /// says of a window is done to that window.
    pub fn hear(&mut self, view: &mut HostView, config: &Config, message: HostMessage) -> (out:
        Effect)
        requires
            old(self).wf(),
            old(view).wf(),
        ensures
            final(self).wf(),
            final(view).wf(),
            final(self).keeps_resizes(*old(self)),
            // Only these four say anything about what is shown of the host.
            !(message is Welcome || message is Clipboard || message is Rumble || message is Catalog)
                ==> *final(view) == *old(view),
            // And only these about the windows.
            !(message is Stream || message is Closed) ==> final(self).streams == old(
                self,
            ).streams,
            !(message is Opened) ==> final(self).apps == old(self).apps,
            !(message is Microphone) ==> final(self).microphone == old(self).microphone,
            match message {
                HostMessage::Welcome { host } => {
                    &&& out is Nothing
                    &&& final(view).name == Some(host)
                    &&& final(view).link == Link::Online
                    &&& final(view).apps == old(view).apps
                    &&& final(view).rumble == old(view).rumble
                    &&& final(view).clipboard == old(view).clipboard
                },
                HostMessage::Opened { window, app, title } => {
                    &&& final(self).apps.map() == old(self).apps.map().insert(window, app)
                    &&& out matches Effect::Open { window: w, app_id, title: t } && w == window
                        && app_id@ == prefix_of(config.host@) + app@ && t@ == titled(
                        *old(view),
                        app@,
                        title@,
                    )
                },
                HostMessage::Retitled { window, title } => if old(self).apps.map().contains_key(
                    window,
                ) {
                    out matches Effect::Retitle { window: w, title: t } && w == window && t@
                        == titled(*old(view), old(self).apps.map()[window]@, title@)
                } else {
                    out is Nothing
                },
                HostMessage::Stream { window, decoder } => {
                    &&& out is Nothing
                    &&& !decoder ==> final(self).streams == old(self).streams
                    &&& decoder ==> {
                        &&& final(self).streams.map().contains_key(window)
                        &&& final(self).streams.map() == old(self).streams.map().insert(
                            window,
                            final(self).streams.map()[window],
                        )
                        &&& final(self).streams.map()[window].broken
                        &&& final(self).streams.map()[window].queue@.len() == 0
                        &&& final(self).streams.map()[window].expected is None
                        &&& final(self).streams.map()[window].asked is None
                        &&& final(self).streams.map()[window].unshown is None
                        &&& final(self).streams.map()[window].gaps == 0
                        &&& final(self).streams.map()[window].dropped == 0
                        &&& final(self).streams.map()[window].skipped == 0
                        &&& final(self).streams.map()[window].shown == 0
                    }
                },
                HostMessage::Clipboard(what) => {
                    &&& out is Nothing
                    &&& final(view).clipboard@ == (if old(view).clipboard@.len()
                        >= crate::remote::hosts::CLIPBOARD_CAP {
                        old(view).clipboard@.skip(1).push(what)
                    } else {
                        old(view).clipboard@.push(what)
                    })
                    &&& final(view).name == old(view).name
                    &&& final(view).link == old(view).link
                    &&& final(view).apps == old(view).apps
                    &&& final(view).rumble == old(view).rumble
                },
                HostMessage::Rumble { strong, weak } => {
                    &&& out is Nothing
                    &&& final(view).rumble == Some((strong, weak))
                    &&& final(view).name == old(view).name
                    &&& final(view).link == old(view).link
                    &&& final(view).apps == old(view).apps
                    &&& final(view).clipboard == old(view).clipboard
                },
                HostMessage::Microphone { wanted } => if wanted && !config.microphone {
                    out is MicrophoneNotSent && final(self).microphone == old(self).microphone
                } else {
                    &&& final(self).microphone.sending == wanted
                    &&& out == Effect::Microphone(
                        (if wanted && !old(self).microphone.sending {
                            Change::Start
                        } else if !wanted && old(self).microphone.sending {
                            Change::Stop
                        } else {
                            Change::Nothing
                        }),
                    )
                },
                HostMessage::Closed { window } => {
                    &&& out == (Effect::Close { window })
                    &&& final(self).streams.map() == old(self).streams.map().remove(window)
                },
                HostMessage::Catalog { apps } => {
                    &&& out is Nothing
                    &&& final(view).apps == apps
                    &&& final(view).name == old(view).name
                    &&& final(view).link == old(view).link
                    &&& final(view).rumble == old(view).rumble
                    &&& final(view).clipboard == old(view).clipboard
                },
                HostMessage::Refused { reason } => out == Effect::Refused(reason),
                HostMessage::Other => out is Nothing,
            },
    {
        match message {
            HostMessage::Welcome { host } => {
                view.name = Some(host);
                view.link = Link::Online;
                Effect::Nothing
            },
            HostMessage::Opened { window, app, title } => {
                let id = app_id(config.host.as_str(), app.as_str());
                let title = window_title(view, app.as_str(), title.as_str());
                self.apps.insert(window, app);
                Effect::Open { window, app_id: id, title }
            },
            HostMessage::Retitled { window, title } => {
                match self.apps.get(window) {
                    Some(app) => {
                        let title = window_title(view, app.as_str(), title.as_str());
                        Effect::Retitle { window, title }
                    },
                    None => Effect::Nothing,
                }
            },
            HostMessage::Stream { window, decoder } => {
                if decoder {
                    self.streams.insert(window, Stream::new());
                }
                Effect::Nothing
            },
            HostMessage::Clipboard(what) => {
                view.clipboard_says(what);
                Effect::Nothing
            },
            HostMessage::Rumble { strong, weak } => {
                // Only the newest matters -- a rumble that was overtaken was never felt.
                view.rumble = Some((strong, weak));
                Effect::Nothing
            },
            HostMessage::Microphone { wanted } => {
                if wanted && !config.microphone {
                    Effect::MicrophoneNotSent
                } else {
                    Effect::Microphone(self.microphone.want(wanted))
                }
            },
            HostMessage::Closed { window } => {
                let _ = self.streams.remove(window);
                Effect::Close { window }
            },
            HostMessage::Catalog { apps } => {
                view.apps = apps;
                Effect::Nothing
            },
            HostMessage::Refused { reason } => Effect::Refused(reason),
            HostMessage::Other => Effect::Nothing,
        }
    }

    /// A piece of a window's picture arrived. Returns whether to ask for a keyframe.
    ///
    /// A piece for a window this session does not know is thrown away.
    pub fn arrived(&mut self, window: u32, arrival: Arrival, now: u64) -> (ask: bool)
        requires
            old(self).wf(),
            old(self).streams.map().contains_key(window) ==> old(
                self,
            ).streams.map()[window].has_room(),
        ensures
            final(self).wf(),
            final(self).keeps_resizes(*old(self)),
            final(self).apps == old(self).apps,
            final(self).microphone == old(self).microphone,
            !old(self).streams.map().contains_key(window) || arrival is Unfinished ==> !ask
                && final(self).streams.map() == old(self).streams.map(),
            old(self).streams.map().contains_key(window) ==> {
                &&& final(self).streams.map().contains_key(window)
                &&& final(self).streams.map() == old(self).streams.map().insert(
                    window,
                    final(self).streams.map()[window],
                )
                &&& arrival is Lost ==> ask && old(self).streams.map()[window].loses(
                    final(self).streams.map()[window],
                )
                &&& arrival matches Arrival::Frame(frame) ==> old(
                    self,
                ).streams.map()[window].arrives(
                    frame,
                    now,
                    final(self).streams.map()[window],
                    ask,
                )
            },
    {
        let mut stream = match self.streams.remove(window) {
            Some(stream) => stream,
            None => {
                return false;
            },
        };
        let ghost before = old(self).streams.map();
        let ask = match arrival {
            Arrival::Frame(frame) => stream.arrive(frame, now),
            Arrival::Lost => {
                stream.lost();
                true
            },
            Arrival::Unfinished => false,
        };
        self.streams.insert(window, stream);
        assert(before.remove(window).insert(window, stream) =~= before.insert(window, stream));
        proof {
            if stream == before[window] {
                assert(before.insert(window, stream) =~= before);
            }
        }
        assert forall|id: u32|
            self.streams.map().contains_key(id) implies (#[trigger] self.streams.map()[id]).wf() by {
            if id != window {
                assert(before[id].wf());
            }
        }
        ask
    }

    /// The windows whose streams should ask for a keyframe (again) now, in order.
    pub open spec fn asking(entries: Seq<(u32, Stream)>, now: u64) -> Seq<u32>
        decreases entries.len(),
    {
        if entries.len() == 0 {
            Seq::empty()
        } else if entries.last().1.asks(now) {
            Self::asking(entries.drop_last(), now).push(entries.last().0)
        } else {
            Self::asking(entries.drop_last(), now)
        }
    }

    /// Ask again for every keyframe that is missing and has not been asked for lately.
    pub fn keep_asking(&mut self, now: u64) -> (out: Vec<u32>)
        requires
            old(self).wf(),
        ensures
            final(self).wf(),
            final(self).keeps_resizes(*old(self)),
            final(self).apps == old(self).apps,
            final(self).microphone == old(self).microphone,
            out@ == Self::asking(old(self).streams.entries@, now),
            final(self).streams.entries@.len() == old(self).streams.entries@.len(),
            forall|i: int|
                0 <= i < old(self).streams.entries@.len() ==> {
                    let before = old(self).streams.entries@[i];
                    let after = #[trigger] final(self).streams.entries@[i];
                    &&& after.0 == before.0
                    &&& before.1.only_asked(after.1)
                    &&& after.1.asked == (if before.1.asks(now) {
                        Some(now)
                    } else {
                        before.1.asked
                    })
                },
    {
        let ghost had = self.streams;
        let ghost all = self.streams.entries@;
        let mut out: Vec<u32> = Vec::new();
        let mut i: usize = 0;
        assert(all.take(0) =~= Seq::empty());
        while i < self.streams.entries.len()
            invariant
                i <= self.streams.entries.len(),
                self.streams.entries@.len() == all.len(),
                all == had.entries@,
                had == old(self).streams,
                had.wf(),
                forall|id: u32|
                    had.map().contains_key(id) ==> (#[trigger] had.map()[id]).wf(),
                self.keeps_resizes(*old(self)),
                self.apps == old(self).apps,
                self.microphone == old(self).microphone,
                out@ == Self::asking(all.take(i as int), now),
                forall|k: int|
                    i <= k < all.len() ==> #[trigger] self.streams.entries@[k] == all[k],
                forall|k: int|
                    0 <= k < i ==> {
                        let before = all[k];
                        let after = #[trigger] self.streams.entries@[k];
                        &&& after.0 == before.0
                        &&& after.1.wf()
                        &&& before.1.only_asked(after.1)
                        &&& after.1.asked == (if before.1.asks(now) {
                            Some(now)
                        } else {
                            before.1.asked
                        })
                    },
            decreases self.streams.entries.len() - i,
        {
            let ghost current = self.streams.entries@;
            proof {
                had.lemma_at(i as int);
                assert(all.take(i + 1).drop_last() =~= all.take(i as int));
            }
            let (id, mut stream) = self.streams.entries.remove(i);
            if stream.ask(now) {
                out.push(id);
            }
            self.streams.entries.insert(i, (id, stream));
            assert(self.streams.entries@ =~= current.update(i as int, (id, stream)));
            i = i + 1;
        }
        assert(all.take(i as int) =~= all);
        assert forall|a: int, b: int| 0 <= a < b < self.streams.entries@.len() implies (
        #[trigger] self.streams.entries@[a]).0 != (#[trigger] self.streams.entries@[b]).0 by {
            assert(all[a].0 != all[b].0);
        }
        assert forall|id: u32|
            self.streams.map().contains_key(id) implies (#[trigger] self.streams.map()[id]).wf() by {
            let at = key_at(self.streams.entries@, id);
            self.streams.lemma_at(at);
            assert(self.streams.entries@[at].1.wf());
        }
        out
    }

    /// Whether any stream has something waiting.
    pub open spec fn anything_waiting(entries: Seq<(u32, Stream)>) -> bool {
        exists|i: int|
            0 <= i < entries.len() && ((#[trigger] entries[i]).1.queue@.len() > 0
                || entries[i].1.unshown is Some)
    }

    /// Whether there is work to do now: something to decode or to show, or a compositor that
    /// deserves a word.
    ///
    /// Not on every datagram. A frame arrives in a couple of hundred of them, and doing the
    /// compositor's round of syscalls after each one is most of a core spent on nothing.
    pub fn work(&mut self, now: u64) -> (out: bool)
        requires
            old(self).wf(),
            old(self).worked <= now,
        ensures
            final(self).wf(),
            out == (Self::anything_waiting(old(self).streams.entries@) || now - old(self).worked
                >= WORK_EVERY),
            final(self).worked == (if out {
                now
            } else {
                old(self).worked
            }),
            final(self).streams == old(self).streams,
            final(self).apps == old(self).apps,
            final(self).resize_sent == old(self).resize_sent,
            final(self).resize_pending == old(self).resize_pending,
            final(self).microphone == old(self).microphone,
    {
        let mut waiting = false;
        let mut i: usize = 0;
        while i < self.streams.entries.len()
            invariant
                i <= self.streams.entries.len(),
                *self == *old(self),
                waiting == (exists|k: int|
                    0 <= k < i && ((#[trigger] self.streams.entries@[k]).1.queue@.len() > 0
                        || self.streams.entries@[k].1.unshown is Some)),
            decreases self.streams.entries.len() - i,
        {
            if self.streams.entries[i].1.waiting() {
                assert(self.streams.entries@[i as int].1.queue@.len() > 0
                    || self.streams.entries@[i as int].1.unshown is Some);
                waiting = true;
            }
            i = i + 1;
        }
        if !waiting && now - self.worked < WORK_EVERY {
            return false;
        }
        self.worked = now;
        true
    }

    /// A size that a window can be: at least one pixel each way.
    pub open spec fn at_least_one(n: i32) -> u32 {
        if n < 1 {
            1
        } else {
            n as u32
        }
    }

    /// The sizes not told yet, once some more have come: the newest of each window.
    pub open spec fn wanted(pending: Map<u32, (u32, u32)>, sizes: Seq<(u32, i32, i32)>) -> Map<
        u32,
        (u32, u32),
    >
        decreases sizes.len(),
    {
        if sizes.len() == 0 {
            pending
        } else {
            let (id, width, height) = sizes.last();
            Self::wanted(pending, sizes.drop_last()).insert(
                id,
                (Self::at_least_one(width), Self::at_least_one(height)),
            )
        }
    }

    /// Whether a window may be told its size: it has not been lately.
    pub open spec fn may_tell(sent: Map<u32, u64>, id: u32, now: u64) -> bool {
        sent.contains_key(id) ==> now - sent[id] >= RESIZE_EVERY
    }

    /// The compositor settled on some sizes. Returns the ones to tell the host now.
    ///
    /// Held back a little: a drag configures the window on every frame, and the host builds a
    /// new encoder for every size it is told — so the whole drag would be a stream of rebuilt
    /// encoders and keyframes. One every so often, and what is not told yet is kept, not
    /// dropped: the size the drag ends on is the one that matters.
    pub fn resized(&mut self, sizes: &Vec<(u32, i32, i32)>, now: u64) -> (out: Vec<
        (u32, u32, u32),
    >)
        requires
            old(self).wf(),
        ensures
            final(self).wf(),
            final(self).streams == old(self).streams,
            final(self).apps == old(self).apps,
            final(self).microphone == old(self).microphone,
            final(self).worked == old(self).worked,
            ({
                let wanted = Self::wanted(old(self).resize_pending.map(), sizes@);
                let sent = old(self).resize_sent.map();
                // What may be told is told, and only that, each window once.
                &&& forall|k: int|
                    0 <= k < out@.len() ==> {
                        let (id, width, height) = #[trigger] out@[k];
                        wanted.contains_key(id) && wanted[id] == (width, height) && Self::may_tell(
                            sent,
                            id,
                            now,
                        )
                    }
                &&& forall|k: int, l: int|
                    0 <= k < l < out@.len() ==> (#[trigger] out@[k]).0 != (#[trigger] out@[l]).0
                &&& forall|id: u32|
                    #[trigger] wanted.contains_key(id) && Self::may_tell(sent, id, now) ==> told_in(
                        out@,
                        id,
                    )
                // What may not is kept.
                &&& final(self).resize_pending.map() == wanted.restrict(
                    Set::new(|id: u32| !Self::may_tell(sent, id, now)),
                )
                // And when each was told is remembered.
                &&& forall|id: u32| #[trigger]
                    final(self).resize_sent.map().contains_key(id) <==> sent.contains_key(id)
                        || told_in(out@, id)
                &&& forall|id: u32| #[trigger]
                    final(self).resize_sent.map().contains_key(id)
                        ==> final(self).resize_sent.map()[id] == (if told_in(out@, id) {
                        now
                    } else {
                        sent[id]
                    })
            }),
    {
        let ghost sent = self.resize_sent.map();
        let ghost pending = self.resize_pending.map();
        let ghost all = Self::wanted(pending, sizes@);
        let mut i: usize = 0;
        assert(sizes@.take(0) =~= Seq::empty());
        while i < sizes.len()
            invariant
                i <= sizes.len(),
                self.resize_pending.wf(),
                pending == old(self).resize_pending.map(),
                self.resize_pending.map() == Self::wanted(pending, sizes@.take(i as int)),
                self.streams == old(self).streams,
                self.apps == old(self).apps,
                self.resize_sent == old(self).resize_sent,
                self.microphone == old(self).microphone,
                self.worked == old(self).worked,
            decreases sizes.len() - i,
        {
            assert(sizes@.take(i + 1).drop_last() =~= sizes@.take(i as int));
            let (id, width, height) = sizes[i];
            let width: u32 = if width < 1 {
                1
            } else {
                width as u32
            };
            let height: u32 = if height < 1 {
                1
            } else {
                height as u32
            };
            self.resize_pending.insert(id, (width, height));
            i = i + 1;
        }
        assert(sizes@.take(i as int) =~= sizes@);
        let ghost entries = self.resize_pending.entries@;
        let ghost whole = self.resize_pending;
        let mut out: Vec<(u32, u32, u32)> = Vec::new();
        let mut kept: Table<(u32, u32)> = Table::new();
        let mut n: usize = 0;
        while n < self.resize_pending.entries.len()
            invariant
                n <= self.resize_pending.entries.len(),
                self.resize_pending == whole,
                whole.wf(),
                whole.map() == all,
                entries == whole.entries@,
                sent == old(self).resize_sent.map(),
                self.streams == old(self).streams,
                self.apps == old(self).apps,
                self.microphone == old(self).microphone,
                self.worked == old(self).worked,
                self.resize_sent.wf(),
                kept.wf(),
                forall|k: int|
                    0 <= k < out@.len() ==> {
                        let (id, width, height) = #[trigger] out@[k];
                        all.contains_key(id) && all[id] == (width, height) && Self::may_tell(
                            sent,
                            id,
                            now,
                        ) && appears_in(entries.take(n as int), id)
                    },
                forall|k: int, l: int|
                    0 <= k < l < out@.len() ==> (#[trigger] out@[k]).0 != (#[trigger] out@[l]).0,
                forall|k: int|
                    0 <= k < n && Self::may_tell(sent, (#[trigger] entries[k]).0, now) ==> told_in(
                        out@,
                        entries[k].0,
                    ),
                forall|id: u32| #[trigger]
                    kept.map().contains_key(id) <==> appears_in(entries.take(n as int), id)
                        && !Self::may_tell(sent, id, now),
                forall|id: u32| #[trigger] kept.map().contains_key(id) ==> kept.map()[id] == all[id],
                forall|id: u32| #[trigger]
                    self.resize_sent.map().contains_key(id) <==> sent.contains_key(id) || told_in(
                        out@,
                        id,
                    ),
                forall|id: u32| #[trigger]
                    self.resize_sent.map().contains_key(id) ==> self.resize_sent.map()[id] == (
                    if told_in(out@, id) {
                        now
                    } else {
                        sent[id]
                    }),
            decreases self.resize_pending.entries.len() - n,
        {
            let (id, size) = self.resize_pending.entries[n];
            let ghost before = out@;
            let ghost kept_before = kept.map();
            proof {
                whole.lemma_at(n as int);
                lemma_one_more_appears(entries, n as int);
                assert(!appears_in(entries.take(n as int), id)) by {
                    if appears_in(entries.take(n as int), id) {
                        let k = choose|k: int|
                            0 <= k < entries.take(n as int).len() && (#[trigger] entries.take(
                                n as int,
                            )[k]).0 == id;
                        assert(entries[k].0 != entries[n as int].0);
                    }
                }
                if told_in(out@, id) {
                    let k = choose|k: int| 0 <= k < out@.len() && (#[trigger] out@[k]).0 == id;
                    assert(appears_in(entries.take(n as int), out@[k].0));
                }
            }
            let due = match self.resize_sent.get(id) {
                Some(at) => *at <= now && now - *at >= RESIZE_EVERY,
                None => true,
            };
            assert(due == Self::may_tell(sent, id, now));
            if due {
                self.resize_sent.insert(id, now);
                out.push((id, size.0, size.1));
                proof {
                    lemma_one_more_told(before, (id, size.0, size.1));
                }
                assert forall|k: int|
                    0 <= k < n + 1 && Self::may_tell(
                        sent,
                        (#[trigger] entries[k]).0,
                        now,
                    ) implies told_in(out@, entries[k].0) by {
                    if k < n {
                        assert(told_in(before, entries[k].0));
                    }
                }
            } else {
                kept.insert(id, size);
            }
            assert forall|other: u32| #[trigger]
                kept.map().contains_key(other) <==> appears_in(entries.take(n + 1), other)
                    && !Self::may_tell(sent, other, now) by {
                assert(kept_before.contains_key(other) <==> appears_in(
                    entries.take(n as int),
                    other,
                ) && !Self::may_tell(sent, other, now));
            }
            n = n + 1;
        }
        assert(entries.take(n as int) =~= entries);
        self.resize_pending = kept;
        proof {
            assert forall|id: u32|
                #[trigger] all.contains_key(id) && Self::may_tell(sent, id, now) implies told_in(
                out@,
                id,
            ) by {
                let at = key_at(entries, id);
                assert(entries[at].0 == id);
            }
            let rest = all.restrict(Set::new(|id: u32| !Self::may_tell(sent, id, now)));
            assert forall|id: u32|
                kept.map().contains_key(id) == rest.contains_key(id) by {
                assert(appears_in(entries, id) == has_key(entries, id));
                assert(whole.map().contains_key(id) == has_key(entries, id));
                assert(kept.map().contains_key(id) <==> appears_in(entries, id) && !Self::may_tell(
                    sent,
                    id,
                    now,
                ));
            }
            assert(kept.map() =~= rest);
        }
        out
    }
}

/// Whether a window's size is among those told.
pub open spec fn told_in(out: Seq<(u32, u32, u32)>, id: u32) -> bool {
    exists|k: int| 0 <= k < out.len() && (#[trigger] out[k]).0 == id
}

/// Whether a window is among some sizes.
pub open spec fn appears_in(entries: Seq<(u32, (u32, u32))>, id: u32) -> bool {
    exists|k: int| 0 <= k < entries.len() && (#[trigger] entries[k]).0 == id
}

proof fn lemma_one_more_told(out: Seq<(u32, u32, u32)>, more: (u32, u32, u32))
    ensures
        forall|id: u32| told_in(out.push(more), id) <==> told_in(out, id) || id == more.0,
{
    let all = out.push(more);
    assert forall|id: u32| told_in(all, id) <==> told_in(out, id) || id == more.0 by {
        if told_in(all, id) {
            let k = choose|k: int| 0 <= k < all.len() && (#[trigger] all[k]).0 == id;
            if k < out.len() {
                assert(out[k].0 == id);
            }
        }
        if told_in(out, id) {
            let k = choose|k: int| 0 <= k < out.len() && (#[trigger] out[k]).0 == id;
            assert(all[k].0 == id);
        }
        if id == more.0 {
            assert(all[out.len() as int].0 == id);
        }
    }
}

proof fn lemma_one_more_appears(entries: Seq<(u32, (u32, u32))>, n: int)
    requires
        0 <= n < entries.len(),
    ensures
        forall|id: u32|
            appears_in(entries.take(n + 1), id) <==> appears_in(entries.take(n), id) || id
                == entries[n].0,
{
    let more = entries.take(n + 1);
    let fewer = entries.take(n);
    assert forall|id: u32|
        appears_in(more, id) <==> appears_in(fewer, id) || id == entries[n].0 by {
        if appears_in(more, id) {
            let k = choose|k: int| 0 <= k < more.len() && (#[trigger] more[k]).0 == id;
            if k < n {
                assert(fewer[k].0 == id);
            }
        }
        if appears_in(fewer, id) {
            let k = choose|k: int| 0 <= k < fewer.len() && (#[trigger] fewer[k]).0 == id;
            assert(more[k].0 == id);
        }
        if id == entries[n].0 {
            assert(more[n].0 == id);
        }
    }
}

/// Some sizes, each as the message that says it.
pub open spec fn size_messages(told: Seq<(u32, u32, u32)>) -> Seq<ClientMessage> {
    told.map_values(
        |t: (u32, u32, u32)|
            ClientMessage::Configure { window: t.0, width: t.1, height: t.2 },
    )
}

/// Some windows being closed, each as the message that says it.
pub open spec fn close_messages(closing: Seq<u32>) -> Seq<ClientMessage> {
    closing.map_values(|window: u32| ClientMessage::Close { window })
}

/// What the wearer did, each as the message that says it.
pub open spec fn input_messages(input: Seq<(u32, Input)>) -> Seq<ClientMessage> {
    input.map_values(|i: (u32, Input)| ClientMessage::Input { window: i.0, input: i.1 })
}

/// What a host is told of the compositor's side of things: sizes, then windows the wearer is
/// closing, then everything the wearer did, in the order they did it. Reliable and ordered, because
/// a key that arrives twice or out of turn is worse than one that is late.
pub fn reports(told: &[(u32, u32, u32)], closing: &[u32], input: &[(u32, Input)]) -> (out: Vec<
    ClientMessage,
>)
    ensures
        out@ == size_messages(told@) + close_messages(closing@) + input_messages(input@),
{
    let mut out: Vec<ClientMessage> = Vec::new();
    let mut i: usize = 0;
    while i < told.len()
        invariant
            i <= told.len(),
            out@ =~= size_messages(told@.take(i as int)),
        decreases told.len() - i,
    {
        let (window, width, height) = told[i];
        out.push(ClientMessage::Configure { window, width, height });
        i = i + 1;
    }
    assert(told@.take(i as int) =~= told@);
    let ghost sizes = out@;
    let mut j: usize = 0;
    while j < closing.len()
        invariant
            j <= closing.len(),
            out@ =~= sizes + close_messages(closing@.take(j as int)),
        decreases closing.len() - j,
    {
        out.push(ClientMessage::Close { window: closing[j] });
        j = j + 1;
    }
    assert(closing@.take(j as int) =~= closing@);
    let ghost closes = out@;
    let mut k: usize = 0;
    while k < input.len()
        invariant
            k <= input.len(),
            out@ =~= closes + input_messages(input@.take(k as int)),
        decreases input.len() - k,
    {
        let (window, did) = input[k];
        out.push(ClientMessage::Input { window, input: did });
        k = k + 1;
    }
    assert(input@.take(k as int) =~= input@);
    out
}

/// What the wearer did reaches the host in the order they did it.
pub proof fn input_stays_in_order(
    told: Seq<(u32, u32, u32)>,
    closing: Seq<u32>,
    input: Seq<(u32, Input)>,
    i: int,
)
    requires
        0 <= i < input.len(),
    ensures
        ({
            let out = size_messages(told) + close_messages(closing) + input_messages(input);
            out[told.len() + closing.len() + i] == (ClientMessage::Input {
                window: input[i].0,
                input: input[i].1,
            })
        }),
{
}

/// What is asked of a host's thread is what is said to the host, of the same application and with
/// the same bytes; and nothing that is asked for reads as anything else.
pub proof fn what_is_asked_is_what_is_said(command: Command)
    ensures
        asks_for(command) is Launch <==> command is Launch,
        asks_for(command) is ForceQuit <==> command is ForceQuit,
        asks_for(command) is Pad <==> command is Pad,
        asks_for(command) is Clipboard <==> command is Clipboard,
        command matches Command::Launch(app) ==> (asks_for(command) matches ClientMessage::Launch {
            app: said,
        } && said == app),
        command matches Command::ForceQuit(app) ==> (asks_for(
            command,
        ) matches ClientMessage::ForceQuit { app: said } && said == app),
        command matches Command::Pad(state) ==> asks_for(command) == ClientMessage::Pad(state),
        command matches Command::Clipboard(what) ==> asks_for(command) == ClientMessage::Clipboard(
            what,
        ),
{
}

/// The windows asked about are those whose streams ask, each once and in order.
pub proof fn every_stream_that_asks_is_asked_about(entries: Seq<(u32, Stream)>, now: u64)
    ensures
        Session::asking(entries, now) == entries.filter(
            |entry: (u32, Stream)| entry.1.asks(now),
        ).map_values(|entry: (u32, Stream)| entry.0),
    decreases entries.len(),
{
    reveal(Seq::filter);
    let asks = |entry: (u32, Stream)| entry.1.asks(now);
    let window = |entry: (u32, Stream)| entry.0;
    if entries.len() > 0 {
        every_stream_that_asks_is_asked_about(entries.drop_last(), now);
        let before = entries.drop_last().filter(asks);
        assert(before.push(entries.last()).map_values(window) =~= before.map_values(window).push(
            entries.last().0,
        ));
    } else {
        assert(entries.filter(asks).map_values(window) =~= Seq::empty());
    }
}

/// The newest size of a window is the one that is wanted, never less than a pixel either way, and
/// what is wanted of every other window is not touched by it. What was waiting still is, where
/// nothing newer has come.
pub proof fn the_newest_size_is_wanted(
    pending: Map<u32, (u32, u32)>,
    sizes: Seq<(u32, i32, i32)>,
    id: u32,
    width: i32,
    height: i32,
    other: u32,
)
    ensures
        ({
            let before = Session::wanted(pending, sizes);
            let after = Session::wanted(pending, sizes.push((id, width, height)));
            &&& after.contains_key(id)
            &&& width >= 1 && height >= 1 ==> after[id] == (width as u32, height as u32)
            &&& after[id].0 >= 1 && after[id].1 >= 1
            &&& width < 1 ==> after[id].0 == 1
            &&& height < 1 ==> after[id].1 == 1
            &&& other != id ==> (after.contains_key(other) <==> before.contains_key(other))
            &&& other != id && before.contains_key(other) ==> after[other] == before[other]
            &&& Session::wanted(pending, Seq::empty()) == pending
        }),
{
    assert(sizes.push((id, width, height)).drop_last() =~= sizes);
}

/// A window that has been told its size is not told again for a while, and one that has been told
/// none may be told at once.
pub proof fn a_window_is_left_alone_for_a_while(sent: Map<u32, u64>, id: u32, now: u64)
    ensures
        !sent.contains_key(id) ==> Session::may_tell(sent, id, now),
        sent.contains_key(id) ==> (Session::may_tell(sent, id, now) <==> sent[id] + 150_000_000
            <= now),
{
}

/// An application is called what the first of its name in the catalogue is called; one that is not
/// in it is called nothing there.
pub proof fn an_application_is_called_what_its_host_says(
    apps: Seq<RemoteApp>,
    app: Seq<char>,
    at: int,
)
    ensures
        0 <= at < apps.len() && apps[at].id@ == app && (forall|i: int|
            0 <= i < at ==> (#[trigger] apps[i]).id@ != app) ==> offered_name(apps, app) == Some(
            apps[at].name@,
        ),
        (forall|i: int| 0 <= i < apps.len() ==> (#[trigger] apps[i]).id@ != app) ==> offered_name(
            apps,
            app,
        ) is None,
    decreases apps.len(),
{
    if apps.len() > 0 {
        let rest = apps.skip(1);
        an_application_is_called_what_its_host_says(rest, app, at - 1);
        if forall|i: int| 0 <= i < apps.len() ==> (#[trigger] apps[i]).id@ != app {
            assert forall|i: int| 0 <= i < rest.len() implies (#[trigger] rest[i]).id@ != app by {
                assert(rest[i] == apps[i + 1]);
            }
        }
        if 0 < at < apps.len() && apps[at].id@ == app && (forall|i: int|
            0 <= i < at ==> (#[trigger] apps[i]).id@ != app) {
            assert forall|i: int| 0 <= i < at - 1 implies (#[trigger] rest[i]).id@ != app by {
                assert(rest[i] == apps[i + 1]);
            }
            assert(rest[at - 1] == apps[at]);
            assert(apps[0].id@ != app);
        }
    }
}

/// A remote window's title bar begins with its own title where it has one, with the application's
/// name where it has none, and with the application's id where its host has not named it; and it
/// ends with the host's name, where that is known.
pub proof fn a_title_says_what_and_where(view: HostView, app: Seq<char>, title: Seq<char>)
    ensures
        trimmed(title).len() > 0 ==> trimmed(title).is_prefix_of(titled(view, app, title)),
        trimmed(title).len() == 0 && (offered_name(view.apps@, app) is Some) ==> offered_name(
            view.apps@,
            app,
        )->0.is_prefix_of(titled(view, app, title)),
        trimmed(title).len() == 0 && offered_name(view.apps@, app) is None ==> app.is_prefix_of(
            titled(view, app, title),
        ),
        view.name matches Some(host) ==> host@.is_suffix_of(titled(view, app, title)),
        view.name is None && trimmed(title).len() > 0 ==> titled(view, app, title) == trimmed(
            title,
        ),
        view.name matches Some(host) ==> titled(view, app, title).len() == titled(
            HostView { name: None, ..view },
            app,
            title,
        ).len() + 3 + host@.len(),
{
    reveal_strlit(" — ");
    if let Some(host) = view.name {
        let plain = titled(HostView { name: None, ..view }, app, title);
        let whole = titled(view, app, title);
        assert(whole =~= plain + " — "@ + host@);
        assert(plain =~= whole.take(plain.len() as int));
        assert(host@ =~= whole.skip(whole.len() - host@.len()));
    }
}

/// Something waits where any stream has a frame to decode or a picture to show, and nothing does
/// where none has either.
pub proof fn something_waits_where_a_stream_does(entries: Seq<(u32, Stream)>, i: int)
    requires
        0 <= i < entries.len(),
    ensures
        entries[i].1.queue@.len() > 0 ==> Session::anything_waiting(entries),
        entries[i].1.unshown is Some ==> Session::anything_waiting(entries),
        Session::anything_waiting(entries) ==> exists|k: int|
            0 <= k < entries.len() && ((#[trigger] entries[k]).1.queue@.len() > 0
                || entries[k].1.unshown is Some),
        !Session::anything_waiting(entries) ==> entries[i].1.queue@.len() == 0
            && entries[i].1.unshown is None,
        !Session::anything_waiting(Seq::empty()),
{
}

} // verus!
