//! The desktop's clipboard: one seat, the regular selection only.
//!
//! The [`State`] takes the events of the compositor one at a time and says what is
//! to be done. Offers and sources are named by numbers that the state gives out.
use crate::protocol::{self, valid};
use crate::text;
use std::collections::HashMap;
use vstd::prelude::*;
use vstd::slice::slice_to_vec;
use vstd::utf8::encode_utf8;

verus! {

broadcast use vstd::std_specs::hash::group_hash_axioms;

// ---------------------------------------------------------------------------
// Snapshots
// ---------------------------------------------------------------------------
/// What is known of the selection.
pub struct Snapshot {
    /// Changes with every selection.
    pub revision: u64,
    /// The selected text, where it may be shared.
    pub data: Option<Vec<u8>>,
    /// The selection came from the phone.
    pub own: bool,
    /// The text has been read.
    pub ready: bool,
}

/// What a [`Snapshot`] holds.
pub struct SnapshotView {
    pub revision: u64,
    pub data: Option<Seq<u8>>,
    pub own: bool,
    pub ready: bool,
}

/// What some bytes hold, if any.
pub open spec fn content(data: Option<Vec<u8>>) -> Option<Seq<u8>> {
    match data {
        Some(d) => Some(d@),
        None => None,
    }
}

impl View for Snapshot {
    type V = SnapshotView;

    open spec fn view(&self) -> SnapshotView {
        SnapshotView {
            revision: self.revision,
            data: content(self.data),
            own: self.own,
            ready: self.ready,
        }
    }
}

fn copy_data(data: &Option<Vec<u8>>) -> (r: Option<Vec<u8>>)
    ensures
        content(r) == content(*data),
{
    match data {
        Some(d) => Some(slice_to_vec(d)),
        None => None,
    }
}

impl Clone for Snapshot {
    fn clone(&self) -> (r: Self)
        ensures
            r@ == self@,
    {
        Snapshot {
            revision: self.revision,
            data: copy_data(&self.data),
            own: self.own,
            ready: self.ready,
        }
    }
}

impl Default for Snapshot {
    /// Nothing is known.
    fn default() -> (r: Self)
        ensures
            r@ == (SnapshotView { revision: 0, data: None, own: false, ready: false }),
    {
        Snapshot { revision: 0, data: None, own: false, ready: false }
    }
}

impl Snapshot {
    /// The selected text.
    pub fn bytes(&self) -> (r: Option<&[u8]>)
        ensures
            match r {
                Some(b) => self@.data == Some(b@),
                None => self@.data is None,
            },
    {
        match &self.data {
            Some(d) => Some(d.as_slice()),
            None => None,
        }
    }
}

// ---------------------------------------------------------------------------
// Types of content
// ---------------------------------------------------------------------------
/// The types of plain text, the best first.
pub open spec fn plain() -> Seq<Seq<char>> {
    seq![
        "text/plain;charset=utf-8"@,
        "text/plain;charset=UTF-8"@,
        "text/plain"@,
        "UTF8_STRING"@,
    ]
}

/// The type that marks a secret.
pub open spec fn sensitive() -> Seq<char> {
    "x-kde-passwordManagerHint"@
}

/// Whether a type is one of plain text.
pub open spec fn is_plain(mime: Seq<char>) -> bool {
    ||| mime == plain()[0]
    ||| mime == plain()[1]
    ||| mime == plain()[2]
    ||| mime == plain()[3]
}

/// The best type of plain text among `types`.
pub open spec fn best_of(types: Seq<Seq<char>>) -> Option<Seq<char>> {
    if types.contains(plain()[0]) {
        Some(plain()[0])
    } else if types.contains(plain()[1]) {
        Some(plain()[1])
    } else if types.contains(plain()[2]) {
        Some(plain()[2])
    } else if types.contains(plain()[3]) {
        Some(plain()[3])
    } else {
        None
    }
}

fn plain_type(mime: &str) -> (r: bool)
    ensures
        r == is_plain(mime@),
{
    text::same(mime, "text/plain;charset=utf-8") || text::same(mime, "text/plain;charset=UTF-8")
        || text::same(mime, "text/plain") || text::same(mime, "UTF8_STRING")
}

fn holds(types: &Vec<String>, mime: &str) -> (r: bool)
    ensures
        r == types.deep_view().contains(mime@),
{
    let ghost t = types.deep_view();
    let mut i: usize = 0;
    while i < types.len()
        invariant
            i <= types@.len(),
            t == types.deep_view(),
            forall|j: int| 0 <= j < i ==> #[trigger] t[j] != mime@,
        decreases types@.len() - i,
    {
        assert(t[i as int] == types@[i as int]@);
        if text::same(&types[i], mime) {
            return true;
        }
        i += 1;
    }
    false
}

fn best(types: &Vec<String>) -> (r: Option<&'static str>)
    ensures
        match r {
            Some(m) => best_of(types.deep_view()) == Some(m@),
            None => best_of(types.deep_view()) is None,
        },
{
    if holds(types, "text/plain;charset=utf-8") {
        Some("text/plain;charset=utf-8")
    } else if holds(types, "text/plain;charset=UTF-8") {
        Some("text/plain;charset=UTF-8")
    } else if holds(types, "text/plain") {
        Some("text/plain")
    } else if holds(types, "UTF8_STRING") {
        Some("UTF8_STRING")
    } else {
        None
    }
}

// ---------------------------------------------------------------------------
// The state
// ---------------------------------------------------------------------------
/// What is known of the compositor and its clipboard.
pub struct State {
    manager: bool,
    seat: bool,
    offers: HashMap<u64, Vec<String>>,
    source: Option<(u64, Vec<u8>)>,
    selected: Option<u64>,
    monitoring: bool,
    snapshot: Snapshot,
    transfer: bool,
    initialized: bool,
    failed: Option<&'static str>,
    marker: String,
    probe: bool,
    globals: Vec<String>,
    names: u64,
}

/// What a [`State`] holds.
pub struct StateView {
    /// The clipboard manager is bound.
    pub manager: bool,
    /// A seat is bound.
    pub seat: bool,
    /// The offers, each with the types of it that matter.
    pub offers: Map<u64, Seq<Seq<char>>>,
    /// The source that the bridge gave the compositor last, with its text.
    pub source: Option<(u64, Seq<u8>)>,
    /// The offer that is selected.
    pub selected: Option<u64>,
    /// Selections are read.
    pub monitoring: bool,
    pub snapshot: SnapshotView,
    /// A text is being read.
    pub transfer: bool,
    /// The compositor has told what it has.
    pub initialized: bool,
    /// Why the clipboard cannot be used.
    pub failed: Option<Seq<char>>,
    /// The type that tells the bridge's own sources.
    pub marker: Seq<char>,
    /// Only what the compositor has is asked.
    pub probe: bool,
    /// What the compositor has.
    pub globals: Seq<Seq<char>>,
    /// How many names were given out.
    pub names: u64,
}

spec fn types_in(m: Map<u64, Vec<String>>) -> Map<u64, Seq<Seq<char>>> {
    Map::new(|k: u64| m.contains_key(k), |k: u64| m[k].deep_view())
}

impl View for State {
    type V = StateView;

    closed spec fn view(&self) -> StateView {
        StateView {
            manager: self.manager,
            seat: self.seat,
            offers: types_in(self.offers@),
            source: match self.source {
                Some((n, d)) => Some((n, d@)),
                None => None,
            },
            selected: self.selected,
            monitoring: self.monitoring,
            snapshot: self.snapshot@,
            transfer: self.transfer,
            initialized: self.initialized,
            failed: match self.failed {
                Some(e) => Some(e@),
                None => None,
            },
            marker: self.marker@,
            probe: self.probe,
            globals: self.globals.deep_view(),
            names: self.names,
        }
    }
}

/// The number after `n`.
pub open spec fn after(n: u64) -> u64 {
    if n == u64::MAX {
        0
    } else {
        (n + 1) as u64
    }
}

fn next(n: u64) -> (r: u64)
    ensures
        r == after(n),
{
    if n == u64::MAX {
        0
    } else {
        n + 1
    }
}

/// What is to be made public.
pub struct Publication {
    /// This snapshot.
    pub snapshot: Snapshot,
    /// Those who wait for a complete snapshot get it.
    pub answer: bool,
}

/// What a [`Publication`] holds.
pub struct PublicationView {
    pub snapshot: SnapshotView,
    pub answer: bool,
}

impl View for Publication {
    type V = PublicationView;

    open spec fn view(&self) -> PublicationView {
        PublicationView { snapshot: self.snapshot@, answer: self.answer }
    }
}

/// A text to read.
pub struct Transfer {
    /// From this offer.
    pub offer: u64,
    /// In this type.
    pub mime: &'static str,
    /// For the snapshot with this revision.
    pub revision: u64,
}

/// What a [`Transfer`] holds.
pub struct TransferView {
    pub offer: u64,
    pub mime: Seq<char>,
    pub revision: u64,
}

impl View for Transfer {
    type V = TransferView;

    open spec fn view(&self) -> TransferView {
        TransferView { offer: self.offer, mime: self.mime@, revision: self.revision }
    }
}

/// What a selection leads to.
pub struct Reception {
    /// Give up this offer.
    pub destroy: Option<u64>,
    /// Give up the text that is being read.
    pub abort: bool,
    /// Begin to read this text, and let [`State::opening`] know.
    pub transfer: Option<Transfer>,
    /// Publish this.
    pub publish: Option<Publication>,
}

/// What a [`Reception`] holds.
pub struct ReceptionView {
    pub destroy: Option<u64>,
    pub abort: bool,
    pub transfer: Option<TransferView>,
    pub publish: Option<PublicationView>,
}

impl View for Reception {
    type V = ReceptionView;

    open spec fn view(&self) -> ReceptionView {
        ReceptionView {
            destroy: self.destroy,
            abort: self.abort,
            transfer: match self.transfer {
                Some(t) => Some(t@),
                None => None,
            },
            publish: match self.publish {
                Some(p) => Some(p@),
                None => None,
            },
        }
    }
}

impl StateView {
    /// What is to be made public now.
    pub open spec fn publication(self) -> PublicationView {
        PublicationView {
            snapshot: self.snapshot,
            answer: self.initialized && self.snapshot.ready,
        }
    }

    /// The types of an offer.
    pub open spec fn types(self, offer: u64) -> Seq<Seq<char>> {
        if self.offers.contains_key(offer) {
            self.offers[offer]
        } else {
            Seq::empty()
        }
    }

    /// The snapshot of a selection, before its text is read.
    pub open spec fn snapshot_of(self, selected: Option<u64>) -> SnapshotView {
        let own = selected matches Some(o) && self.types(o).contains(self.marker);
        SnapshotView {
            revision: after(self.snapshot.revision),
            data: if own && self.source is Some {
                Some((self.source->0).1)
            } else {
                None
            },
            own,
            ready: true,
        }
    }

    /// The offers that are left when `selected` is selected.
    pub open spec fn offers_after(self, selected: Option<u64>) -> Map<u64, Seq<Seq<char>>> {
        if self.selected != selected && self.selected is Some {
            self.offers.remove(self.selected->0)
        } else {
            self.offers
        }
    }

    /// What to read of a selection: plain text, unless selections are not read, the
    /// text is a secret or it came from the phone.
    pub open spec fn transfer_of(self, selected: Option<u64>) -> Option<TransferView> {
        match selected {
            None => None,
            Some(o) => {
                let types = self.types(o);
                if types.contains(self.marker) || !self.monitoring || types.contains(sensitive()) {
                    None
                } else {
                    match best_of(types) {
                        Some(mime) => Some(
                            TransferView { offer: o, mime, revision: after(self.snapshot.revision) },
                        ),
                        None => None,
                    }
                }
            },
        }
    }

    /// `selected` is selected.
    pub open spec fn receiving(self, selected: Option<u64>) -> StateView {
        let s = StateView { offers: self.offers_after(selected), selected, ..self };
        StateView { transfer: false, snapshot: s.snapshot_of(selected), ..s }
    }

    /// The state after a selection, and what it leads to.
    pub open spec fn received(self, selected: Option<u64>) -> (StateView, ReceptionView) {
        let kept = StateView { offers: self.offers_after(selected), selected, ..self };
        let s = self.receiving(selected);
        let transfer = kept.transfer_of(selected);
        (
            s,
            ReceptionView {
                destroy: if self.selected != selected {
                    self.selected
                } else {
                    None
                },
                abort: self.transfer,
                transfer,
                publish: if transfer is None {
                    Some(s.publication())
                } else {
                    None
                },
            },
        )
    }
}

impl State {
    /// A state that knows nothing yet. The random token tells the bridge's own
    /// sources from all others.
    pub fn new(token: &str, probe: bool) -> (r: State)
        ensures
            r@ == (StateView {
                manager: false,
                seat: false,
                offers: Map::empty(),
                source: None,
                selected: None,
                monitoring: false,
                snapshot: SnapshotView { revision: 0, data: None, own: false, ready: false },
                transfer: false,
                initialized: false,
                failed: None,
                marker: "application/x-omaclip-"@ + token@,
                probe,
                globals: Seq::empty(),
                names: 0,
            }),
    {
        let r = State {
            manager: false,
            seat: false,
            offers: HashMap::new(),
            source: None,
            selected: None,
            monitoring: false,
            snapshot: Snapshot::default(),
            transfer: false,
            initialized: false,
            failed: None,
            marker: text::pair("application/x-omaclip-", token),
            probe,
            globals: Vec::new(),
            names: 0,
        };
        assert(r@.offers =~= Map::empty());
        assert(r@.globals =~= Seq::empty());
        r
    }

    fn publish(&self) -> (r: Publication)
        ensures
            r@ == self@.publication(),
    {
        Publication {
            snapshot: self.snapshot.clone(),
            answer: self.initialized && self.snapshot.ready,
        }
    }

    fn drop_offer(&mut self, offer: u64)
        ensures
            final(self)@ == (StateView { offers: old(self)@.offers.remove(offer), ..old(self)@ }),
    {
        self.offers.remove(&offer);
        assert(types_in(self.offers@) =~= types_in(old(self).offers@).remove(offer));
    }

    fn types(&self, offer: u64) -> (r: Vec<String>)
        ensures
            r.deep_view() == self@.types(offer),
    {
        match self.offers.get(&offer) {
            Some(t) => text::copy_all(t),
            None => {
                let none: Vec<String> = Vec::new();
                assert(none.deep_view() =~= Seq::empty());
                none
            },
        }
    }

    /// Takes note of what is selected.
    fn receive(&mut self, selected: Option<u64>) -> (r: Reception)
        ensures
            (final(self)@, r@) == old(self)@.received(selected),
    {
        let mut destroy: Option<u64> = None;
        if self.selected != selected {
            match self.selected {
                Some(old_offer) => {
                    self.drop_offer(old_offer);
                    destroy = Some(old_offer);
                },
                None => {},
            }
            self.selected = selected;
        }
        let abort = self.transfer;
        self.transfer = false;
        let revision: u64 = next(self.snapshot.revision);
        let mut snapshot = Snapshot { revision, data: None, own: false, ready: true };
        let mut transfer: Option<Transfer> = None;
        match selected {
            Some(offer) => {
                let types = self.types(offer);
                if holds(&types, &self.marker) {
                    snapshot.own = true;
                    match &self.source {
                        Some((_, data)) => {
                            snapshot.data = Some(slice_to_vec(data));
                        },
                        None => {},
                    }
                } else if self.monitoring && !holds(&types, "x-kde-passwordManagerHint") {
                    match best(&types) {
                        Some(mime) => {
                            transfer = Some(Transfer { offer, mime, revision });
                        },
                        None => {},
                    }
                }
            },
            None => {},
        }
        self.snapshot = snapshot;
        let publish = if transfer.is_none() {
            Some(self.publish())
        } else {
            None
        };
        Reception { destroy, abort, transfer, publish }
    }
}

// ---------------------------------------------------------------------------
// Events
// ---------------------------------------------------------------------------
/// What to bind, in which version.
#[derive(Debug, PartialEq, Eq)]
pub enum Bind {
    Manager(u32),
    Seat(u32),
}

/// What the clipboard is asked for.
pub enum Request {
    /// Do not read selections any more.
    Suspend,
    /// Read selections from now on, and tell what is selected.
    Baseline,
    /// Select this text, if the selection has not changed since the revision and
    /// the one who asks still waits.
    Write { revision: u64, data: Vec<u8>, closed: bool },
}

/// What a text from the phone leads to.
pub struct Acceptance {
    /// Make a source of this name,
    pub source: u64,
    /// offer these types,
    pub types: Vec<String>,
    /// select it, and give up this one.
    pub destroy: Option<u64>,
}

/// What comes of a [`Request`].
pub enum Response {
    /// The one who asks waits for the next complete snapshot.
    Waiting(Reception),
    /// Selections are not read any more.
    Suspended(Reception),
    /// The text is not selected.
    Refused,
    /// The text is to be selected.
    Accepted(Acceptance),
}

/// What a [`Response`] holds.
pub enum ResponseView {
    Waiting(ReceptionView),
    Suspended(ReceptionView),
    Refused,
    Accepted { source: u64, types: Seq<Seq<char>>, destroy: Option<u64> },
}

impl View for Response {
    type V = ResponseView;

    open spec fn view(&self) -> ResponseView {
        match self {
            Response::Waiting(r) => ResponseView::Waiting(r@),
            Response::Suspended(r) => ResponseView::Suspended(r@),
            Response::Refused => ResponseView::Refused,
            Response::Accepted(a) => ResponseView::Accepted {
                source: a.source,
                types: a.types.deep_view(),
                destroy: a.destroy,
            },
        }
    }
}

/// How the attempt to read a text went.
pub enum Opening {
    /// It is being read.
    Opened,
    /// No channel could be made.
    NotPaired,
    /// The channel could not be set up.
    NotReady,
    /// The channel could not be watched.
    NotRegistered,
}

/// Whether the clipboard goes on.
pub enum Life {
    Goes,
    /// The compositor has told what it has.
    Told(Vec<String>),
    Failed(&'static str),
}

/// Whether a type of an offer matters.
pub open spec fn matters(mime: Seq<char>, marker: Seq<char>) -> bool {
    is_plain(mime) || mime == sensitive() || mime == marker
}

/// `version`, but no higher than what is known here.
pub open spec fn known_version(version: u32) -> u32 {
    if version > 2 {
        2
    } else {
        version
    }
}

impl StateView {
    /// The compositor has an interface.
    pub open spec fn with_global(self, interface: Seq<char>, version: u32) -> StateView {
        StateView {
            globals: self.globals.push(interface + " v"@ + text::decimal_of(version as nat)),
            manager: self.manager || (!self.probe && interface
                == "zwlr_data_control_manager_v1"@),
            seat: self.seat || (!self.probe && interface == "wl_seat"@),
            ..self
        }
    }

    /// What to bind of an interface.
    pub open spec fn bind(self, interface: Seq<char>, version: u32) -> Option<Bind> {
        if self.probe {
            None
        } else if interface == "zwlr_data_control_manager_v1"@ && !self.manager {
            Some(Bind::Manager(known_version(version)))
        } else if interface == "wl_seat"@ && !self.seat {
            Some(Bind::Seat(known_version(version)))
        } else {
            None
        }
    }

    /// An offer has another type.
    pub open spec fn with_type(self, offer: u64, mime: Seq<char>) -> StateView {
        let types = self.types(offer);
        StateView {
            offers: self.offers.insert(
                offer,
                if matters(mime, self.marker) && !types.contains(mime) {
                    types.push(mime)
                } else {
                    types
                },
            ),
            ..self
        }
    }

    /// Whether a text from the phone can be selected.
    pub open spec fn admits(self, revision: u64, closed: bool) -> bool {
        revision == self.snapshot.revision && self.snapshot.ready && !closed
    }

    /// The types that a text from the phone is offered in: it is marked as a
    /// secret, so that it is not kept elsewhere, and as the bridge's own.
    pub open spec fn own_types(self) -> Seq<Seq<char>> {
        plain().push(sensitive()).push(self.marker)
    }

    /// The state after a request, and what comes of it.
    pub open spec fn requested(self, request: Request) -> (StateView, ResponseView) {
        match request {
            Request::Baseline => {
                let s = StateView { monitoring: true, ..self };
                let (t, r) = s.received(s.selected);
                (t, ResponseView::Waiting(r))
            },
            Request::Suspend => {
                let s = StateView { monitoring: false, ..self };
                let (t, r) = s.received(s.selected);
                (t, ResponseView::Suspended(r))
            },
            Request::Write { revision, data, closed } => if !self.admits(revision, closed) {
                (self, ResponseView::Refused)
            } else {
                let name = after(self.names);
                (
                    StateView { source: Some((name, data@)), names: name, ..self },
                    ResponseView::Accepted {
                        source: name,
                        types: self.own_types(),
                        destroy: match self.source {
                            Some((n, _)) => Some(n),
                            None => None,
                        },
                    },
                )
            },
        }
    }

    /// The state after the attempt to read a text, before anything is published.
    pub open spec fn opened(self, opening: Opening) -> StateView {
        match opening {
            Opening::Opened => StateView {
                transfer: true,
                snapshot: SnapshotView { ready: false, ..self.snapshot },
                ..self
            },
            Opening::NotPaired => StateView {
                failed: Some("Cannot open clipboard transfer"@),
                ..self
            },
            Opening::NotReady => StateView {
                failed: Some("Cannot open clipboard transfer"@),
                ..self
            },
            Opening::NotRegistered => StateView {
                failed: Some("Cannot register clipboard transfer"@),
                ..self
            },
        }
    }

    /// The text of the snapshot with this revision has been read.
    pub open spec fn with_text(self, revision: u64, data: Option<Seq<u8>>) -> StateView {
        if revision == self.snapshot.revision {
            StateView { snapshot: SnapshotView { data, ready: true, ..self.snapshot }, ..self }
        } else {
            self
        }
    }
}

impl State {
    /// The compositor has an interface.
    pub fn global(&mut self, interface: &str, version: u32) -> (r: Option<Bind>)
        ensures
            final(self)@ == old(self)@.with_global(interface@, version),
            r == old(self)@.bind(interface@, version),
    {
        let line = text::pair(&text::pair(interface, " v"), &text::decimal(version as u64));
        let ghost v = line@;
        self.globals.push(line);
        assert(self.globals.deep_view() =~= old(self).globals.deep_view().push(v));
        if self.probe {
            return None;
        }
        let version: u32 = if version > 2 {
            2
        } else {
            version
        };
        if text::same(interface, "zwlr_data_control_manager_v1") {
            proof {
                reveal_strlit("zwlr_data_control_manager_v1");
                reveal_strlit("wl_seat");
                assert("zwlr_data_control_manager_v1"@.len() != "wl_seat"@.len());
            }
            if !self.manager {
                self.manager = true;
                return Some(Bind::Manager(version));
            }
        } else if text::same(interface, "wl_seat") {
            if !self.seat {
                self.seat = true;
                return Some(Bind::Seat(version));
            }
        }
        None
    }

    /// The compositor has told all that it has. Says whether the clipboard of the
    /// seat is to be opened.
    pub fn globals_done(&mut self) -> (r: bool)
        ensures
            r == (!old(self)@.probe && old(self)@.manager && old(self)@.seat),
            final(self)@ == if old(self)@.probe {
                StateView { initialized: true, ..old(self)@ }
            } else if r {
                old(self)@
            } else {
                StateView {
                    failed: Some(
                        "Compositor lacks wlr-data-control or a seat; use supported Hyprland and restart the bridge"@,
                    ),
                    ..old(self)@
                }
            },
    {
        if self.probe {
            self.initialized = true;
            return false;
        }
        if self.manager && self.seat {
            true
        } else {
            self.failed =
            Some(
                "Compositor lacks wlr-data-control or a seat; use supported Hyprland and restart the bridge",
            );
            false
        }
    }

    /// The clipboard has told its first selection.
    pub fn initialize(&mut self) -> (r: Publication)
        ensures
            final(self)@ == (StateView { initialized: true, ..old(self)@ }),
            r@ == (StateView { initialized: true, ..old(self)@ }).publication(),
    {
        self.initialized = true;
        self.publish()
    }

    /// Whether requests are taken.
    pub fn accepts_requests(&self) -> (r: bool)
        ensures
            r == self@.initialized,
    {
        self.initialized
    }

    fn own_types(&self) -> (r: Vec<String>)
        ensures
            r.deep_view() == self@.own_types(),
    {
        let types = [
            "text/plain;charset=utf-8",
            "text/plain;charset=UTF-8",
            "text/plain",
            "UTF8_STRING",
            "x-kde-passwordManagerHint",
            self.marker.as_str(),
        ];
        assert(types.deep_view() =~= self@.own_types());
        text::own_all(&types)
    }

    /// Takes a request.
    pub fn request(&mut self, request: Request) -> (r: Response)
        ensures
            (final(self)@, r@) == old(self)@.requested(request),
    {
        match request {
            Request::Baseline => {
                self.monitoring = true;
                let selected = self.selected;
                Response::Waiting(self.receive(selected))
            },
            Request::Suspend => {
                self.monitoring = false;
                let selected = self.selected;
                Response::Suspended(self.receive(selected))
            },
            Request::Write { revision, data, closed } => {
                if revision != self.snapshot.revision || !self.snapshot.ready || closed {
                    return Response::Refused;
                }
                let source: u64 = next(self.names);
                self.names = source;
                let types = self.own_types();
                let destroy = match &self.source {
                    Some((n, _)) => Some(*n),
                    None => None,
                };
                self.source = Some((source, data));
                Response::Accepted(Acceptance { source, types, destroy })
            },
        }
    }

    /// There is an offer. Gives it a name.
    pub fn offered(&mut self) -> (r: u64)
        ensures
            r == after(old(self)@.names),
            final(self)@ == (StateView {
                offers: old(self)@.offers.insert(r, Seq::empty()),
                names: r,
                ..old(self)@
            }),
    {
        let name: u64 = next(self.names);
        self.names = name;
        let none: Vec<String> = Vec::new();
        assert(none.deep_view() =~= Seq::empty());
        self.offers.insert(name, none);
        assert(types_in(self.offers@) =~= types_in(old(self).offers@).insert(name, Seq::empty()));
        name
    }

    /// An offer has another type. Only the types that matter are kept.
    pub fn typed(&mut self, offer: u64, mime: &str)
        ensures
            final(self)@ == old(self)@.with_type(offer, mime@),
    {
        let mut types = self.types(offer);
        let ghost before = types.deep_view();
        if (plain_type(mime) || text::same(mime, "x-kde-passwordManagerHint") || text::same(
            mime,
            &self.marker,
        )) && !holds(&types, mime) {
            types.push(mime.to_owned());
            assert(types.deep_view() =~= before.push(mime@));
        }
        let ghost now = types.deep_view();
        self.offers.insert(offer, types);
        assert(types_in(self.offers@) =~= types_in(old(self).offers@).insert(offer, now));
    }

    /// An offer, or nothing, is selected.
    pub fn selection(&mut self, offer: Option<u64>) -> (r: Reception)
        ensures
            (final(self)@, r@) == old(self)@.received(offer),
    {
        self.receive(offer)
    }

    /// An offer is the primary selection, which is of no concern.
    pub fn primary(&mut self, offer: u64)
        ensures
            final(self)@ == (StateView { offers: old(self)@.offers.remove(offer), ..old(self)@ }),
    {
        self.drop_offer(offer);
    }

    /// The compositor has taken the clipboard away.
    pub fn finished(&mut self)
        ensures
            final(self)@ == (StateView {
                failed: Some("Wayland clipboard access ended; restart the bridge"@),
                ..old(self)@
            }),
    {
        self.failed = Some("Wayland clipboard access ended; restart the bridge");
    }

    /// A text is being read, or could not be.
    pub fn opening(&mut self, opening: Opening) -> (r: Option<Publication>)
        ensures
            match r {
                Some(p) => (opening is Opened || opening is NotPaired) && p@ == old(self)@.opened(
                    opening,
                ).publication(),
                None => opening is NotReady || opening is NotRegistered,
            },
            final(self)@ == old(self)@.opened(opening),
    {
        match opening {
            Opening::Opened => {
                self.snapshot.ready = false;
                self.transfer = true;
                Some(self.publish())
            },
            Opening::NotPaired => {
                self.failed = Some("Cannot open clipboard transfer");
                Some(self.publish())
            },
            Opening::NotReady => {
                self.failed = Some("Cannot open clipboard transfer");
                None
            },
            Opening::NotRegistered => {
                self.failed = Some("Cannot register clipboard transfer");
                None
            },
        }
    }

    /// The text of the snapshot with this revision has been read. A text that comes
    /// after the next selection is dropped.
    pub fn transferred(&mut self, revision: u64, data: Option<Vec<u8>>) -> (r: Option<Publication>)
        ensures
            final(self)@ == old(self)@.with_text(revision, content(data)),
            match r {
                Some(p) => revision == old(self)@.snapshot.revision && p@ == old(self)@.with_text(
                    revision,
                    content(data),
                ).publication(),
                None => revision != old(self)@.snapshot.revision,
            },
    {
        if revision == self.snapshot.revision {
            self.snapshot.data = data;
            self.snapshot.ready = true;
            Some(self.publish())
        } else {
            None
        }
    }

    /// The compositor does not want a source any more.
    pub fn cancelled(&mut self, source: u64)
        ensures
            final(self)@ == (StateView {
                source: match old(self)@.source {
                    Some((n, d)) => if n == source {
                        None
                    } else {
                        Some((n, d))
                    },
                    None => None,
                },
                ..old(self)@
            }),
    {
        let current = match &self.source {
            Some((n, _)) => *n == source,
            None => false,
        };
        if current {
            self.source = None;
        }
    }

    /// Whether the clipboard goes on.
    pub fn life(&self) -> (r: Life)
        ensures
            match r {
                Life::Failed(e) => self@.failed == Some(e@),
                Life::Told(globals) => self@.failed is None && self@.probe && self@.initialized
                    && globals.deep_view() == self@.globals,
                Life::Goes => self@.failed is None && !(self@.probe && self@.initialized),
            },
    {
        match self.failed {
            Some(e) => Life::Failed(e),
            None => if self.probe && self.initialized {
                Life::Told(text::copy_all(&self.globals))
            } else {
                Life::Goes
            },
        }
    }
}

// ---------------------------------------------------------------------------
// Texts
// ---------------------------------------------------------------------------
/// What is kept of a text that was read: nothing where it could not be read in time
/// or may not be shared.
pub fn transfer_data(read: Option<Vec<u8>>) -> (r: Option<Vec<u8>>)
    ensures
        content(r) == match read {
            Some(d) => if protocol::is_valid(d@) {
                Some(d@)
            } else {
                None
            },
            None => None,
        },
{
    match read {
        Some(d) => if valid(&d) {
            Some(d)
        } else {
            None
        },
        None => None,
    }
}

/// How many texts are handed out at a time.
pub const MAX_SENDS: usize = 16;

/// What is handed out of the source with the text `data` in the type `mime`, while
/// `sends` texts are being handed out.
pub fn outgoing(data: &[u8], mime: &str, sends: usize) -> (r: Option<Vec<u8>>)
    ensures
        content(r) == if sends >= MAX_SENDS {
            None
        } else if is_plain(mime@) {
            Some(data@)
        } else if mime@ == sensitive() {
            Some(encode_utf8("secret"@))
        } else {
            Some(Seq::empty())
        },
{
    if sends >= MAX_SENDS {
        return None;
    }
    if plain_type(mime) {
        Some(slice_to_vec(data))
    } else if text::same(mime, "x-kde-passwordManagerHint") {
        Some(slice_to_vec("secret".as_bytes()))
    } else {
        Some(Vec::new())
    }
}

/// How far a text has been handed out.
#[derive(Debug, PartialEq, Eq)]
pub enum Sending {
    /// This much of it.
    More(usize),
    /// All of it.
    Done,
    /// No further: nothing is taken any more.
    Stalled,
}

/// How far a text of `len` bytes has been handed out after `n` more bytes were
/// taken, where any could be, of those behind `offset`.
pub fn sending(len: usize, offset: usize, n: Option<usize>) -> (r: Sending)
    requires
        offset <= len,
        n matches Some(k) ==> offset + k <= len,
    ensures
        r == match n {
            Some(k) => if offset == len {
                Sending::Done
            } else if k == 0 {
                Sending::Stalled
            } else if offset + k == len {
                Sending::Done
            } else {
                Sending::More((offset + k) as usize)
            },
            None => if offset == len {
                Sending::Done
            } else {
                Sending::More(offset)
            },
        },
{
    if offset == len {
        return Sending::Done;
    }
    match n {
        Some(k) => if k == 0 {
            Sending::Stalled
        } else if offset + k == len {
            Sending::Done
        } else {
            Sending::More(offset + k)
        },
        None => Sending::More(offset),
    }
}

// ---------------------------------------------------------------------------
// Asking the clipboard
// ---------------------------------------------------------------------------
/// What became of a question to the clipboard.
pub enum Delivery<T> {
    /// It could not be put.
    NotSent,
    /// No answer came in time.
    TimedOut,
    /// It was dropped.
    Dropped,
    /// This is the answer.
    Answered(Result<T, &'static str>),
}

/// The clipboard of the desktop, as those see it who ask.
pub struct Clipboard {}

impl Clipboard {
    /// The first snapshot of a session.
    pub fn baseline(delivery: Delivery<Snapshot>) -> (r: Result<Snapshot, &'static str>)
        ensures
            match delivery {
                Delivery::NotSent => r matches Err(e) && e@ == "Wayland clipboard closed"@,
                Delivery::TimedOut => r matches Err(e) && e@ == "Wayland baseline timed out"@,
                Delivery::Dropped => r matches Err(e) && e@ == "Wayland clipboard closed"@,
                Delivery::Answered(a) => r == a,
            },
    {
        match delivery {
            Delivery::NotSent => Err("Wayland clipboard closed"),
            Delivery::TimedOut => Err("Wayland baseline timed out"),
            Delivery::Dropped => Err("Wayland clipboard closed"),
            Delivery::Answered(a) => a,
        }
    }

    /// Asks for a text to be selected, which must be one that may be shared.
    pub fn write(revision: u64, data: &[u8]) -> (r: Result<Request, &'static str>)
        ensures
            match r {
                Ok(q) => protocol::is_valid(data@) && (q matches Request::Write {
                    revision: n,
                    data: d,
                    closed,
                } && n == revision && d@ == data@ && !closed),
                Err(e) => !protocol::is_valid(data@) && e@ == "Invalid clipboard text"@,
            },
    {
        if !valid(data) {
            return Err("Invalid clipboard text");
        }
        Ok(Request::Write { revision, data: slice_to_vec(data), closed: false })
    }

    /// Whether the text was selected.
    pub fn written(delivery: Delivery<bool>) -> (r: Result<bool, &'static str>)
        ensures
            match delivery {
                Delivery::NotSent => r matches Err(e) && e@ == "Wayland clipboard closed"@,
                Delivery::TimedOut => r matches Err(e) && e@
                    == "Wayland clipboard write timed out"@,
                Delivery::Dropped => r matches Err(e) && e@ == "Wayland clipboard closed"@,
                Delivery::Answered(a) => r == a,
            },
    {
        match delivery {
            Delivery::NotSent => Err("Wayland clipboard closed"),
            Delivery::TimedOut => Err("Wayland clipboard write timed out"),
            Delivery::Dropped => Err("Wayland clipboard closed"),
            Delivery::Answered(a) => a,
        }
    }
}

// ---------------------------------------------------------------------------
// Laws
// ---------------------------------------------------------------------------
/// A secret is not read.
pub proof fn law_secrets_are_not_read(s: StateView, offer: u64)
    requires
        s.types(offer).contains(sensitive()),
    ensures
        s.transfer_of(Some(offer)) is None,
        !s.types(offer).contains(s.marker) ==> s.snapshot_of(Some(offer)).data is None,
{
}

/// While the clipboard is suspended nothing is read, and no text is published but
/// the bridge's own.
pub proof fn law_suspended_clipboard_reads_nothing(s: StateView, selected: Option<u64>)
    requires
        !s.monitoring,
    ensures
        s.received(selected).1.transfer is None,
        !s.received(selected).0.snapshot.own ==> s.received(selected).0.snapshot.data is None,
{
}

/// Every selection has a revision of its own, so that what was asked for the last
/// one does not meet the new one: a text from the phone is refused, and a text that
/// is still being read is dropped.
pub proof fn law_selection_outdates_requests(
    s: StateView,
    selected: Option<u64>,
    data: Vec<u8>,
    closed: bool,
)
    ensures
        ({
            let revision = s.snapshot.revision;
            let t = s.received(selected).0;
            &&& t.snapshot.revision != revision
            &&& t.requested(Request::Write { revision, data, closed }) == (t, ResponseView::Refused)
            &&& t.with_text(revision, Some(data@)) == t
        }),
{
}

/// A text that the bridge put on the clipboard is known as its own when it is
/// selected: `later` is any state in which its source is still the last one.
pub proof fn law_own_text_is_recognised(
    s: StateView,
    revision: u64,
    data: Vec<u8>,
    closed: bool,
    later: StateView,
    offer: u64,
)
    requires
        s.admits(revision, closed),
        later.source == s.requested(Request::Write { revision, data, closed }).0.source,
        later.types(offer).contains(later.marker),
    ensures
        ({
            let u = later.received(Some(offer)).0.snapshot;
            u.own && u.data == Some(data@) && u.ready
        }),
        s.own_types().contains(s.marker),
{
    assert(s.own_types()[5] == s.marker);
    let kept = StateView {
        offers: later.offers_after(Some(offer)),
        selected: Some(offer),
        ..later
    };
    assert(kept.types(offer) == later.types(offer));
}

impl StateView {
    /// Of each offer only the types that matter are kept, each once.
    pub open spec fn is_lean(self) -> bool {
        forall|k: u64| #[trigger]
            self.offers.contains_key(k) ==> {
                &&& self.offers[k].no_duplicates()
                &&& forall|i: int|
                    0 <= i < self.offers[k].len() ==> matters(
                        #[trigger] self.offers[k][i],
                        self.marker,
                    )
            }
    }
}

/// However many types an offer has, no more than six of them are kept.
pub proof fn law_offers_stay_small(s: StateView, offer: u64, mime: Seq<char>)
    requires
        s.is_lean(),
    ensures
        s.with_type(offer, mime).is_lean(),
        s.with_type(offer, mime).types(offer).len() <= 6,
{
    let t = s.with_type(offer, mime);
    let before = s.types(offer);
    let now = t.types(offer);
    assert(before.no_duplicates());
    assert(now.no_duplicates());
    assert(forall|i: int| 0 <= i < now.len() ==> matters(#[trigger] now[i], s.marker));
    assert forall|k: u64| #[trigger] t.offers.contains_key(k) implies {
        &&& t.offers[k].no_duplicates()
        &&& forall|i: int|
            0 <= i < t.offers[k].len() ==> matters(#[trigger] t.offers[k][i], t.marker)
    } by {
        if k != offer {
            assert(s.offers.contains_key(k));
        }
    }
    let all = set![
        plain()[0],
        plain()[1],
        plain()[2],
        plain()[3],
        sensitive(),
        s.marker,
    ];
    now.unique_seq_to_set();
    assert forall|m: Seq<char>| now.to_set().contains(m) implies all.contains(m) by {
        assert(now.contains(m));
    }
    vstd::set_lib::lemma_len_subset(now.to_set(), all);
    assert(all.len() <= 6);
}

/// A selection keeps the offers lean.
pub proof fn law_selections_keep_offers_small(s: StateView, selected: Option<u64>)
    requires
        s.is_lean(),
    ensures
        s.received(selected).0.is_lean(),
{
    assert forall|k: u64| #[trigger]
        s.received(selected).0.offers.contains_key(k) implies s.offers.contains_key(k) by {}
}

/// Whether a type is one by which the bridge decides: plain text in one of four
/// spellings, the mark of a secret, or the mark of the bridge's own sources.
pub open spec fn decides(mime: Seq<char>, marker: Seq<char>) -> bool {
    ||| mime == "text/plain;charset=utf-8"@
    ||| mime == "text/plain;charset=UTF-8"@
    ||| mime == "text/plain"@
    ||| mime == "UTF8_STRING"@
    ||| mime == "x-kde-passwordManagerHint"@
    ||| mime == marker
}

/// The state after an offer was announced with the types `mimes`, one after another.
pub open spec fn announced(s: StateView, offer: u64, mimes: Seq<Seq<char>>) -> StateView
    decreases mimes.len(),
{
    if mimes.len() == 0 {
        s
    } else {
        announced(s, offer, mimes.drop_last()).with_type(offer, mimes.last())
    }
}

/// Of a type that is announced nothing is lost: the types that were kept stay, and
/// the new one is kept too where the bridge decides by it. No other offer and nothing
/// else changes.
pub proof fn law_types_are_collected(s: StateView, offer: u64, mime: Seq<char>)
    ensures
        ({
            let t = s.with_type(offer, mime);
            &&& forall|m: Seq<char>| #[trigger]
                t.types(offer).contains(m) <==> s.types(offer).contains(m) || (m == mime
                    && decides(mime, s.marker))
            &&& forall|o: u64| o != offer ==> #[trigger] t.types(o) == s.types(o)
            &&& t == (StateView { offers: t.offers, ..s })
        }),
{
    let t = s.with_type(offer, mime);
    let before = s.types(offer);
    assert forall|m: Seq<char>| #[trigger] t.types(offer).contains(m) <==> before.contains(m) || (m
        == mime && decides(mime, s.marker)) by {
        crate::lists::lemma_push_contains(before, mime, m);
    }
}

proof fn lemma_announced(s: StateView, offer: u64, mimes: Seq<Seq<char>>)
    ensures
        ({
            let t = announced(s, offer, mimes);
            &&& forall|m: Seq<char>| #[trigger]
                t.types(offer).contains(m) <==> s.types(offer).contains(m) || (mimes.contains(m)
                    && decides(m, s.marker))
            &&& forall|o: u64| o != offer ==> #[trigger] t.types(o) == s.types(o)
            &&& t == (StateView { offers: t.offers, ..s })
        }),
    decreases mimes.len(),
{
    if mimes.len() > 0 {
        let rest = mimes.drop_last();
        let last = mimes.last();
        let u = announced(s, offer, rest);
        lemma_announced(s, offer, rest);
        law_types_are_collected(u, offer, last);
        let t = announced(s, offer, mimes);
        assert(mimes == rest.push(last));
        assert forall|m: Seq<char>| #[trigger]
            t.types(offer).contains(m) <==> s.types(offer).contains(m) || (mimes.contains(m)
                && decides(m, s.marker)) by {
            crate::lists::lemma_push_contains(rest, last, m);
            assert(t.types(offer).contains(m) <==> u.types(offer).contains(m) || (m == last
                && decides(last, s.marker)));
        }
    }
}

/// The best type of plain text that an offer was announced with.
pub open spec fn best_announced(mimes: Seq<Seq<char>>) -> Option<Seq<char>> {
    if mimes.contains("text/plain;charset=utf-8"@) {
        Some("text/plain;charset=utf-8"@)
    } else if mimes.contains("text/plain;charset=UTF-8"@) {
        Some("text/plain;charset=UTF-8"@)
    } else if mimes.contains("text/plain"@) {
        Some("text/plain"@)
    } else if mimes.contains("UTF8_STRING"@) {
        Some("UTF8_STRING"@)
    } else {
        None
    }
}

/// A new offer that is announced with any types in any order and then selected is
/// read in the best type of plain text among all of them, under the new revision.
/// One that was announced as a secret is not read, nor is any while selections are
/// not read, nor the bridge's own. Where nothing is read, a complete snapshot without
/// a text is published at once, or one with the bridge's own text.
pub proof fn law_announced_offers_are_read(s: StateView, offer: u64, mimes: Seq<Seq<char>>)
    requires
        s.types(offer).len() == 0,
    ensures
        ({
            let (t, r) = announced(s, offer, mimes).received(Some(offer));
            let read = s.monitoring && !mimes.contains("x-kde-passwordManagerHint"@)
                && !mimes.contains(s.marker) && best_announced(mimes) is Some;
            &&& r.transfer == if read {
                Some(
                    TransferView {
                        offer,
                        mime: best_announced(mimes)->0,
                        revision: t.snapshot.revision,
                    },
                )
            } else {
                None
            }
            &&& r.publish is None <==> read
            &&& t.snapshot.own <==> mimes.contains(s.marker)
            &&& t.snapshot.ready
            &&& t.snapshot.data == if mimes.contains(s.marker) && s.source is Some {
                Some((s.source->0).1)
            } else {
                None
            }
            &&& r.publish matches Some(p) ==> p.snapshot == t.snapshot && p.answer == s.initialized
        }),
{
    let a = announced(s, offer, mimes);
    lemma_announced(s, offer, mimes);
    let kept = StateView { offers: a.offers_after(Some(offer)), selected: Some(offer), ..a };
    assert(kept.types(offer) == a.types(offer));
    let types = a.types(offer);
    assert(!s.types(offer).contains(s.marker));
    assert(types.contains(s.marker) <==> mimes.contains(s.marker));
    assert(types.contains("x-kde-passwordManagerHint"@) <==> mimes.contains(
        "x-kde-passwordManagerHint"@,
    ));
    assert(types.contains("text/plain;charset=utf-8"@) <==> mimes.contains(
        "text/plain;charset=utf-8"@,
    ));
    assert(types.contains("text/plain;charset=UTF-8"@) <==> mimes.contains(
        "text/plain;charset=UTF-8"@,
    ));
    assert(types.contains("text/plain"@) <==> mimes.contains("text/plain"@));
    assert(types.contains("UTF8_STRING"@) <==> mimes.contains("UTF8_STRING"@));
}

/// A selection takes the place of the last one: it has the next revision, ends what
/// was being read, and gives up the offer that was selected, where it is another. The
/// other offers and all else stay.
pub proof fn law_selections_replace_each_other(s: StateView, selected: Option<u64>)
    ensures
        ({
            let (t, r) = s.received(selected);
            &&& t.selected == selected
            &&& t.snapshot.revision == if s.snapshot.revision == u64::MAX {
                0
            } else {
                s.snapshot.revision + 1
            }
            &&& !t.transfer
            &&& r.abort == s.transfer
            &&& r.destroy == if s.selected == selected {
                None
            } else {
                s.selected
            }
            &&& forall|o: u64| #[trigger]
                t.offers.contains_key(o) <==> s.offers.contains_key(o) && r.destroy != Some(o)
            &&& forall|o: u64| #[trigger]
                t.offers.contains_key(o) ==> t.offers[o] == s.offers[o]
            &&& selected is None ==> r.transfer is None && !t.snapshot.own && t.snapshot.data is None
                && t.snapshot.ready
            &&& t == (StateView {
                offers: t.offers,
                selected,
                snapshot: t.snapshot,
                transfer: false,
                ..s
            })
        }),
{
}

/// A text that is read goes from the offer to those who watch: while it is being
/// read the snapshot is not complete and nobody is answered, and once it was read the
/// snapshot holds it, as one that is not the bridge's own, under the revision that it
/// was read for.
pub proof fn law_read_text_is_published(s: StateView, selected: Option<u64>, data: Seq<u8>)
    ensures
        ({
            let (t, r) = s.received(selected);
            let u = t.opened(Opening::Opened);
            r.transfer matches Some(transfer) ==> {
                &&& Some(transfer.offer) == selected
                &&& u.transfer && !u.snapshot.ready && !u.publication().answer
                &&& u.publication().snapshot == u.snapshot
                &&& u.snapshot.revision == transfer.revision
                &&& u.with_text(transfer.revision, Some(data)).snapshot == (SnapshotView {
                    revision: transfer.revision,
                    data: Some(data),
                    own: false,
                    ready: true,
                })
                &&& u.with_text(transfer.revision, None).snapshot == (SnapshotView {
                    revision: transfer.revision,
                    data: None,
                    own: false,
                    ready: true,
                })
                &&& u.with_text(transfer.revision, Some(data)).publication().answer
                    == s.initialized
            }
        }),
{
}

/// A text that was read changes the snapshot that it was read for and nothing else,
/// and any other not at all. A text that cannot be read makes the clipboard fail.
pub proof fn law_texts_meet_their_snapshot(s: StateView, revision: u64, data: Option<Seq<u8>>)
    ensures
        revision != s.snapshot.revision ==> s.with_text(revision, data) == s,
        revision == s.snapshot.revision ==> s.with_text(revision, data) == (StateView {
            snapshot: SnapshotView { data, ready: true, ..s.snapshot },
            ..s
        }),
        s.opened(Opening::NotPaired) == (StateView {
            failed: Some("Cannot open clipboard transfer"@),
            ..s
        }),
        s.opened(Opening::NotReady) == s.opened(Opening::NotPaired),
        s.opened(Opening::NotRegistered) == (StateView {
            failed: Some("Cannot register clipboard transfer"@),
            ..s
        }),
{
}

/// A baseline is a selection of what is selected already, read from now on; to
/// suspend is the same with nothing read from now on. So the revision moves on and
/// nothing that was asked before is met.
pub proof fn law_baselines_select_again(s: StateView)
    ensures
        ({
            let on = StateView { monitoring: true, ..s };
            let off = StateView { monitoring: false, ..s };
            &&& s.requested(Request::Baseline) == (
                on.received(s.selected).0,
                ResponseView::Waiting(on.received(s.selected).1),
            )
            &&& s.requested(Request::Suspend) == (
                off.received(s.selected).0,
                ResponseView::Suspended(off.received(s.selected).1),
            )
            &&& s.requested(Request::Baseline).0.monitoring
            &&& !s.requested(Request::Suspend).0.monitoring
            &&& s.requested(Request::Baseline).0.offers == s.offers
        }),
{
}

/// A text from the phone is put on the clipboard exactly where the one who asks still
/// waits and the selection is complete and the one that was last seen there. It gets
/// a new source, which takes the place of the last one, and is offered as plain text
/// in every spelling, as a secret and as the bridge's own. The snapshot stays.
pub proof fn law_phone_texts_are_offered(
    s: StateView,
    revision: u64,
    data: Vec<u8>,
    closed: bool,
)
    ensures
        ({
            let (t, r) = s.requested(Request::Write { revision, data, closed });
            let taken = revision == s.snapshot.revision && s.snapshot.ready && !closed;
            &&& !taken ==> t == s && r is Refused
            &&& taken ==> {
                &&& r matches ResponseView::Accepted { source, types, destroy } && {
                    &&& types == seq![
                        "text/plain;charset=utf-8"@,
                        "text/plain;charset=UTF-8"@,
                        "text/plain"@,
                        "UTF8_STRING"@,
                        "x-kde-passwordManagerHint"@,
                        s.marker,
                    ]
                    &&& source == if s.names == u64::MAX {
                        0
                    } else {
                        s.names + 1
                    }
                    &&& destroy == match s.source {
                        Some(old_source) => Some(old_source.0),
                        None => None,
                    }
                    &&& t == (StateView { source: Some((source, data@)), names: source, ..s })
                }
            }
        }),
{
    assert(s.own_types() =~= seq![
        "text/plain;charset=utf-8"@,
        "text/plain;charset=UTF-8"@,
        "text/plain"@,
        "UTF8_STRING"@,
        "x-kde-passwordManagerHint"@,
        s.marker,
    ]);
}

/// A text that was put on the clipboard comes back as the bridge's own, whole: an
/// offer that is announced with the types that it was offered in, and selected next,
/// is not read, and the snapshot holds the text.
pub proof fn law_own_text_comes_back(
    s: StateView,
    revision: u64,
    data: Vec<u8>,
    offer: u64,
)
    requires
        s.snapshot.revision == revision,
        s.snapshot.ready,
        s.types(offer).len() == 0,
    ensures
        ({
            let (t, r) = s.requested(Request::Write { revision, data, closed: false });
            r matches ResponseView::Accepted { types, .. } && {
                let (u, q) = announced(t, offer, types).received(Some(offer));
                q.transfer is None && u.snapshot.own && u.snapshot.ready && u.snapshot.data == Some(
                    data@,
                )
            }
        }),
{
    let (t, r) = s.requested(Request::Write { revision, data, closed: false });
    law_phone_texts_are_offered(s, revision, data, false);
    if let ResponseView::Accepted { types, .. } = r {
        assert(types[5] == s.marker);
        assert(types.contains(s.marker));
        assert(t.types(offer) == s.types(offer));
        law_announced_offers_are_read(t, offer, types);
    }
}

/// The types of plain text are these four, and a secret is told by this one.
pub proof fn law_types_of_content(mime: Seq<char>)
    ensures
        is_plain(mime) <==> {
            ||| mime == "text/plain;charset=utf-8"@
            ||| mime == "text/plain;charset=UTF-8"@
            ||| mime == "text/plain"@
            ||| mime == "UTF8_STRING"@
        },
        sensitive() == "x-kde-passwordManagerHint"@,
        MAX_SENDS == 16,
{
}

/// The clipboard manager and a seat are bound, each the first time that the
/// compositor tells of it, in the second version at most; nothing is bound where the
/// compositor is only asked what it has. All that it has is listed.
pub proof fn law_interfaces_are_bound_once(
    s: StateView,
    interface: Seq<char>,
    version: u32,
    again: u32,
)
    ensures
        ({
            let t = s.with_global(interface, version);
            let v: u32 = if version <= 2 {
                version
            } else {
                2
            };
            &&& s.bind(interface, version) == if !s.probe && interface
                == "zwlr_data_control_manager_v1"@ && !s.manager {
                Some(Bind::Manager(v))
            } else if !s.probe && interface == "wl_seat"@ && interface
                != "zwlr_data_control_manager_v1"@ && !s.seat {
                Some(Bind::Seat(v))
            } else {
                None
            }
            &&& t.bind(interface, again) is None
            &&& t.manager <==> s.manager || (s.bind(interface, version) matches Some(
                Bind::Manager(_),
            ))
            &&& t.seat <==> s.seat || (s.bind(interface, version) matches Some(Bind::Seat(_)))
            &&& t.globals == s.globals.push(interface + " v"@ + text::decimal_of(version as nat))
            &&& t == (StateView { manager: t.manager, seat: t.seat, globals: t.globals, ..s })
        }),
{
    reveal_strlit("zwlr_data_control_manager_v1");
    reveal_strlit("wl_seat");
    assert("zwlr_data_control_manager_v1"@.len() != "wl_seat"@.len());
}

/// What is made public is the snapshot as it is, and those who wait for a complete
/// one are answered exactly where it is complete and the compositor has told all.
pub proof fn law_publications_are_the_snapshot(s: StateView)
    ensures
        s.publication().snapshot == s.snapshot,
        s.publication().answer <==> s.initialized && s.snapshot.ready,
{
}

} // verus!
