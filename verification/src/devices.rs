//! The transports that the bridge's server lists.
use crate::lists;
use crate::text;
use vstd::prelude::*;

verus! {

// ---------------------------------------------------------------------------
// Devices
// ---------------------------------------------------------------------------
/// One transport that the server lists.
#[derive(Debug, PartialEq, Eq)]
pub struct Device {
    pub serial: String,
    pub state: String,
    pub model: String,
    pub transport: String,
    pub id: String,
    pub identity: Option<String>,
    pub connections: Vec<String>,
}

/// What a [`Device`] holds.
pub struct DeviceView {
    pub serial: Seq<char>,
    pub state: Seq<char>,
    pub model: Seq<char>,
    pub transport: Seq<char>,
    pub id: Seq<char>,
    pub identity: Option<Seq<char>>,
    pub connections: Seq<Seq<char>>,
}

impl View for Device {
    type V = DeviceView;

    open spec fn view(&self) -> DeviceView {
        DeviceView {
            serial: self.serial@,
            state: self.state@,
            model: self.model@,
            transport: self.transport@,
            id: self.id@,
            identity: self.identity.deep_view(),
            connections: self.connections.deep_view(),
        }
    }
}

impl DeepView for Device {
    type V = DeviceView;

    open spec fn deep_view(&self) -> DeviceView {
        self@
    }
}

impl Clone for Device {
    fn clone(&self) -> (r: Self)
        ensures
            r@ == self@,
    {
        Device {
            serial: self.serial.clone(),
            state: self.state.clone(),
            model: self.model.clone(),
            transport: self.transport.clone(),
            id: self.id.clone(),
            identity: text::copy(&self.identity),
            connections: text::copy_all(&self.connections),
        }
    }
}

impl Device {
    /// The serial and transport id, which together name one transport.
    pub fn key(&self) -> (r: (&str, &str))
        ensures
            r.0@ == self@.serial,
            r.1@ == self@.id,
    {
        (self.serial.as_str(), self.id.as_str())
    }
}

fn same_texts(a: &Vec<String>, b: &Vec<String>) -> (r: bool)
    ensures
        r == (a.deep_view() == b.deep_view()),
{
    if a.len() != b.len() {
        assert(a.deep_view().len() != b.deep_view().len());
        return false;
    }
    let mut i: usize = 0;
    while i < a.len()
        invariant
            i <= a@.len(),
            a@.len() == b@.len(),
            forall|j: int| 0 <= j < i ==> a@[j]@ == b@[j]@,
        decreases a@.len() - i,
    {
        if !text::same(&a[i], &b[i]) {
            assert(a.deep_view()[i as int] != b.deep_view()[i as int]);
            return false;
        }
        i += 1;
    }
    assert(a.deep_view() =~= b.deep_view());
    true
}

fn same_option(a: &Option<String>, b: &Option<String>) -> (r: bool)
    ensures
        r == (a.deep_view() == b.deep_view()),
{
    match (a, b) {
        (Some(x), Some(y)) => text::same(x, y),
        (None, None) => true,
        _ => false,
    }
}

/// Whether two transports are the same in every respect.
pub fn same(a: &Device, b: &Device) -> (r: bool)
    ensures
        r == (a@ == b@),
{
    text::same(&a.serial, &b.serial) && text::same(&a.state, &b.state) && text::same(
        &a.model,
        &b.model,
    ) && text::same(&a.transport, &b.transport) && text::same(&a.id, &b.id) && same_option(
        &a.identity,
        &b.identity,
    ) && same_texts(&a.connections, &b.connections)
}

/// Whether two lists of transports are the same.
pub fn same_all(a: &Vec<Device>, b: &Vec<Device>) -> (r: bool)
    ensures
        r == (a.deep_view() == b.deep_view()),
{
    if a.len() != b.len() {
        assert(a.deep_view().len() != b.deep_view().len());
        return false;
    }
    let mut i: usize = 0;
    while i < a.len()
        invariant
            i <= a@.len(),
            a@.len() == b@.len(),
            forall|j: int| 0 <= j < i ==> a@[j]@ == b@[j]@,
        decreases a@.len() - i,
    {
        if !same(&a[i], &b[i]) {
            assert(a.deep_view()[i as int] != b.deep_view()[i as int]);
            return false;
        }
        i += 1;
    }
    assert(a.deep_view() =~= b.deep_view());
    true
}

/// A copy of a list of transports.
pub fn copy_all(ds: &Vec<Device>) -> (r: Vec<Device>)
    ensures
        r.deep_view() == ds.deep_view(),
{
    let mut out: Vec<Device> = Vec::new();
    let mut i: usize = 0;
    while i < ds.len()
        invariant
            i <= ds@.len(),
            out.deep_view() == ds.deep_view().take(i as int),
        decreases ds@.len() - i,
    {
        let ghost before = out.deep_view();
        let d = ds[i].clone();
        let ghost v = d@;
        out.push(d);
        assert(out.deep_view() == before.push(v));
        assert(ds.deep_view().take(i + 1) == ds.deep_view().take(i as int).push(v));
        i += 1;
    }
    assert(ds.deep_view().take(i as int) == ds.deep_view());
    out
}

// ---------------------------------------------------------------------------
// The device list
// ---------------------------------------------------------------------------
/// The states in which a transport is listed.
pub open spec fn known_state(state: Seq<char>) -> bool {
    ||| state == "device"@
    ||| state == "offline"@
    ||| state == "unauthorized"@
    ||| state == "authorizing"@
    ||| state == "no permissions"@
}

/// The value of the first word that starts with `key`.
pub open spec fn tagged(words: Seq<Seq<char>>, key: Seq<char>) -> Option<Seq<char>>
    decreases words.len(),
{
    if words.len() == 0 {
        None
    } else {
        match text::strip(words[0], key) {
            Some(v) => Some(v),
            None => tagged(words.drop_first(), key),
        }
    }
}

/// The state that the words of a line give.
pub open spec fn line_state(p: Seq<Seq<char>>) -> Seq<char> {
    if p[1] == "no"@ && p.len() > 2 && p[2] == "permissions"@ {
        "no permissions"@
    } else {
        p[1]
    }
}

/// Whether a serial names a transport over the network.
pub open spec fn is_network_serial(serial: Seq<char>) -> bool {
    serial.contains(':') || text::occurs(serial, "_adb-tls-connect"@)
}

/// The device on one line of the list, if the line holds one.
pub open spec fn device_on(line: Seq<char>) -> Option<DeviceView> {
    let p = text::words_of(line);
    if p.len() < 2 || text::byte_len(p[0]) > 512 || !known_state(line_state(p)) {
        None
    } else {
        Some(
            DeviceView {
                serial: p[0],
                state: line_state(p),
                model: text::replaced(
                    match tagged(p, "model:"@) {
                        Some(m) => m,
                        None => p[0],
                    },
                    '_',
                    ' ',
                ),
                transport: if is_network_serial(p[0]) {
                    "Wi-Fi"@
                } else {
                    "USB"@
                },
                id: match tagged(p, "transport_id:"@) {
                    Some(t) => t,
                    None => Seq::empty(),
                },
                identity: None,
                connections: Seq::empty(),
            },
        )
    }
}

/// The devices on the given lines, in order.
pub open spec fn devices_on(lines: Seq<Seq<char>>) -> Seq<DeviceView>
    decreases lines.len(),
{
    if lines.len() == 0 {
        Seq::empty()
    } else {
        match device_on(lines.last()) {
            Some(d) => devices_on(lines.drop_last()).push(d),
            None => devices_on(lines.drop_last()),
        }
    }
}

/// The most devices that a list is read for.
pub const MAX_DEVICES: usize = 64;

/// The devices in a list: at most [`MAX_DEVICES`], the first ones.
pub open spec fn devices_in(raw: Seq<char>) -> Seq<DeviceView> {
    let all = devices_on(text::split_at_char(raw, '\n'));
    if all.len() <= MAX_DEVICES {
        all
    } else {
        all.take(MAX_DEVICES as int)
    }
}

fn tag(words: &Vec<String>, key: &str) -> (r: Option<String>)
    ensures
        match r {
            Some(v) => tagged(words.deep_view(), key@) == Some(v@),
            None => tagged(words.deep_view(), key@) is None,
        },
{
    let ghost w = words.deep_view();
    let mut i: usize = 0;
    assert(w.skip(0) == w);
    while i < words.len()
        invariant
            i <= words@.len(),
            w == words.deep_view(),
            tagged(w.skip(i as int), key@) == tagged(w, key@),
        decreases words@.len() - i,
    {
        assert(w.skip(i as int)[0] == words@[i as int]@);
        assert(w.skip(i as int).drop_first() == w.skip(i + 1));
        match text::strip_prefix(&words[i], key) {
            Some(v) => {
                return Some(v.to_owned());
            },
            None => {},
        }
        i += 1;
    }
    None
}

fn network_serial(serial: &str) -> (r: bool)
    ensures
        r == is_network_serial(serial@),
{
    text::has_char(serial, ':') || text::contains(serial, "_adb-tls-connect")
}

fn parse_device(line: &str) -> (r: Option<Device>)
    ensures
        r.deep_view() == device_on(line@),
{
    let p = text::words(line);
    let ghost w = text::words_of(line@);
    assert(p.deep_view() == w);
    if p.len() < 2 {
        return None;
    }
    assert(w[0] == p@[0]@ && w[1] == p@[1]@);
    if text::bytes_in(&p[0]) > 512 {
        return None;
    }
    assert(p@.len() > 2 ==> w[2] == p@[2]@);
    let state: &str = if text::same(&p[1], "no") && p.len() > 2 && text::same(
        &p[2],
        "permissions",
    ) {
        "no permissions"
    } else {
        p[1].as_str()
    };
    if !(text::same(state, "device") || text::same(state, "offline") || text::same(
        state,
        "unauthorized",
    ) || text::same(state, "authorizing") || text::same(state, "no permissions")) {
        return None;
    }
    let model = match tag(&p, "model:") {
        Some(m) => text::replace_char(&m, '_', ' '),
        None => text::replace_char(&p[0], '_', ' '),
    };
    let id = match tag(&p, "transport_id:") {
        Some(t) => t,
        None => String::new(),
    };
    let transport: &str = if network_serial(&p[0]) {
        "Wi-Fi"
    } else {
        "USB"
    };
    let d = Device {
        serial: p[0].clone(),
        state: state.to_owned(),
        model,
        transport: transport.to_owned(),
        id,
        identity: None,
        connections: Vec::new(),
    };
    assert(d@.connections == Seq::<Seq<char>>::empty());
    Some(d)
}

/// The devices of the first lines come first.
proof fn lemma_devices_prefix(lines: Seq<Seq<char>>, n: int)
    requires
        0 <= n <= lines.len(),
    ensures
        devices_on(lines.take(n)).is_prefix_of(devices_on(lines)),
    decreases lines.len() - n,
{
    if n == lines.len() {
        assert(lines.take(n) == lines);
    } else {
        lemma_devices_prefix(lines, n + 1);
        assert(lines.take(n + 1).drop_last() == lines.take(n));
    }
}

/// Reads the server's device list.
pub fn parse_devices(raw: &str) -> (r: Vec<Device>)
    ensures
        r.deep_view() == devices_in(raw@),
{
    let lines = text::split(raw, '\n');
    let ghost w = text::split_at_char(raw@, '\n');
    let mut out: Vec<Device> = Vec::new();
    let mut i: usize = 0;
    while i < lines.len() && out.len() < MAX_DEVICES
        invariant
            i <= lines@.len(),
            lines.deep_view() == w,
            w == text::split_at_char(raw@, '\n'),
            out.deep_view() == devices_on(w.take(i as int)),
            out@.len() <= MAX_DEVICES,
        decreases lines@.len() - i,
    {
        assert(w.take(i + 1).drop_last() == w.take(i as int));
        assert(w.take(i + 1).last() == lines@[i as int]@);
        let ghost before = out.deep_view();
        match parse_device(&lines[i]) {
            Some(d) => {
                let ghost v = d@;
                out.push(d);
                assert(out.deep_view() == before.push(v));
            },
            None => {},
        }
        i += 1;
    }
    proof {
        lemma_devices_prefix(w, i as int);
        if i == lines@.len() {
            assert(w.take(i as int) == w);
        }
        if out@.len() == MAX_DEVICES {
            assert(devices_on(w).take(MAX_DEVICES as int) == out.deep_view());
        }
    }
    out
}

// ---------------------------------------------------------------------------
// Grouping
// ---------------------------------------------------------------------------
/// Whether the phone behind a transport is known: it is ready and has told its
/// identity.
pub open spec fn is_identified(d: DeviceView) -> bool {
    d.identity is Some && d.state == "device"@
}

/// What names the phone behind a transport: its identity where it is known, else
/// the serial of the transport.
pub open spec fn phone_name(d: DeviceView) -> Seq<char> {
    if is_identified(d) {
        d.identity->0
    } else {
        d.serial
    }
}

/// The class of transports that are identified, or not.
pub open spec fn of_kind(identified: bool) -> spec_fn(DeviceView) -> bool {
    |d: DeviceView| is_identified(d) == identified
}

/// The class of transports of one phone.
pub open spec fn of_phone(identified: bool, name: Seq<char>) -> spec_fn(DeviceView) -> bool {
    |d: DeviceView| is_identified(d) == identified && phone_name(d) == name
}

/// The names of the phones behind transports.
pub open spec fn names(ds: Seq<DeviceView>) -> Seq<Seq<char>> {
    ds.map_values(|d: DeviceView| phone_name(d))
}

/// The serials of transports.
pub open spec fn serials(ds: Seq<DeviceView>) -> Seq<Seq<char>> {
    ds.map_values(|d: DeviceView| d.serial)
}

/// The kinds of transports.
pub open spec fn transports(ds: Seq<DeviceView>) -> Seq<Seq<char>> {
    ds.map_values(|d: DeviceView| d.transport)
}

/// Whether the transport named by `a` is preferred to the one named by `b`, apart
/// from any selection: a cable first, then a transport that the server made by
/// itself, then the order of serials.
pub open spec fn handier(a: DeviceView, b: DeviceView) -> bool {
    let cable_a = a.transport == "USB"@;
    let cable_b = b.transport == "USB"@;
    let auto_a = text::occurs(a.serial, "._adb-tls-connect"@);
    let auto_b = text::occurs(b.serial, "._adb-tls-connect"@);
    if cable_a != cable_b {
        cable_a
    } else if auto_a != auto_b {
        auto_a
    } else {
        text::precedes(a.serial, b.serial)
    }
}

/// Whether `a` is shown in place of `b`: the selected transport first, then the
/// handier one.
pub open spec fn preferred(a: DeviceView, b: DeviceView, selected: Seq<char>) -> bool {
    if (a.serial == selected) != (b.serial == selected) {
        a.serial == selected
    } else {
        handier(a, b)
    }
}

/// The transport that stands for all of `ds`: the first to which none is
/// preferred.
pub open spec fn leader(ds: Seq<DeviceView>, selected: Seq<char>) -> DeviceView
    decreases ds.len(),
{
    if ds.len() <= 1 {
        ds[0]
    } else {
        let best = leader(ds.drop_last(), selected);
        if preferred(ds.last(), best, selected) {
            ds.last()
        } else {
            best
        }
    }
}

/// The row that shows the transports `ds` of one phone.
pub open spec fn row_of(ds: Seq<DeviceView>, selected: Seq<char>) -> DeviceView {
    DeviceView {
        connections: text::sorted_texts(serials(ds)),
        transport: text::join_with(text::distinct_texts(transports(ds)), " / "@),
        ..leader(ds, selected)
    }
}

/// The phones of one kind, by name in order.
pub open spec fn phones(ds: Seq<DeviceView>, identified: bool) -> Seq<Seq<char>> {
    text::distinct_texts(names(ds.filter(of_kind(identified))))
}

/// The rows of the phones of one kind.
pub open spec fn rows_of(ds: Seq<DeviceView>, identified: bool, selected: Seq<char>) -> Seq<
    DeviceView,
> {
    phones(ds, identified).map_values(
        |name: Seq<char>| row_of(ds.filter(of_phone(identified, name)), selected),
    )
}

/// The rows that show all transports: unidentified ones first.
pub open spec fn grouped(ds: Seq<DeviceView>, selected: Seq<char>) -> Seq<DeviceView> {
    rows_of(ds, false, selected) + rows_of(ds, true, selected)
}

fn identified(d: &Device) -> (r: bool)
    ensures
        r == is_identified(d@),
{
    d.identity.is_some() && text::same(&d.state, "device")
}

fn name_of(d: &Device) -> (r: &str)
    ensures
        r@ == phone_name(d@),
{
    match &d.identity {
        Some(id) => if text::same(&d.state, "device") {
            id.as_str()
        } else {
            d.serial.as_str()
        },
        None => d.serial.as_str(),
    }
}

/// Whether `a` is the handier of two transports.
pub fn is_handier(a: &Device, b: &Device) -> (r: bool)
    ensures
        r == handier(a@, b@),
{
    let cable_a = text::same(&a.transport, "USB");
    let cable_b = text::same(&b.transport, "USB");
    let auto_a = text::contains(&a.serial, "._adb-tls-connect");
    let auto_b = text::contains(&b.serial, "._adb-tls-connect");
    if cable_a != cable_b {
        cable_a
    } else if auto_a != auto_b {
        auto_a
    } else {
        text::less(&a.serial, &b.serial)
    }
}

fn is_preferred(a: &Device, b: &Device, selected: &str) -> (r: bool)
    ensures
        r == preferred(a@, b@, selected@),
{
    let sel_a = text::same(&a.serial, selected);
    let sel_b = text::same(&b.serial, selected);
    if sel_a != sel_b {
        sel_a
    } else {
        is_handier(a, b)
    }
}

fn phone_list(ds: &[Device], kind: bool) -> (r: Vec<String>)
    ensures
        r.deep_view() == phones(ds.deep_view(), kind),
{
    let ghost all = ds.deep_view();
    let mut out: Vec<String> = Vec::new();
    let mut i: usize = 0;
    assert(all.take(0).filter(of_kind(kind)) == Seq::<DeviceView>::empty()) by {
        reveal(Seq::filter);
    }
    assert(names(Seq::<DeviceView>::empty()) == Seq::<Seq<char>>::empty());
    assert(out.deep_view() == Seq::<Seq<char>>::empty());
    while i < ds.len()
        invariant
            i <= ds@.len(),
            all == ds.deep_view(),
            out.deep_view() == phones(all.take(i as int), kind),
        decreases ds@.len() - i,
    {
        let ghost before = all.take(i as int);
        proof {
            assert(all.take(i + 1) == before.push(ds@[i as int]@));
            lists::lemma_filter_push(before, ds@[i as int]@, of_kind(kind));
        }
        if identified(&ds[i]) == kind {
            let ghost part = before.filter(of_kind(kind));
            assert(names(part.push(ds@[i as int]@)) == names(part).push(phone_name(ds@[i as int]@)));
            assert(names(part).push(phone_name(ds@[i as int]@)).drop_last() == names(part));
            text::add_once(&mut out, name_of(&ds[i]));
        }
        i += 1;
    }
    assert(all.take(i as int) == all);
    out
}

fn row(ds: &[Device], kind: bool, name: &str, selected: &str) -> (r: Option<Device>)
    ensures
        match r {
            Some(d) => ds.deep_view().filter(of_phone(kind, name@)).len() > 0 && d@ == row_of(
                ds.deep_view().filter(of_phone(kind, name@)),
                selected@,
            ),
            None => ds.deep_view().filter(of_phone(kind, name@)).len() == 0,
        },
{
    let ghost all = ds.deep_view();
    let ghost f = of_phone(kind, name@);
    let mut connections: Vec<String> = Vec::new();
    let mut kinds: Vec<String> = Vec::new();
    let mut best: Option<usize> = None;
    let mut i: usize = 0;
    assert(all.take(0).filter(f) == Seq::<DeviceView>::empty()) by {
        reveal(Seq::filter);
    }
    assert(serials(Seq::<DeviceView>::empty()) == Seq::<Seq<char>>::empty());
    assert(transports(Seq::<DeviceView>::empty()) == Seq::<Seq<char>>::empty());
    assert(connections.deep_view() == Seq::<Seq<char>>::empty());
    assert(kinds.deep_view() == Seq::<Seq<char>>::empty());
    while i < ds.len()
        invariant
            i <= ds@.len(),
            all == ds.deep_view(),
            f == of_phone(kind, name@),
            connections.deep_view() == text::sorted_texts(serials(all.take(i as int).filter(f))),
            kinds.deep_view() == text::distinct_texts(transports(all.take(i as int).filter(f))),
            match best {
                Some(b) => b < ds@.len() && all.take(i as int).filter(f).len() > 0 && ds@[b as int]@
                    == leader(all.take(i as int).filter(f), selected@),
                None => all.take(i as int).filter(f).len() == 0,
            },
        decreases ds@.len() - i,
    {
        let ghost part = all.take(i as int).filter(f);
        let ghost d = ds@[i as int]@;
        proof {
            assert(all.take(i + 1) == all.take(i as int).push(d));
            lists::lemma_filter_push(all.take(i as int), d, f);
        }
        if identified(&ds[i]) == kind && text::same(name_of(&ds[i]), name) {
            proof {
                assert(serials(part.push(d)) == serials(part).push(d.serial));
                assert(serials(part).push(d.serial).drop_last() == serials(part));
                assert(transports(part.push(d)) == transports(part).push(d.transport));
                assert(transports(part).push(d.transport).drop_last() == transports(part));
                assert(part.push(d).drop_last() == part);
            }
            text::add_sorted(&mut connections, &ds[i].serial);
            text::add_once(&mut kinds, &ds[i].transport);
            match best {
                None => {
                    best = Some(i);
                },
                Some(b) => {
                    if is_preferred(&ds[i], &ds[b], selected) {
                        best = Some(i);
                    }
                },
            }
        }
        i += 1;
    }
    assert(all.take(i as int) == all);
    match best {
        None => None,
        Some(b) => {
            let mut d = ds[b].clone();
            d.transport = text::join(&kinds, " / ");
            d.connections = connections;
            Some(d)
        },
    }
}

/// Each phone of a kind has a transport.
proof fn lemma_phone_has_member(ds: Seq<DeviceView>, kind: bool, name: Seq<char>)
    requires
        phones(ds, kind).contains(name),
    ensures
        ds.filter(of_phone(kind, name)).len() > 0,
{
    let part = ds.filter(of_kind(kind));
    text::lemma_distinct_texts(names(part));
    assert(names(part).contains(name));
    let k = choose|k: int| 0 <= k < names(part).len() && names(part)[k] == name;
    let d = part[k];
    assert(part.contains(d));
    lists::lemma_filter_contains(ds, d, of_kind(kind));
    lists::lemma_filter_contains(ds, d, of_phone(kind, name));
}

fn add_rows(ds: &[Device], kind: bool, selected: &str, out: &mut Vec<Device>)
    ensures
        final(out).deep_view() == old(out).deep_view() + rows_of(ds.deep_view(), kind, selected@),
{
    let ghost all = ds.deep_view();
    let ghost start = out.deep_view();
    let list = phone_list(ds, kind);
    let ghost rows = rows_of(all, kind, selected@);
    let mut i: usize = 0;
    assert(start + rows.take(0) == start);
    while i < list.len()
        invariant
            i <= list@.len(),
            all == ds.deep_view(),
            list.deep_view() == phones(all, kind),
            rows == rows_of(all, kind, selected@),
            out.deep_view() == start + rows.take(i as int),
        decreases list@.len() - i,
    {
        proof {
            assert(phones(all, kind)[i as int] == list@[i as int]@);
            lemma_phone_has_member(all, kind, list@[i as int]@);
        }
        let ghost before = out.deep_view();
        match row(ds, kind, &list[i], selected) {
            Some(d) => {
                let ghost v = d@;
                out.push(d);
                assert(out.deep_view() == before.push(v));
                assert(rows[i as int] == v);
                assert(start + rows.take(i + 1) == (start + rows.take(i as int)).push(v));
            },
            None => {},
        }
        i += 1;
    }
    assert(rows.take(i as int) == rows);
}

/// One row for each phone, with all its transports. Where several transports lead
/// to a phone, the row shows the selected one, else the handiest.
pub fn group(devices: &[Device], selected: &str) -> (r: Vec<Device>)
    ensures
        r.deep_view() == grouped(devices.deep_view(), selected@),
{
    let mut out: Vec<Device> = Vec::new();
    assert(out.deep_view() + rows_of(devices.deep_view(), false, selected@) == rows_of(
        devices.deep_view(),
        false,
        selected@,
    ));
    add_rows(devices, false, selected, &mut out);
    add_rows(devices, true, selected, &mut out);
    out
}

/// Nothing is preferred twice over: the order of transports is that of their
/// ranks.
proof fn lemma_not_preferred_transitive(
    a: DeviceView,
    b: DeviceView,
    c: DeviceView,
    selected: Seq<char>,
)
    requires
        !preferred(a, b, selected),
        !preferred(b, c, selected),
    ensures
        !preferred(a, c, selected),
{
    if !text::precedes(a.serial, b.serial) && !text::precedes(b.serial, c.serial) {
        text::lemma_not_precedes_transitive(a.serial, b.serial, c.serial);
    }
}

/// The leader of some transports is one of them, and none of them is preferred to
/// it.
pub proof fn law_leader_is_preferred(ds: Seq<DeviceView>, selected: Seq<char>)
    requires
        ds.len() > 0,
    ensures
        ds.contains(leader(ds, selected)),
        forall|i: int| 0 <= i < ds.len() ==> !preferred(#[trigger] ds[i], leader(ds, selected), selected),
    decreases ds.len(),
{
    if ds.len() == 1 {
        text::lemma_precedes_total(ds[0].serial, ds[0].serial);
    } else {
        let rest = ds.drop_last();
        let last = ds.last();
        let best = leader(rest, selected);
        law_leader_is_preferred(rest, selected);
        assert(ds == rest.push(last));
        lists::lemma_push_contains(rest, last, best);
        lists::lemma_push_contains(rest, last, last);
        text::lemma_precedes_total(last.serial, last.serial);
        text::lemma_precedes_total(last.serial, best.serial);
        assert forall|i: int| 0 <= i < ds.len() implies !preferred(
            #[trigger] ds[i],
            leader(ds, selected),
            selected,
        ) by {
            if i < rest.len() {
                assert(ds[i] == rest[i]);
                if preferred(last, best, selected) {
                    lemma_not_preferred_transitive(rest[i], best, last, selected);
                }
            }
        }
    }
}

/// Where the selected transport leads to a phone, it is the one that the phone's
/// row shows.
pub proof fn law_selected_transport_is_shown(
    ds: Seq<DeviceView>,
    d: DeviceView,
    selected: Seq<char>,
)
    requires
        ds.contains(d),
        d.serial == selected,
    ensures
        row_of(ds.filter(of_phone(is_identified(d), phone_name(d))), selected).serial == selected,
{
    let part = ds.filter(of_phone(is_identified(d), phone_name(d)));
    lists::lemma_filter_contains(ds, d, of_phone(is_identified(d), phone_name(d)));
    law_leader_is_preferred(part, selected);
    let k = choose|k: int| 0 <= k < part.len() && part[k] == d;
    assert(!preferred(part[k], leader(part, selected), selected));
}

/// Every transport is listed in the row of its phone, and a row lists nothing
/// else: its connections are the serials of the phone's transports, in order.
pub proof fn law_transports_are_kept(ds: Seq<DeviceView>, d: DeviceView, selected: Seq<char>)
    requires
        ds.contains(d),
    ensures
        phones(ds, is_identified(d)).contains(phone_name(d)),
        ({
            let part = ds.filter(of_phone(is_identified(d), phone_name(d)));
            let row = row_of(part, selected);
            &&& grouped(ds, selected).contains(row)
            &&& row.connections.contains(d.serial)
            &&& row.connections.to_multiset() == serials(part).to_multiset()
            &&& text::is_sorted(row.connections)
        }),
{
    broadcast use vstd::seq_lib::group_to_multiset_ensures;

    let kind = is_identified(d);
    let name = phone_name(d);
    let all = ds.filter(of_kind(kind));
    lists::lemma_filter_contains(ds, d, of_kind(kind));
    text::lemma_distinct_texts(names(all));
    let k = choose|k: int| 0 <= k < all.len() && all[k] == d;
    assert(names(all)[k] == name);
    let list = phones(ds, kind);
    assert(names(all).contains(name));
    assert(list.contains(name));
    let i = choose|i: int| 0 <= i < list.len() && list[i] == name;
    let part = ds.filter(of_phone(kind, name));
    let row = row_of(part, selected);
    assert(rows_of(ds, kind, selected)[i] == row);
    if kind {
        assert(grouped(ds, selected)[rows_of(ds, false, selected).len() + i] == row);
    } else {
        assert(grouped(ds, selected)[i] == row);
    }
    lists::lemma_filter_contains(ds, d, of_phone(kind, name));
    let m = choose|m: int| 0 <= m < part.len() && part[m] == d;
    assert(serials(part)[m] == d.serial);
    text::lemma_sorted_texts(serials(part));
    assert(serials(part).to_multiset().contains(d.serial));
    assert(row.connections.to_multiset().contains(d.serial));
}

/// There is one row for each phone: the phones of a kind come in the order of
/// their names, none twice, and each has a transport of its own.
pub proof fn law_one_row_for_each_phone(ds: Seq<DeviceView>, kind: bool, selected: Seq<char>)
    ensures
        text::is_increasing(phones(ds, kind)),
        rows_of(ds, kind, selected).len() == phones(ds, kind).len(),
        forall|i: int|
            0 <= i < phones(ds, kind).len() ==> {
                let leading = leader(
                    ds.filter(of_phone(kind, #[trigger] phones(ds, kind)[i])),
                    selected,
                );
                &&& ds.contains(leading)
                &&& is_identified(leading) == kind
                &&& phone_name(leading) == phones(ds, kind)[i]
                &&& rows_of(ds, kind, selected)[i].serial == leading.serial
                &&& rows_of(ds, kind, selected)[i].id == leading.id
            },
{
    text::lemma_distinct_texts(names(ds.filter(of_kind(kind))));
    assert forall|i: int| 0 <= i < phones(ds, kind).len() implies {
        let leading = leader(ds.filter(of_phone(kind, #[trigger] phones(ds, kind)[i])), selected);
        &&& ds.contains(leading)
        &&& is_identified(leading) == kind
        &&& phone_name(leading) == phones(ds, kind)[i]
        &&& rows_of(ds, kind, selected)[i].serial == leading.serial
        &&& rows_of(ds, kind, selected)[i].id == leading.id
    } by {
        let name = phones(ds, kind)[i];
        let part = ds.filter(of_phone(kind, name));
        lemma_phone_has_member(ds, kind, name);
        law_leader_is_preferred(part, selected);
        lists::lemma_filter_contains(ds, leader(part, selected), of_phone(kind, name));
    }
}

/// Whether two lists hold the same transports, and no serial twice.
spec fn same_members(a: Seq<DeviceView>, b: Seq<DeviceView>) -> bool {
    &&& serials(a).no_duplicates()
    &&& serials(b).no_duplicates()
    &&& forall|d: DeviceView| a.contains(d) <==> b.contains(d)
}

/// Lists with the same transports, of which no serial occurs twice, have the same
/// members.
proof fn lemma_permuted(a: Seq<DeviceView>, b: Seq<DeviceView>)
    requires
        serials(a).no_duplicates(),
        a.to_multiset() == b.to_multiset(),
    ensures
        same_members(a, b),
{
    broadcast use vstd::seq_lib::group_to_multiset_ensures;

    assert forall|i: int, j: int| 0 <= i < a.len() && 0 <= j < a.len() && i != j implies a[i]
        != a[j] by {
        assert(serials(a)[i] == a[i].serial && serials(a)[j] == a[j].serial);
    }
    a.lemma_multiset_has_no_duplicates();
    b.lemma_multiset_has_no_duplicates_conv();
    assert forall|d: DeviceView| a.contains(d) <==> b.contains(d) by {
        assert(a.contains(d) <==> a.to_multiset().contains(d));
        assert(b.contains(d) <==> b.to_multiset().contains(d));
    }
    assert forall|i: int, j: int|
        0 <= i < serials(b).len() && 0 <= j < serials(b).len() && i != j implies serials(b)[i]
        != serials(b)[j] by {
        assert(b.contains(b[i]) && b.contains(b[j]));
        let m = choose|m: int| 0 <= m < a.len() && a[m] == b[i];
        let n = choose|n: int| 0 <= n < a.len() && a[n] == b[j];
        assert(serials(a)[m] == b[i].serial && serials(a)[n] == b[j].serial);
    }
}

/// Filtering adds no serial.
proof fn lemma_filter_serials(ds: Seq<DeviceView>, f: spec_fn(DeviceView) -> bool)
    requires
        serials(ds).no_duplicates(),
    ensures
        serials(ds.filter(f)).no_duplicates(),
    decreases ds.len(),
{
    reveal(Seq::filter);
    if ds.len() > 0 {
        let t = ds.drop_last();
        let x = ds.last();
        assert forall|i: int, j: int|
            0 <= i < serials(t).len() && 0 <= j < serials(t).len() && i != j implies serials(t)[i]
            != serials(t)[j] by {
            assert(serials(t)[i] == serials(ds)[i] && serials(t)[j] == serials(ds)[j]);
        }
        lemma_filter_serials(t, f);
        let part = t.filter(f);
        assert(ds == t.push(x));
        lists::lemma_filter_push(t, x, f);
        if f(x) {
            let all = part.push(x);
            assert forall|i: int, j: int|
                0 <= i < serials(all).len() && 0 <= j < serials(all).len() && i
                    != j implies serials(all)[i] != serials(all)[j] by {
                let k = if i < j {
                    i
                } else {
                    j
                };
                let m = if i < j {
                    j
                } else {
                    i
                };
                assert(serials(all)[k] == serials(part)[k]);
                if m < part.len() {
                    assert(serials(all)[m] == serials(part)[m]);
                } else {
                    assert(part.contains(part[k]));
                    lists::lemma_filter_contains(t, part[k], f);
                    let n = choose|n: int| 0 <= n < t.len() && t[n] == part[k];
                    assert(serials(ds)[n] == part[k].serial);
                    assert(serials(ds)[ds.len() - 1] == x.serial);
                }
            }
        }
    }
}

proof fn lemma_same_part(a: Seq<DeviceView>, b: Seq<DeviceView>, f: spec_fn(DeviceView) -> bool)
    requires
        same_members(a, b),
    ensures
        same_members(a.filter(f), b.filter(f)),
{
    lemma_filter_serials(a, f);
    lemma_filter_serials(b, f);
    assert forall|d: DeviceView| a.filter(f).contains(d) <==> b.filter(f).contains(d) by {
        lists::lemma_filter_contains(a, d, f);
        lists::lemma_filter_contains(b, d, f);
    }
}

/// What is read off the members of one list is read off those of the other.
proof fn lemma_same_values(
    a: Seq<DeviceView>,
    b: Seq<DeviceView>,
    f: spec_fn(DeviceView) -> Seq<char>,
)
    requires
        forall|d: DeviceView| a.contains(d) <==> b.contains(d),
    ensures
        forall|y: Seq<char>| a.map_values(f).contains(y) <==> b.map_values(f).contains(y),
{
    assert forall|y: Seq<char>| a.map_values(f).contains(y) <==> b.map_values(f).contains(y) by {
        if a.map_values(f).contains(y) {
            let i = choose|i: int| 0 <= i < a.map_values(f).len() && a.map_values(f)[i] == y;
            assert(a.contains(a[i]));
            let j = choose|j: int| 0 <= j < b.len() && b[j] == a[i];
            assert(b.map_values(f)[j] == y);
        }
        if b.map_values(f).contains(y) {
            let i = choose|i: int| 0 <= i < b.map_values(f).len() && b.map_values(f)[i] == y;
            assert(b.contains(b[i]));
            let j = choose|j: int| 0 <= j < a.len() && a[j] == b[i];
            assert(a.map_values(f)[j] == y);
        }
    }
}

proof fn lemma_same_leader(a: Seq<DeviceView>, b: Seq<DeviceView>, selected: Seq<char>)
    requires
        same_members(a, b),
        a.len() > 0,
        b.len() > 0,
    ensures
        leader(a, selected) == leader(b, selected),
{
    let x = leader(a, selected);
    let y = leader(b, selected);
    law_leader_is_preferred(a, selected);
    law_leader_is_preferred(b, selected);
    assert(a.contains(y) && b.contains(x));
    let i = choose|i: int| 0 <= i < a.len() && a[i] == y;
    let j = choose|j: int| 0 <= j < b.len() && b[j] == x;
    let k = choose|k: int| 0 <= k < a.len() && a[k] == x;
    assert(!preferred(a[i], x, selected));
    assert(!preferred(b[j], y, selected));
    text::lemma_precedes_total(x.serial, y.serial);
    assert(x.serial == y.serial);
    assert(serials(a)[i] == serials(a)[k]);
}

proof fn lemma_same_row(a: Seq<DeviceView>, b: Seq<DeviceView>, selected: Seq<char>)
    requires
        same_members(a, b),
        a.len() > 0,
        b.len() > 0,
    ensures
        row_of(a, selected) == row_of(b, selected),
{
    lemma_same_leader(a, b, selected);
    let f = |d: DeviceView| d.serial;
    let g = |d: DeviceView| d.transport;
    lemma_same_values(a, b, f);
    lemma_same_values(a, b, g);
    assert(serials(a) =~= a.map_values(f) && serials(b) =~= b.map_values(f));
    assert(transports(a) =~= a.map_values(g) && transports(b) =~= b.map_values(g));
    text::lemma_sorted_distinct(serials(a));
    text::lemma_sorted_distinct(serials(b));
    let s = text::sorted_texts(serials(a));
    let t = text::sorted_texts(serials(b));
    assert forall|y: Seq<char>| s.contains(y) <==> t.contains(y) by {
        assert(a.map_values(f).contains(y) <==> b.map_values(f).contains(y));
    }
    text::lemma_same_increasing(s, t);
    text::lemma_distinct_texts(transports(a));
    text::lemma_distinct_texts(transports(b));
    let u = text::distinct_texts(transports(a));
    let v = text::distinct_texts(transports(b));
    assert forall|y: Seq<char>| u.contains(y) <==> v.contains(y) by {
        assert(a.map_values(g).contains(y) <==> b.map_values(g).contains(y));
    }
    text::lemma_same_increasing(u, v);
}

proof fn lemma_same_rows(
    a: Seq<DeviceView>,
    b: Seq<DeviceView>,
    kind: bool,
    selected: Seq<char>,
)
    requires
        same_members(a, b),
    ensures
        rows_of(a, kind, selected) == rows_of(b, kind, selected),
{
    let f = of_kind(kind);
    lemma_same_part(a, b, f);
    let g = |d: DeviceView| phone_name(d);
    lemma_same_values(a.filter(f), b.filter(f), g);
    assert(names(a.filter(f)) =~= a.filter(f).map_values(g));
    assert(names(b.filter(f)) =~= b.filter(f).map_values(g));
    text::lemma_distinct_texts(names(a.filter(f)));
    text::lemma_distinct_texts(names(b.filter(f)));
    assert forall|y: Seq<char>| phones(a, kind).contains(y) <==> phones(b, kind).contains(y) by {
        assert(a.filter(f).map_values(g).contains(y) <==> b.filter(f).map_values(g).contains(y));
    }
    text::lemma_same_increasing(phones(a, kind), phones(b, kind));
    assert forall|i: int| 0 <= i < phones(a, kind).len() implies rows_of(a, kind, selected)[i]
        == rows_of(b, kind, selected)[i] by {
        let name = phones(a, kind)[i];
        assert(phones(a, kind).contains(name) && phones(b, kind).contains(name));
        lemma_phone_has_member(a, kind, name);
        lemma_phone_has_member(b, kind, name);
        lemma_same_part(a, b, of_phone(kind, name));
        lemma_same_row(
            a.filter(of_phone(kind, name)),
            b.filter(of_phone(kind, name)),
            selected,
        );
    }
    assert(rows_of(a, kind, selected) =~= rows_of(b, kind, selected));
}

/// The order in which transports are listed does not show: where no serial occurs
/// twice, the same transports in another order give the same rows.
pub proof fn law_order_of_transports_does_not_show(
    a: Seq<DeviceView>,
    b: Seq<DeviceView>,
    selected: Seq<char>,
)
    requires
        serials(a).no_duplicates(),
        a.to_multiset() == b.to_multiset(),
    ensures
        grouped(a, selected) == grouped(b, selected),
{
    lemma_permuted(a, b);
    lemma_same_rows(a, b, false, selected);
    lemma_same_rows(a, b, true, selected);
}

// ---------------------------------------------------------------------------
// Choosing a transport
// ---------------------------------------------------------------------------
/// The handiest of some transports: the first to which none is handier.
pub open spec fn handiest(ds: Seq<DeviceView>) -> DeviceView
    decreases ds.len(),
{
    if ds.len() <= 1 {
        ds[0]
    } else {
        let best = handiest(ds.drop_last());
        if handier(ds.last(), best) {
            ds.last()
        } else {
            best
        }
    }
}

/// The class of ready transports with a serial.
pub open spec fn ready_serial(serial: Seq<char>) -> spec_fn(DeviceView) -> bool {
    |d: DeviceView| d.serial == serial && d.state == "device"@
}

/// The class of ready transports of the phone with an identity.
pub open spec fn ready_phone(identity: Seq<char>) -> spec_fn(DeviceView) -> bool {
    |d: DeviceView|
        d.state == "device"@ && identity.len() > 0 && d.identity == Some(identity)
}

/// The transport to the selected phone: the remembered one, unless it turned out to
/// lead to another phone; else the handiest one that leads to the phone. Where only
/// the remembered one is there and leads to another phone, it is taken, so that the
/// mismatch is told.
pub open spec fn chosen(
    ds: Seq<DeviceView>,
    serial: Seq<char>,
    identity: Seq<char>,
) -> Option<DeviceView> {
    let remembered = lists::first_where(ds, ready_serial(serial));
    let others = ds.filter(ready_phone(identity));
    if remembered is Some && (ds[remembered->0].identity is None
        || ds[remembered->0].identity == Some(identity)) {
        Some(ds[remembered->0])
    } else if others.len() > 0 {
        Some(handiest(others))
    } else if remembered is Some {
        Some(ds[remembered->0])
    } else {
        None
    }
}

/// Where the first ready transport with a serial stands.
pub fn find_serial(ds: &Vec<Device>, serial: &str) -> (r: Option<usize>)
    ensures
        match r {
            Some(i) => i < ds@.len() && lists::first_where(ds.deep_view(), ready_serial(serial@))
                == Some(i as int),
            None => lists::first_where(ds.deep_view(), ready_serial(serial@)) is None,
        },
{
    let ghost all = ds.deep_view();
    let ghost f = ready_serial(serial@);
    let mut i: usize = 0;
    while i < ds.len()
        invariant
            i <= ds@.len(),
            all == ds.deep_view(),
            f == ready_serial(serial@),
            forall|j: int| 0 <= j < i ==> !f(#[trigger] all[j]),
        decreases ds@.len() - i,
    {
        assert(all[i as int] == ds@[i as int]@);
        if text::same(&ds[i].serial, serial) && text::same(&ds[i].state, "device") {
            proof {
                lists::lemma_is_first(all, f, i as int);
            }
            return Some(i);
        }
        i += 1;
    }
    proof {
        lists::lemma_none_is_first(all, f);
    }
    None
}

fn is_known_as(d: &Device, identity: &str) -> (r: bool)
    ensures
        r == (d@.identity == Some(identity@)),
{
    match &d.identity {
        Some(id) => text::same(id, identity),
        None => false,
    }
}

fn handiest_of(ds: &Vec<Device>, identity: &str) -> (r: Option<usize>)
    ensures
        match r {
            Some(i) => i < ds@.len() && ds.deep_view().filter(ready_phone(identity@)).len() > 0
                && ds@[i as int]@ == handiest(ds.deep_view().filter(ready_phone(identity@))),
            None => ds.deep_view().filter(ready_phone(identity@)).len() == 0,
        },
{
    let ghost all = ds.deep_view();
    let ghost f = ready_phone(identity@);
    let mut best: Option<usize> = None;
    let mut i: usize = 0;
    assert(all.take(0).filter(f) == Seq::<DeviceView>::empty()) by {
        reveal(Seq::filter);
    }
    while i < ds.len()
        invariant
            i <= ds@.len(),
            all == ds.deep_view(),
            f == ready_phone(identity@),
            match best {
                Some(b) => b < ds@.len() && all.take(i as int).filter(f).len() > 0 && ds@[b as int]@
                    == handiest(all.take(i as int).filter(f)),
                None => all.take(i as int).filter(f).len() == 0,
            },
        decreases ds@.len() - i,
    {
        let ghost part = all.take(i as int).filter(f);
        let ghost d = ds@[i as int]@;
        proof {
            assert(all.take(i + 1) == all.take(i as int).push(d));
            lists::lemma_filter_push(all.take(i as int), d, f);
            assert(part.push(d).drop_last() == part);
        }
        if text::same(&ds[i].state, "device") && !identity.is_empty() && is_known_as(
            &ds[i],
            identity,
        ) {
            match best {
                None => {
                    best = Some(i);
                },
                Some(b) => {
                    if is_handier(&ds[i], &ds[b]) {
                        best = Some(i);
                    }
                },
            }
        }
        i += 1;
    }
    assert(all.take(i as int) == all);
    best
}

/// The transport to the selected phone.
pub fn choose_transport(ds: &Vec<Device>, serial: &str, identity: &str) -> (r: Option<Device>)
    ensures
        match r {
            Some(d) => chosen(ds.deep_view(), serial@, identity@) == Some(d@),
            None => chosen(ds.deep_view(), serial@, identity@) is None,
        },
{
    let remembered = find_serial(ds, serial);
    match remembered {
        Some(i) => {
            assert(ds.deep_view()[i as int] == ds@[i as int]@);
            if ds[i].identity.is_none() || is_known_as(&ds[i], identity) {
                return Some(ds[i].clone());
            }
        },
        None => {},
    }
    match handiest_of(ds, identity) {
        Some(i) => {
            return Some(ds[i].clone());
        },
        None => {},
    }
    match remembered {
        Some(i) => Some(ds[i].clone()),
        None => None,
    }
}

proof fn lemma_handiest_member(ds: Seq<DeviceView>)
    requires
        ds.len() > 0,
    ensures
        ds.contains(handiest(ds)),
    decreases ds.len(),
{
    if ds.len() == 1 {
        assert(ds[0] == handiest(ds));
    } else {
        let rest = ds.drop_last();
        lemma_handiest_member(rest);
        assert(ds == rest.push(ds.last()));
        lists::lemma_push_contains(rest, ds.last(), handiest(rest));
        lists::lemma_push_contains(rest, ds.last(), ds.last());
    }
}

/// The chosen transport is a ready one that is listed. Where it is not the
/// remembered one, it leads to the selected phone; and where a listed transport
/// leads to the phone, one that is known to lead to another is not chosen.
pub proof fn law_chosen_transport_leads_to_the_phone(
    ds: Seq<DeviceView>,
    serial: Seq<char>,
    identity: Seq<char>,
)
    ensures
        chosen(ds, serial, identity) matches Some(d) ==> {
            &&& ds.contains(d)
            &&& d.state == "device"@
            &&& d.serial != serial ==> identity.len() > 0 && d.identity == Some(identity)
            &&& ds.filter(ready_phone(identity)).len() > 0 ==> d.identity is None || d.identity
                == Some(identity)
        },
{
    let f = ready_serial(serial);
    let g = ready_phone(identity);
    lists::lemma_first_where(ds, f);
    let others = ds.filter(g);
    if others.len() > 0 {
        lemma_handiest_member(others);
        lists::lemma_filter_contains(ds, handiest(others), g);
    }
}

/// Every listed transport has a serial.
pub proof fn law_listed_transports_have_serials(raw: Seq<char>)
    ensures
        forall|i: int|
            0 <= i < devices_in(raw).len() ==> (#[trigger] devices_in(raw)[i]).serial.len() > 0,
        devices_in(raw).len() <= MAX_DEVICES,
{
    lemma_devices_on(text::split_at_char(raw, '\n'));
}

proof fn lemma_devices_on(lines: Seq<Seq<char>>)
    ensures
        forall|i: int|
            0 <= i < devices_on(lines).len() ==> (#[trigger] devices_on(lines)[i]).serial.len() > 0,
    decreases lines.len(),
{
    if lines.len() > 0 {
        let line = lines.last();
        lemma_devices_on(lines.drop_last());
        if device_on(line) is Some {
            let p = text::words_of(line);
            let pieces = text::split_by(line, text::spaces());
            assert(p.contains(p[0]));
            lists::lemma_filter_contains(pieces, p[0], text::not_empty());
        }
    }
}

/// A line of the device list is a transport where it has a serial of at most 512 bytes
/// and one of five states. The words that follow give the model and the transport id;
/// a serial with a colon, or of a service that the server found, is one over the
/// network.
pub proof fn law_device_lines(line: Seq<char>)
    ensures
        ({
            let w = text::words_of(line);
            let state = if w.len() > 2 && w[1] == "no"@ && w[2] == "permissions"@ {
                "no permissions"@
            } else {
                w[1]
            };
            let listed = w.len() >= 2 && vstd::utf8::encode_utf8(w[0]).len() <= 512 && (state
                == "device"@ || state == "offline"@ || state == "unauthorized"@ || state
                == "authorizing"@ || state == "no permissions"@);
            &&& device_on(line) is Some <==> listed
            &&& device_on(line) matches Some(d) ==> {
                &&& d.serial == w[0]
                &&& d.state == state
                &&& d.identity is None
                &&& d.connections.len() == 0
                &&& d.transport == if w[0].contains(':') || text::occurs(w[0], "_adb-tls-connect"@) {
                    "Wi-Fi"@
                } else {
                    "USB"@
                }
                &&& d.model == text::replaced(
                    match tagged(w, "model:"@) {
                        Some(m) => m,
                        None => w[0],
                    },
                    '_',
                    ' ',
                )
                &&& d.id == match tagged(w, "transport_id:"@) {
                    Some(id) => id,
                    None => Seq::empty(),
                }
            }
        }),
{
}

/// The value of a key is what follows it in the first word that starts with it.
pub proof fn law_tagged_words(words: Seq<Seq<char>>, key: Seq<char>)
    ensures
        match tagged(words, key) {
            Some(v) => exists|i: int|
                0 <= i < words.len() && #[trigger] words[i] == key + v && forall|j: int|
                    0 <= j < i ==> !key.is_prefix_of(#[trigger] words[j]),
            None => forall|j: int| 0 <= j < words.len() ==> !key.is_prefix_of(#[trigger] words[j]),
        },
    decreases words.len(),
{
    if words.len() > 0 {
        let rest = words.drop_first();
        text::law_prefixes_are_taken_off(key, Seq::empty(), words[0]);
        law_tagged_words(rest, key);
        if text::strip(words[0], key) is None {
            match tagged(rest, key) {
                Some(v) => {
                    let i = choose|i: int|
                        0 <= i < rest.len() && #[trigger] rest[i] == key + v && forall|j: int|
                            0 <= j < i ==> !key.is_prefix_of(#[trigger] rest[j]);
                    assert(words[i + 1] == key + v);
                    assert forall|j: int| 0 <= j < i + 1 implies !key.is_prefix_of(
                        #[trigger] words[j],
                    ) by {
                        if j > 0 {
                            assert(words[j] == rest[j - 1]);
                        }
                    }
                },
                None => {
                    assert forall|j: int| 0 <= j < words.len() implies !key.is_prefix_of(
                        #[trigger] words[j],
                    ) by {
                        if j > 0 {
                            assert(words[j] == rest[j - 1]);
                        }
                    }
                },
            }
        } else {
            assert(words[0] == key + text::strip(words[0], key)->0);
        }
    }
}

/// A device list is read line by line, in order, up to 64 transports: one more line
/// adds its transport, if it holds one, at the end.
pub proof fn law_device_lists(lines: Seq<Seq<char>>, line: Seq<char>, raw: Seq<char>)
    ensures
        devices_on(Seq::<Seq<char>>::empty()).len() == 0,
        devices_on(lines.push(line)) == match device_on(line) {
            Some(d) => devices_on(lines).push(d),
            None => devices_on(lines),
        },
        devices_in(raw).len() == if devices_on(text::split_at_char(raw, '\n')).len() < 64 {
            devices_on(text::split_at_char(raw, '\n')).len()
        } else {
            64
        },
        devices_in(raw).is_prefix_of(devices_on(text::split_at_char(raw, '\n'))),
{
    assert(lines.push(line).drop_last() =~= lines);
}

/// A transport is handier than another by a cable, then by being one that the server
/// made, then by its serial; and the selected one is shown before all others.
pub proof fn law_handier_transports(a: DeviceView, b: DeviceView, selected: Seq<char>)
    ensures
        a.transport == "USB"@ && b.transport != "USB"@ ==> handier(a, b) && !handier(b, a),
        (a.transport == "USB"@) == (b.transport == "USB"@) && text::occurs(
            a.serial,
            "._adb-tls-connect"@,
        ) && !text::occurs(b.serial, "._adb-tls-connect"@) ==> handier(a, b) && !handier(b, a),
        (a.transport == "USB"@) == (b.transport == "USB"@) && text::occurs(
            a.serial,
            "._adb-tls-connect"@,
        ) == text::occurs(b.serial, "._adb-tls-connect"@) ==> handier(a, b) == text::precedes(
            a.serial,
            b.serial,
        ),
        a.serial == selected && b.serial != selected ==> preferred(a, b, selected) && !preferred(
            b,
            a,
            selected,
        ),
        (a.serial == selected) == (b.serial == selected) ==> preferred(a, b, selected) == handier(
            a,
            b,
        ),
{
}

/// A phone is known by its identity where it is ready and has told it; else its
/// transport stands for itself. Phones that are not known come first, each kind in the
/// order of names.
pub proof fn law_phones_are_told_apart(
    ds: Seq<DeviceView>,
    d: DeviceView,
    name: Seq<char>,
    kind: bool,
    selected: Seq<char>,
)
    ensures
        is_identified(d) <==> d.identity is Some && d.state == "device"@,
        is_identified(d) ==> Some(phone_name(d)) == d.identity,
        !is_identified(d) ==> phone_name(d) == d.serial,
        grouped(ds, selected).len() == phones(ds, false).len() + phones(ds, true).len(),
        forall|i: int|
            0 <= i < phones(ds, false).len() ==> #[trigger] grouped(ds, selected)[i] == row_of(
                ds.filter(of_phone(false, phones(ds, false)[i])),
                selected,
            ),
        forall|i: int|
            0 <= i < phones(ds, true).len() ==> row_of(
                ds.filter(of_phone(true, #[trigger] phones(ds, true)[i])),
                selected,
            ) == grouped(ds, selected)[phones(ds, false).len() + i],
        ds.filter(of_phone(kind, name)).contains(d) <==> ds.contains(d) && is_identified(d) == kind
            && phone_name(d) == name,
        phones(ds, kind).contains(name) <==> exists|e: DeviceView|
            #[trigger] ds.contains(e) && is_identified(e) == kind && phone_name(e) == name,
{
    lists::lemma_filter_contains(ds, d, of_phone(kind, name));
    let part = ds.filter(of_kind(kind));
    text::lemma_distinct_texts(names(part));
    if phones(ds, kind).contains(name) {
        assert(names(part).contains(name));
        let k = choose|k: int| 0 <= k < names(part).len() && names(part)[k] == name;
        assert(part.contains(part[k]));
        lists::lemma_filter_contains(ds, part[k], of_kind(kind));
        assert(ds.contains(part[k]) && is_identified(part[k]) == kind && phone_name(part[k]) == name);
    }
    if exists|e: DeviceView|
        #[trigger] ds.contains(e) && is_identified(e) == kind && phone_name(e) == name {
        let e = choose|e: DeviceView|
            #[trigger] ds.contains(e) && is_identified(e) == kind && phone_name(e) == name;
        lists::lemma_filter_contains(ds, e, of_kind(kind));
        assert(part.contains(e));
        let k = choose|k: int| 0 <= k < part.len() && part[k] == e;
        assert(names(part)[k] == name);
        assert(names(part).contains(name));
    }
}

/// A row shows the leading transport of its phone, with the serials of all of them in
/// order and the kinds of all of them, each once.
pub proof fn law_rows_show_the_leader(ds: Seq<DeviceView>, selected: Seq<char>)
    ensures
        ({
            let row = row_of(ds, selected);
            let kinds = text::distinct_texts(transports(ds));
            &&& row == (DeviceView {
                connections: row.connections,
                transport: row.transport,
                ..leader(ds, selected)
            })
            &&& row.transport == text::join_with(kinds, " / "@)
            &&& text::is_increasing(kinds)
            &&& forall|k: Seq<char>| #[trigger]
                kinds.contains(k) <==> exists|d: DeviceView|
                    #[trigger] ds.contains(d) && d.transport == k
        }),
{
    let t = transports(ds);
    let kinds = text::distinct_texts(t);
    text::lemma_distinct_texts(t);
    assert forall|k: Seq<char>| #[trigger] kinds.contains(k) <==> exists|d: DeviceView|
        #[trigger] ds.contains(d) && d.transport == k by {
        if t.contains(k) {
            let i = choose|i: int| 0 <= i < t.len() && t[i] == k;
            assert(ds.contains(ds[i]) && ds[i].transport == k);
        }
        if exists|d: DeviceView| #[trigger] ds.contains(d) && d.transport == k {
            let d = choose|d: DeviceView| #[trigger] ds.contains(d) && d.transport == k;
            let i = choose|i: int| 0 <= i < ds.len() && ds[i] == d;
            assert(t[i] == k);
        }
    }
}

/// A transport is found wherever one leads to the phone: the remembered one where it
/// is ready and not known to lead elsewhere; else a ready one of the phone to which
/// none is handier; else the remembered one all the same. Only where there is none of
/// these is there none.
pub proof fn law_transports_are_chosen(
    ds: Seq<DeviceView>,
    serial: Seq<char>,
    identity: Seq<char>,
)
    ensures
        ({
            let remembered = |d: DeviceView| d.serial == serial && d.state == "device"@;
            let leads = |d: DeviceView|
                d.state == "device"@ && identity.len() > 0 && d.identity == Some(identity);
            match lists::first_where(ds, remembered) {
                Some(i) => if ds[i].identity is None || ds[i].identity == Some(identity) {
                    chosen(ds, serial, identity) == Some(ds[i])
                } else if exists|e: DeviceView| #[trigger] ds.contains(e) && leads(e) {
                    chosen(ds, serial, identity) matches Some(d) && leads(d)
                } else {
                    chosen(ds, serial, identity) == Some(ds[i])
                },
                None => if exists|e: DeviceView| #[trigger] ds.contains(e) && leads(e) {
                    chosen(ds, serial, identity) matches Some(d) && leads(d)
                } else {
                    chosen(ds, serial, identity) is None
                },
            }
        }),
        forall|e: DeviceView|
            chosen(ds, serial, identity) matches Some(d) ==> d.serial != serial ==> #[trigger]
                ds.contains(e) && e.state == "device"@ && identity.len() > 0 && e.identity == Some(
                    identity,
                ) ==> !handier(e, d),
{
    let f = ready_serial(serial);
    let g = ready_phone(identity);
    let remembered = |d: DeviceView| d.serial == serial && d.state == "device"@;
    assert(f =~= remembered);
    lists::lemma_first_where(ds, f);
    let others = ds.filter(g);
    if others.len() > 0 {
        lemma_handiest_member(others);
        let h = handiest(others);
        lists::lemma_filter_contains(ds, h, g);
        assert(ds.contains(h) && g(h));
    }
    assert forall|e: DeviceView| #[trigger] ds.contains(e) && g(e) implies others.len() > 0
        && !handier(e, handiest(others)) by {
        lists::lemma_filter_contains(ds, e, g);
        let k = choose|k: int| 0 <= k < others.len() && others[k] == e;
        lemma_handiest_is_handiest(others, k);
    }
}

proof fn lemma_handiest_is_handiest(ds: Seq<DeviceView>, k: int)
    requires
        0 <= k < ds.len(),
    ensures
        !handier(ds[k], handiest(ds)),
    decreases ds.len(),
{
    if ds.len() == 1 {
        text::lemma_precedes_total(ds[0].serial, ds[0].serial);
    } else {
        let rest = ds.drop_last();
        let last = ds.last();
        let best = handiest(rest);
        if k < rest.len() {
            lemma_handiest_is_handiest(rest, k);
            assert(ds[k] == rest[k]);
            if handier(last, best) {
                text::lemma_precedes_total(last.serial, best.serial);
                lemma_not_handier_transitive(ds[k], best, last);
            }
        } else {
            text::lemma_precedes_total(last.serial, last.serial);
        }
    }
}

proof fn lemma_not_handier_transitive(a: DeviceView, b: DeviceView, c: DeviceView)
    requires
        !handier(a, b),
        !handier(b, c),
    ensures
        !handier(a, c),
{
    if !text::precedes(a.serial, b.serial) && !text::precedes(b.serial, c.serial) {
        text::lemma_not_precedes_transitive(a.serial, b.serial, c.serial);
    }
}

} // verus!
