//! The services that phones advertise at the moment.
use crate::lists;
use crate::pairing::{self, parse_service, Service, ServiceView};
use crate::text;
use vstd::prelude::*;
use vstd::utf8::*;

verus! {

/// What names an advertisement: the interface, the protocol and the service. The
/// same service may be advertised on several interfaces and in both protocols, and
/// each of these comes and goes by itself.
pub struct Key {
    pub interface: Seq<char>,
    pub protocol: Seq<char>,
    pub name: Seq<char>,
}

/// The order of advertisements.
pub open spec fn key_precedes(a: Key, b: Key) -> bool {
    if a.interface != b.interface {
        text::precedes(a.interface, b.interface)
    } else if a.protocol != b.protocol {
        text::precedes(a.protocol, b.protocol)
    } else {
        text::precedes(a.name, b.name)
    }
}

struct Row {
    interface: String,
    protocol: String,
    service: Service,
}

/// An advertisement.
pub struct RowView {
    pub key: Key,
    pub service: ServiceView,
}

impl Row {
    spec fn row(self) -> RowView {
        RowView {
            key: Key {
                interface: self.interface@,
                protocol: self.protocol@,
                name: self.service@.name,
            },
            service: self.service@,
        }
    }
}

spec fn rows_in(s: Seq<Row>) -> Seq<RowView> {
    s.map_values(|r: Row| r.row())
}

/// How many advertisements are kept.
pub const MAX_ROWS: usize = 128;

/// The longest line of the discovery, in bytes.
pub const MAX_LINE: usize = 8192;

/// The advertisements of the moment, in order.
pub struct Rows {
    rows: Vec<Row>,
}

impl View for Rows {
    type V = Seq<RowView>;

    closed spec fn view(&self) -> Seq<RowView> {
        rows_in(self.rows@)
    }
}

/// Whether advertisements are in order, none twice.
pub open spec fn is_ordered(rows: Seq<RowView>) -> bool {
    forall|i: int, j: int|
        0 <= i < j < rows.len() ==> key_precedes((#[trigger] rows[i]).key, (#[trigger] rows[j]).key)
}

/// The class of advertisements other than `key`.
pub open spec fn other_than(key: Key) -> spec_fn(RowView) -> bool {
    |r: RowView| r.key != key
}

/// Whether there is an advertisement `key`.
pub open spec fn has_key(rows: Seq<RowView>, key: Key) -> bool {
    exists|i: int| 0 <= i < rows.len() && (#[trigger] rows[i]).key == key
}

/// The advertisements with `row` in its place.
pub open spec fn put(rows: Seq<RowView>, row: RowView) -> Seq<RowView>
    decreases rows.len(),
{
    if rows.len() == 0 || key_precedes(rows.last().key, row.key) {
        rows.push(row)
    } else if rows.last().key == row.key {
        rows.drop_last().push(row)
    } else {
        put(rows.drop_last(), row).push(rows.last())
    }
}

/// What names the advertisement on a line with this service.
pub open spec fn key_on(line: Seq<char>, s: ServiceView) -> Key {
    Key {
        interface: pairing::fields_of(line)[1],
        protocol: pairing::fields_of(line)[2],
        name: s.name,
    }
}

/// The advertisements after a line of the discovery with this service.
pub open spec fn updated(
    rows: Seq<RowView>,
    line: Seq<char>,
    add: bool,
    s: ServiceView,
) -> Seq<RowView> {
    let key = key_on(line, s);
    if !add {
        rows.filter(other_than(key))
    } else if rows.len() < MAX_ROWS || has_key(rows, key) {
        put(rows, RowView { key, service: s })
    } else {
        rows
    }
}

/// The services of advertisements.
pub open spec fn services_of(rows: Seq<RowView>) -> Seq<ServiceView> {
    rows.map_values(|r: RowView| r.service)
}

/// The service on a line of the discovery, where the line is a text.
pub open spec fn service_on(line: Seq<u8>) -> Option<(bool, ServiceView)> {
    if valid_utf8(line) {
        pairing::service_in(decode_utf8(line))
    } else {
        None
    }
}

fn less(a: &Row, b: &Row) -> (r: bool)
    ensures
        r == key_precedes(a.row().key, b.row().key),
{
    if !text::same(&a.interface, &b.interface) {
        text::less(&a.interface, &b.interface)
    } else if !text::same(&a.protocol, &b.protocol) {
        text::less(&a.protocol, &b.protocol)
    } else {
        text::less(&a.service.name, &b.service.name)
    }
}

fn same_key(a: &Row, b: &Row) -> (r: bool)
    ensures
        r == (a.row().key == b.row().key),
{
    text::same(&a.interface, &b.interface) && text::same(&a.protocol, &b.protocol) && text::same(
        &a.service.name,
        &b.service.name,
    )
}

/// What was read of the discovery.
pub enum Read {
    /// Nothing could be read.
    Failed,
    /// This line was read, or as much of it as is read at a time; no bytes at the
    /// end.
    Line(Vec<u8>),
}

/// Why the discovery ends, if so.
pub open spec fn read_error(read: Read) -> Option<Seq<char>> {
    match read {
        Read::Failed => Some("mDNS discovery stopped; check avahi-daemon"@),
        Read::Line(b) => if b@.len() == 0 {
            Some("mDNS discovery stopped; install avahi and start avahi-daemon"@)
        } else if b@.len() > MAX_LINE {
            Some("Oversized mDNS discovery event"@)
        } else {
            None
        },
    }
}

impl Rows {
    /// Nothing is advertised.
    pub fn new() -> (r: Rows)
        ensures
            r@ == Seq::<RowView>::empty(),
    {
        let r = Rows { rows: Vec::new() };
        assert(r@ =~= Seq::empty());
        r
    }

    fn contains(&self, row: &Row) -> (r: bool)
        ensures
            r == has_key(self@, row.row().key),
    {
        let ghost all = self@;
        let mut i: usize = 0;
        while i < self.rows.len()
            invariant
                i <= self.rows@.len(),
                all == rows_in(self.rows@),
                forall|j: int| 0 <= j < i ==> (#[trigger] all[j]).key != row.row().key,
            decreases self.rows@.len() - i,
        {
            assert(all[i as int] == self.rows@[i as int].row());
            if same_key(&self.rows[i], row) {
                return true;
            }
            i += 1;
        }
        false
    }

    fn insert(&mut self, row: Row)
        ensures
            final(self)@ == put(old(self)@, row.row()),
    {
        let ghost all = self@;
        let ghost new = row.row();
        let mut at: usize = self.rows.len();
        assert(all.take(at as int) == all);
        assert(put(all, new) == put(all.take(at as int), new) + all.skip(at as int));
        while at > 0
            invariant
                at <= self.rows@.len(),
                all == rows_in(self.rows@),
                new == row.row(),
                *self == *old(self),
                all == old(self)@,
                put(all, new) == put(all.take(at as int), new) + all.skip(at as int),
            decreases at,
        {
            let ghost part = all.take(at as int);
            assert(part.last() == self.rows@[at - 1].row());
            assert(part.drop_last() == all.take(at - 1));
            if less(&self.rows[at - 1], &row) {
                self.rows.insert(at, row);
                assert(rows_in(self.rows@) =~= part.push(new) + all.skip(at as int));
                return;
            }
            if same_key(&self.rows[at - 1], &row) {
                self.rows.set(at - 1, row);
                assert(rows_in(self.rows@) =~= part.drop_last().push(new) + all.skip(at as int));
                return;
            }
            at -= 1;
            assert(put(all.take(at as int), new).push(all[at as int]) + all.skip(at + 1) =~= put(
                all.take(at as int),
                new,
            ) + all.skip(at as int));
        }
        self.rows.insert(0, row);
        assert(all.take(0) =~= Seq::empty());
        assert(rows_in(self.rows@) =~= seq![new] + all);
        assert(all.skip(0) =~= all);
        assert(put(all.take(0), new) =~= seq![new]);
    }

    fn remove(&mut self, row: &Row)
        ensures
            final(self)@ == old(self)@.filter(other_than(row.row().key)),
    {
        let ghost all = self@;
        let ghost f = other_than(row.row().key);
        let mut kept: Vec<Row> = Vec::new();
        let mut i: usize = 0;
        assert(all.take(0).filter(f) == Seq::<RowView>::empty()) by {
            reveal(Seq::filter);
        }
        assert(rows_in(kept@) =~= Seq::<RowView>::empty());
        while i < self.rows.len()
            invariant
                i <= self.rows@.len(),
                all == rows_in(self.rows@),
                all == old(self)@,
                f == other_than(row.row().key),
                rows_in(kept@) == all.take(i as int).filter(f),
            decreases self.rows@.len() - i,
        {
            let ghost before = kept@;
            let ghost k = all[i as int];
            let r = &self.rows[i];
            proof {
                assert(k == r.row());
                assert(all.take(i + 1) == all.take(i as int).push(k));
                lists::lemma_filter_push(all.take(i as int), k, f);
            }
            if !same_key(r, row) {
                kept.push(
                    Row {
                        interface: r.interface.clone(),
                        protocol: r.protocol.clone(),
                        service: r.service.clone(),
                    },
                );
                assert(rows_in(kept@) =~= rows_in(before).push(k));
            }
            i += 1;
        }
        assert(all.take(i as int) == all);
        self.rows = kept;
    }

    /// The services of the advertisements.
    pub fn services(&self) -> (r: Vec<Service>)
        ensures
            r.deep_view() == services_of(self@),
    {
        let ghost all = services_of(self@);
        let mut out: Vec<Service> = Vec::new();
        let mut i: usize = 0;
        while i < self.rows.len()
            invariant
                i <= self.rows@.len(),
                all == services_of(rows_in(self.rows@)),
                out.deep_view() == all.take(i as int),
            decreases self.rows@.len() - i,
        {
            let ghost before = out.deep_view();
            let s = self.rows[i].service.clone();
            let ghost v = s@;
            out.push(s);
            assert(out.deep_view() =~= before.push(v));
            assert(all.take(i + 1) =~= all.take(i as int).push(v));
            i += 1;
        }
        assert(all.take(i as int) =~= all);
        out
    }

    /// Takes what was read of the discovery. Gives the services of the moment where
    /// the line was about one.
    pub fn browse(&mut self, read: Read) -> (r: Result<Option<Vec<Service>>, &'static str>)
        ensures
            match r {
                Err(e) => read_error(read) == Some(e@) && final(self)@ == old(self)@,
                Ok(None) => read_error(read) is None && service_on(read->Line_0@) is None && final(
                    self)@ == old(self)@,
                Ok(Some(services)) => {
                    &&& read_error(read) is None
                    &&& service_on(read->Line_0@) matches Some((add, s)) && final(self)@
                        == updated(old(self)@, decode_utf8(read->Line_0@), add, s)
                    &&& services.deep_view() == services_of(final(self)@)
                },
            },
    {
        let line = match read {
            Read::Failed => {
                return Err("mDNS discovery stopped; check avahi-daemon");
            },
            Read::Line(b) => b,
        };
        if line.len() == 0 {
            return Err("mDNS discovery stopped; install avahi and start avahi-daemon");
        }
        if line.len() > MAX_LINE {
            return Err("Oversized mDNS discovery event");
        }
        match text::utf8(&line) {
            None => Ok(None),
            Some(t) => match parse_service(t) {
                None => Ok(None),
                Some((add, service)) => {
                    let p = text::split(text::trim_end(t, text::Class::Space), ';');
                    let ghost f = p.deep_view();
                    assert(f == pairing::fields_of(t@));
                    assert(f[1] == p@[1]@ && f[2] == p@[2]@);
                    let row = Row { interface: p[1].clone(), protocol: p[2].clone(), service };
                    assert(row.row().key == key_on(t@, service@));
                    if !add {
                        self.remove(&row);
                    } else if self.rows.len() < MAX_ROWS || self.contains(&row) {
                        self.insert(row);
                    }
                    Ok(Some(self.services()))
                },
            },
        }
    }
}

// ---------------------------------------------------------------------------
// Laws
// ---------------------------------------------------------------------------
proof fn lemma_key_total(a: Key, b: Key)
    ensures
        !key_precedes(a, a),
        a == b || key_precedes(a, b) || key_precedes(b, a),
{
    text::lemma_precedes_total(a.interface, b.interface);
    text::lemma_precedes_total(a.protocol, b.protocol);
    text::lemma_precedes_total(a.name, b.name);
    text::lemma_precedes_total(a.name, a.name);
}

proof fn lemma_key_transitive(a: Key, b: Key, c: Key)
    requires
        key_precedes(a, b),
        key_precedes(b, c),
    ensures
        key_precedes(a, c),
{
    if a.interface != b.interface && b.interface != c.interface {
        text::lemma_precedes_transitive(a.interface, b.interface, c.interface);
        text::lemma_precedes_total(a.interface, c.interface);
    }
    if a.interface == b.interface && b.interface == c.interface {
        if a.protocol != b.protocol && b.protocol != c.protocol {
            text::lemma_precedes_transitive(a.protocol, b.protocol, c.protocol);
            text::lemma_precedes_total(a.protocol, c.protocol);
        }
        if a.protocol == b.protocol && b.protocol == c.protocol {
            text::lemma_precedes_transitive(a.name, b.name, c.name);
        }
    }
}

/// A row that is put into ordered rows takes its place among them, in place of the
/// one with its key, and changes no other.
pub proof fn law_rows_are_put_in_order(rows: Seq<RowView>, row: RowView)
    requires
        is_ordered(rows),
    ensures
        is_ordered(put(rows, row)),
        forall|r: RowView| #[trigger]
            put(rows, row).contains(r) <==> r == row || (rows.contains(r) && r.key != row.key),
        put(rows, row).len() == if has_key(rows, row.key) {
            rows.len()
        } else {
            rows.len() + 1
        },
    decreases rows.len(),
{
    let out = put(rows, row);
    if rows.len() == 0 {
        assert(out =~= seq![row]);
        assert(out[0] == row);
    } else {
        let rest = rows.drop_last();
        let last = rows.last();
        assert(rows =~= rest.push(last));
        assert(is_ordered(rest)) by {
            assert forall|i: int, j: int| 0 <= i < j < rest.len() implies key_precedes(
                (#[trigger] rest[i]).key,
                (#[trigger] rest[j]).key,
            ) by {
                assert(rest[i] == rows[i] && rest[j] == rows[j]);
            }
        }
        assert forall|i: int| 0 <= i < rest.len() implies key_precedes(
            (#[trigger] rest[i]).key,
            last.key,
        ) by {
            assert(rest[i] == rows[i]);
            assert(rows[rows.len() - 1] == last);
        }
        if key_precedes(last.key, row.key) {
            assert forall|i: int| 0 <= i < rows.len() implies key_precedes(
                (#[trigger] rows[i]).key,
                row.key,
            ) by {
                if i < rest.len() {
                    assert(rows[i] == rest[i]);
                    lemma_key_transitive(rows[i].key, last.key, row.key);
                }
            }
            lemma_key_total(row.key, row.key);
            assert forall|r: RowView| #[trigger] out.contains(r) <==> r == row || (rows.contains(r)
                && r.key != row.key) by {
                lists::lemma_push_contains(rows, row, r);
            }
        } else if last.key == row.key {
            lemma_key_total(row.key, row.key);
            assert(rows[rows.len() - 1].key == row.key);
            assert(has_key(rows, row.key));
            assert forall|r: RowView| #[trigger] out.contains(r) <==> r == row || (rows.contains(r)
                && r.key != row.key) by {
                lists::lemma_push_contains(rest, row, r);
                lists::lemma_push_contains(rest, last, r);
            }
        } else {
            law_rows_are_put_in_order(rest, row);
            lemma_key_total(row.key, last.key);
            let inner = put(rest, row);
            assert forall|i: int| 0 <= i < inner.len() implies key_precedes(
                (#[trigger] inner[i]).key,
                last.key,
            ) by {
                assert(inner.contains(inner[i]));
                if inner[i] != row {
                    assert(rest.contains(inner[i]));
                }
            }
            assert forall|r: RowView| #[trigger] out.contains(r) <==> r == row || (rows.contains(r)
                && r.key != row.key) by {
                lists::lemma_push_contains(inner, last, r);
                lists::lemma_push_contains(rest, last, r);
                assert(inner.contains(r) <==> r == row || (rest.contains(r) && r.key != row.key));
            }
            assert(has_key(rows, row.key) == has_key(rest, row.key)) by {
                if has_key(rows, row.key) {
                    let i = choose|i: int| 0 <= i < rows.len() && rows[i].key == row.key;
                    assert(rest[i].key == row.key);
                }
                if has_key(rest, row.key) {
                    let i = choose|i: int| 0 <= i < rest.len() && rest[i].key == row.key;
                    assert(rows[i].key == row.key);
                }
            }
        }
    }
}

/// Advertisements stay in order and bounded, whatever the discovery tells, and those
/// that the line does not name are not touched: removing one keeps the same service
/// on another interface or in the other protocol.
pub proof fn law_rows_are_independent(
    rows: Seq<RowView>,
    line: Seq<char>,
    add: bool,
    s: ServiceView,
)
    requires
        is_ordered(rows),
        rows.len() <= MAX_ROWS,
    ensures
        is_ordered(updated(rows, line, add, s)),
        updated(rows, line, add, s).len() <= MAX_ROWS,
        forall|r: RowView|
            r.key != key_on(line, s) ==> (#[trigger] updated(rows, line, add, s).contains(r)
                <==> rows.contains(r)),
{
    let key = key_on(line, s);
    let row = RowView { key, service: s };
    let f = other_than(key);
    if add {
        law_rows_are_put_in_order(rows, row);
        assert forall|r: RowView| r.key != key implies (#[trigger] put(rows, row).contains(r)
            <==> rows.contains(r)) by {}
    } else {
        lemma_filter_ordered(rows, f);
        assert forall|r: RowView| r.key != key implies (#[trigger] rows.filter(f).contains(r)
            <==> rows.contains(r)) by {
            lists::lemma_filter_contains(rows, r, f);
        }
    }
}

proof fn lemma_filter_ordered(rows: Seq<RowView>, f: spec_fn(RowView) -> bool)
    requires
        is_ordered(rows),
    ensures
        is_ordered(rows.filter(f)),
        rows.filter(f).len() <= rows.len(),
    decreases rows.len(),
{
    reveal(Seq::filter);
    if rows.len() > 0 {
        let rest = rows.drop_last();
        let last = rows.last();
        assert(rows =~= rest.push(last));
        assert(is_ordered(rest)) by {
            assert forall|i: int, j: int| 0 <= i < j < rest.len() implies key_precedes(
                (#[trigger] rest[i]).key,
                (#[trigger] rest[j]).key,
            ) by {
                assert(rest[i] == rows[i] && rest[j] == rows[j]);
            }
        }
        lemma_filter_ordered(rest, f);
        lists::lemma_filter_push(rest, last, f);
        let kept = rest.filter(f);
        assert forall|i: int| 0 <= i < kept.len() implies key_precedes(
            (#[trigger] kept[i]).key,
            last.key,
        ) by {
            assert(kept.contains(kept[i]));
            lists::lemma_filter_contains(rest, kept[i], f);
            let k = choose|k: int| 0 <= k < rest.len() && rest[k] == kept[i];
            assert(rows[k] == rest[k]);
            assert(rows[rows.len() - 1] == last);
        }
    }
}

/// An advertisement that appears is listed from then on, in place of the one with the
/// same interface, protocol and name, unless 128 others are listed; one that goes away
/// is not. What is told are the services of all that are listed, in their order.
pub proof fn law_rows_follow_the_discovery(rows: Seq<RowView>, line: Seq<char>, s: ServiceView)
    requires
        is_ordered(rows),
    ensures
        ({
            let p = text::split_at_char(text::trim_end_by(line, text::spaces()), ';');
            let key = Key { interface: p[1], protocol: p[2], name: s.name };
            let row = RowView { key, service: s };
            let added = updated(rows, line, true, s);
            let removed = updated(rows, line, false, s);
            &&& rows.len() < 128 || has_key(rows, key) ==> {
                &&& forall|r: RowView| #[trigger]
                    added.contains(r) <==> r == row || (rows.contains(r) && r.key != key)
                &&& is_ordered(added)
            }
            &&& rows.len() >= 128 && !has_key(rows, key) ==> added == rows
            &&& forall|r: RowView| #[trigger]
                removed.contains(r) <==> rows.contains(r) && r.key != key
            &&& is_ordered(removed)
        }),
        services_of(rows).len() == rows.len(),
        forall|i: int| 0 <= i < rows.len() ==> #[trigger] services_of(rows)[i] == rows[i].service,
{
    let key = key_on(line, s);
    let row = RowView { key, service: s };
    law_rows_are_put_in_order(rows, row);
    lemma_filter_ordered(rows, other_than(key));
    let removed = rows.filter(other_than(key));
    assert forall|r: RowView| #[trigger] removed.contains(r) <==> rows.contains(r) && r.key
        != key by {
        lists::lemma_filter_contains(rows, r, other_than(key));
    }
}

/// Advertisements are ordered by interface, then by protocol, then by name.
pub proof fn law_order_of_rows(a: Key, b: Key)
    ensures
        text::precedes(a.interface, b.interface) ==> key_precedes(a, b),
        a.interface == b.interface && text::precedes(a.protocol, b.protocol) ==> key_precedes(a, b),
        a.interface == b.interface && a.protocol == b.protocol ==> key_precedes(a, b)
            == text::precedes(a.name, b.name),
        key_precedes(a, b) ==> !key_precedes(b, a),
{
    text::lemma_precedes_total(a.interface, b.interface);
    text::lemma_precedes_total(a.protocol, b.protocol);
    text::lemma_precedes_total(a.name, b.name);
    text::lemma_precedes_total(b.name, b.name);
    text::lemma_precedes_total(a.interface, a.interface);
    text::lemma_precedes_total(a.protocol, a.protocol);
}

/// The discovery ends where nothing can be read, at its end, and at a line of more than
/// 8192 bytes; and a line that is no text is about no service.
pub proof fn law_discovery_ends(line: Vec<u8>)
    ensures
        read_error(Read::Failed) == Some("mDNS discovery stopped; check avahi-daemon"@),
        line@.len() == 0 ==> read_error(Read::Line(line)) == Some(
            "mDNS discovery stopped; install avahi and start avahi-daemon"@,
        ),
        line@.len() > 8192 ==> read_error(Read::Line(line)) == Some(
            "Oversized mDNS discovery event"@,
        ),
        0 < line@.len() <= 8192 ==> read_error(Read::Line(line)) is None,
        !valid_utf8(line@) ==> service_on(line@) is None,
        valid_utf8(line@) ==> service_on(line@) == pairing::service_in(decode_utf8(line@)),
{
}

} // verus!
